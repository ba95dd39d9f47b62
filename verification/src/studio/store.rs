use vstd::prelude::*;

use crate::seqs::{find_first, lemma_find_first};
use crate::studio::auth::{session_token, slug_of, Session, User};
use crate::studio::billing::UsageLedger;
use crate::studio::experiments::ExperimentState;
use crate::studio::invites::Invite;
use crate::studio::jobs::RemoteJob;
use crate::studio::plans::PlanId;
use crate::studio::uploads::UploadRecord;
use crate::studio::workspace::Workspace;
use crate::text::str_eq;

verus! {

/// Everything the studio service keeps.
#[derive(Debug, Clone)]
pub struct StudioData {
    pub users: Vec<User>,
    pub workspaces: Vec<Workspace>,
    pub sessions: Vec<Session>,
    pub invites: Vec<Invite>,
    pub uploads: Vec<UploadRecord>,
    pub jobs: Vec<RemoteJob>,
    pub usage: UsageLedger,
    pub experiments: ExperimentState,
}

impl Default for StudioData {
    fn default() -> (r: Self)
        ensures
            r.users@.len() == 0,
            r.workspaces@.len() == 0,
            r.sessions@.len() == 0,
            r.invites@.len() == 0,
            r.uploads@.len() == 0,
            r.jobs@.len() == 0,
            r.usage.runs_this_month == 0,
            r.usage.storage_bytes == 0,
            r.usage.events@.len() == 0,
            r.experiments.variants@.len() == 2,
    {
        StudioData {
            users: Vec::new(),
            workspaces: Vec::new(),
            sessions: Vec::new(),
            invites: Vec::new(),
            uploads: Vec::new(),
            jobs: Vec::new(),
            usage: UsageLedger::default(),
            experiments: ExperimentState::default(),
        }
    }
}

/// The workspace has this id.
pub open spec fn workspace_has_id(id: Seq<char>) -> spec_fn(Workspace) -> bool {
    |w: Workspace| w.id@ == id
}

/// The user holds this token.
pub open spec fn user_has_token(token: Seq<char>) -> spec_fn(User) -> bool {
    |u: User| u.api_token@ == token
}

/// The session has this token.
pub open spec fn session_has_token(token: Seq<char>) -> spec_fn(Session) -> bool {
    |s: Session| s.token@ == token
}

impl StudioData {
    /// The data of a fresh installation: one Pro workspace, its operator and
    /// the operator's session in it.
    pub fn seed() -> (r: Self)
        ensures
            r.workspaces@.len() == 1,
            r.workspaces@[0].id@ == "demo-studio"@,
            r.workspaces@[0].name@ == "Demo Studio"@,
            r.workspaces@[0].plan == PlanId::Pro,
            r.workspaces@[0].retention_days == 30,
            r.users@.len() == 1,
            r.users@[0].id@ == slug_of("operator@mediaqa.local"@),
            r.users@[0].email@ == "operator@mediaqa.local"@,
            r.users@[0].api_token@ == "demo-token-change-me"@,
            r.sessions@.len() == 1,
            r.sessions@[0].token@ == session_token(slug_of("operator@mediaqa.local"@), "demo-studio"@),
            r.sessions@[0].user_id@ == slug_of("operator@mediaqa.local"@),
            r.sessions@[0].workspace_id@ == "demo-studio"@,
            r.invites@.len() == 0,
            r.uploads@.len() == 0,
            r.jobs@.len() == 0,
            r.usage.runs_this_month == 0,
            r.usage.storage_bytes == 0,
            r.experiments.variants@.len() == 2,
    {
        let workspace = Workspace::new("demo-studio", "Demo Studio", PlanId::Pro);
        let user = User::new("operator@mediaqa.local", "demo-token-change-me");
        let session = Session::new(user.id.as_str(), workspace.id.as_str());
        let mut users: Vec<User> = Vec::new();
        users.push(user);
        let mut workspaces: Vec<Workspace> = Vec::new();
        workspaces.push(workspace);
        let mut sessions: Vec<Session> = Vec::new();
        sessions.push(session);
        StudioData {
            users,
            workspaces,
            sessions,
            invites: Vec::new(),
            uploads: Vec::new(),
            jobs: Vec::new(),
            usage: UsageLedger::default(),
            experiments: ExperimentState::default(),
        }
    }

    /// The index of the first workspace with this id.
    pub fn workspace_index(&self, id: &str) -> (r: Option<usize>)
        ensures
            match r {
                Some(i) => i < self.workspaces@.len() && i as int == find_first(self.workspaces@, workspace_has_id(id@)),
                None => find_first(self.workspaces@, workspace_has_id(id@)) == -1,
            },
    {
        let n = self.workspaces.len();
        let mut i: usize = 0;
        while i < n && !str_eq(self.workspaces[i].id.as_str(), id)
            invariant
                n == self.workspaces@.len(),
                i <= n,
                forall|j: int| 0 <= j < i ==> !workspace_has_id(id@)(#[trigger] self.workspaces@[j]),
            decreases n - i,
        {
            i = i + 1;
        }
        proof {
            lemma_find_first(self.workspaces@, workspace_has_id(id@), i as int);
        }
        if i < n {
            Some(i)
        } else {
            None
        }
    }

    /// The first workspace with this id.
    pub fn workspace(&self, id: &str) -> (r: Option<&Workspace>)
        ensures
            match r {
                Some(w) => {
                    let i = find_first(self.workspaces@, workspace_has_id(id@));
                    0 <= i && *w == self.workspaces@[i]
                },
                None => find_first(self.workspaces@, workspace_has_id(id@)) == -1,
            },
    {
        match self.workspace_index(id) {
            Some(i) => Some(&self.workspaces[i]),
            None => None,
        }
    }

    /// The first user holding this API token.
    pub fn user_by_token(&self, token: &str) -> (r: Option<&User>)
        ensures
            match r {
                Some(u) => {
                    let i = find_first(self.users@, user_has_token(token@));
                    0 <= i && *u == self.users@[i]
                },
                None => find_first(self.users@, user_has_token(token@)) == -1,
            },
    {
        let n = self.users.len();
        let mut i: usize = 0;
        while i < n && !str_eq(self.users[i].api_token.as_str(), token)
            invariant
                n == self.users@.len(),
                i <= n,
                forall|j: int| 0 <= j < i ==> !user_has_token(token@)(#[trigger] self.users@[j]),
            decreases n - i,
        {
            i = i + 1;
        }
        proof {
            lemma_find_first(self.users@, user_has_token(token@), i as int);
        }
        if i < n {
            Some(&self.users[i])
        } else {
            None
        }
    }

    /// The index of the first session with this token.
    pub fn session_index(&self, token: &str) -> (r: Option<usize>)
        ensures
            match r {
                Some(i) => i < self.sessions@.len() && i as int == find_first(self.sessions@, session_has_token(token@)),
                None => find_first(self.sessions@, session_has_token(token@)) == -1,
            },
    {
        let n = self.sessions.len();
        let mut i: usize = 0;
        while i < n && !str_eq(self.sessions[i].token.as_str(), token)
            invariant
                n == self.sessions@.len(),
                i <= n,
                forall|j: int| 0 <= j < i ==> !session_has_token(token@)(#[trigger] self.sessions@[j]),
            decreases n - i,
        {
            i = i + 1;
        }
        proof {
            lemma_find_first(self.sessions@, session_has_token(token@), i as int);
        }
        if i < n {
            Some(i)
        } else {
            None
        }
    }

    /// The first session with this token.
    pub fn session_by_token(&self, token: &str) -> (r: Option<&Session>)
        ensures
            match r {
                Some(s) => {
                    let i = find_first(self.sessions@, session_has_token(token@));
                    0 <= i && *s == self.sessions@[i]
                },
                None => find_first(self.sessions@, session_has_token(token@)) == -1,
            },
    {
        match self.session_index(token) {
            Some(i) => Some(&self.sessions[i]),
            None => None,
        }
    }
}

} // verus!
