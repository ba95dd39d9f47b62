use vstd::prelude::*;

use crate::seqs::{find_first, lemma_find_first};
use crate::text::{chars_of, owned, push_char, push_str, str_eq};

verus! {

/// An account and the API token it signs in with.
#[derive(Debug, Clone, PartialEq, Eq)]
pub struct User {
    pub id: String,
    pub email: String,
    pub api_token: String,
}

/// A signed-in user working in one workspace.
#[derive(Debug, Clone, PartialEq, Eq)]
pub struct Session {
    pub token: String,
    pub user_id: String,
    pub workspace_id: String,
}

/// ASCII letters and digits stay; every other character becomes `-`.
pub open spec fn slug_char(c: char) -> char {
    if ('a' <= c <= 'z') || ('A' <= c <= 'Z') || ('0' <= c <= '9') {
        c
    } else {
        '-'
    }
}

/// `s` with every character that is not an ASCII letter or digit replaced
/// by `-`.
pub open spec fn slug_of(s: Seq<char>) -> Seq<char> {
    s.map_values(|c: char| slug_char(c))
}

/// `s` with every character that is not an ASCII letter or digit replaced
/// by `-`.
pub fn slug(s: &str) -> (r: String)
    ensures
        r@ == slug_of(s@),
{
    let cs = chars_of(s);
    let mut out = String::new();
    let n = cs.len();
    let mut i: usize = 0;
    while i < n
        invariant
            n == cs@.len(),
            cs@ == s@,
            i <= n,
            out@ == slug_of(s@.take(i as int)),
        decreases n - i,
    {
        let c = cs[i];
        let d = if ('a' <= c && c <= 'z') || ('A' <= c && c <= 'Z') || ('0' <= c && c <= '9') {
            c
        } else {
            '-'
        };
        push_char(&mut out, d);
        assert(slug_of(s@.take(i + 1)) =~= slug_of(s@.take(i as int)).push(slug_char(c)));
        i = i + 1;
    }
    assert(s@.take(n as int) =~= s@);
    out
}

/// The token of the session of `user_id` in `workspace_id`.
pub open spec fn session_token(user_id: Seq<char>, workspace_id: Seq<char>) -> Seq<char> {
    "sess_"@ + user_id + "_"@ + workspace_id
}

fn make_session_token(user_id: &str, workspace_id: &str) -> (r: String)
    ensures
        r@ == session_token(user_id@, workspace_id@),
{
    let mut t = owned("sess_");
    push_str(&mut t, user_id);
    push_str(&mut t, "_");
    push_str(&mut t, workspace_id);
    t
}

impl User {
    /// The user with this email and token; the id is the email's slug.
    pub fn new(email: &str, api_token: &str) -> (u: User)
        ensures
            u.id@ == slug_of(email@),
            u.email@ == email@,
            u.api_token@ == api_token@,
    {
        User { id: slug(email), email: owned(email), api_token: owned(api_token) }
    }
}

impl Session {
    /// The session of `user_id` in `workspace_id`.
    pub fn new(user_id: &str, workspace_id: &str) -> (s: Session)
        ensures
            s.token@ == session_token(user_id@, workspace_id@),
            s.user_id@ == user_id@,
            s.workspace_id@ == workspace_id@,
    {
        Session {
            token: make_session_token(user_id, workspace_id),
            user_id: owned(user_id),
            workspace_id: owned(workspace_id),
        }
    }
}

/// The user holds this token.
pub open spec fn has_token(token: Seq<char>) -> spec_fn(User) -> bool {
    |u: User| u.api_token@ == token
}

/// The session belongs to this user.
pub open spec fn of_user(user_id: Seq<char>) -> spec_fn(Session) -> bool {
    |s: Session| s.user_id@ == user_id
}

/// The session a token signs in to: none when no user holds the token;
/// else the first session of the first such user, or a new session of that
/// user in the demo workspace when there is none.
pub open spec fn login_result(users: Seq<User>, sessions: Seq<Session>, api_token: Seq<char>) -> Option<(
    Seq<char>,
    Seq<char>,
    Seq<char>,
)> {
    let u = find_first(users, has_token(api_token));
    if u < 0 {
        None
    } else {
        let uid = users[u].id@;
        let s = find_first(sessions, of_user(uid));
        if s < 0 {
            Some((session_token(uid, "demo-studio"@), uid, "demo-studio"@))
        } else {
            Some((sessions[s].token@, sessions[s].user_id@, sessions[s].workspace_id@))
        }
    }
}

/// The text fields of a session: token, user and workspace.
pub open spec fn session_view(s: Session) -> (Seq<char>, Seq<char>, Seq<char>) {
    (s.token@, s.user_id@, s.workspace_id@)
}

/// Signs in with an API token.
pub fn login_with_token(users: &[User], sessions: &[Session], api_token: &str) -> (r: Option<Session>)
    ensures
        match r {
            Some(s) => login_result(users@, sessions@, api_token@) == Some(session_view(s)),
            None => login_result(users@, sessions@, api_token@) is None,
        },
{
    let n = users.len();
    let mut i: usize = 0;
    while i < n && !str_eq(users[i].api_token.as_str(), api_token)
        invariant
            n == users@.len(),
            i <= n,
            forall|j: int| 0 <= j < i ==> !has_token(api_token@)(#[trigger] users@[j]),
        decreases n - i,
    {
        i = i + 1;
    }
    proof {
        lemma_find_first(users@, has_token(api_token@), i as int);
    }
    if i == n {
        return None;
    }
    let user = &users[i];
    let m = sessions.len();
    let mut k: usize = 0;
    while k < m && !str_eq(sessions[k].user_id.as_str(), user.id.as_str())
        invariant
            m == sessions@.len(),
            k <= m,
            forall|j: int| 0 <= j < k ==> !of_user(user.id@)(#[trigger] sessions@[j]),
        decreases m - k,
    {
        k = k + 1;
    }
    proof {
        lemma_find_first(sessions@, of_user(user.id@), k as int);
    }
    if k < m {
        let s = &sessions[k];
        Some(Session { token: s.token.clone(), user_id: s.user_id.clone(), workspace_id: s.workspace_id.clone() })
    } else {
        Some(Session::new(user.id.as_str(), "demo-studio"))
    }
}

/// Moves the session to another workspace; its token names the new one.
pub fn switch_workspace(session: &mut Session, workspace_id: &str)
    ensures
        final(session).workspace_id@ == workspace_id@,
        final(session).user_id == old(session).user_id,
        final(session).token@ == session_token(old(session).user_id@, workspace_id@),
{
    session.workspace_id = owned(workspace_id);
    let t = make_session_token(session.user_id.as_str(), workspace_id);
    session.token = t;
}

/// A session's token names its user and workspace.
pub open spec fn token_matches(s: Session) -> bool {
    s.token@ == session_token(s.user_id@, s.workspace_id@)
}

/// A session made by `Session::new` or moved by `switch_workspace` has the
/// token that names its user and workspace.
pub proof fn law_session_token_names_workspace(before: Session, after: Session, workspace_id: Seq<char>)
    requires
        after.workspace_id@ == workspace_id,
        after.user_id == before.user_id,
        after.token@ == session_token(before.user_id@, workspace_id),
    ensures
        token_matches(after),
{
}

} // verus!
