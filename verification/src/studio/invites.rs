use vstd::prelude::*;

use crate::studio::auth::{slug, slug_of};
use crate::text::{owned, push_str};
use crate::time::Timestamp;

verus! {

/// An invitation to join a workspace.
#[derive(Debug, Clone, PartialEq, Eq)]
pub struct Invite {
    pub token: String,
    pub workspace_id: String,
    pub email: String,
    pub created_at: Timestamp,
    pub accepted: bool,
}

/// The token of the invitation of `email` to `workspace_id`.
pub open spec fn invite_token(workspace_id: Seq<char>, email: Seq<char>) -> Seq<char> {
    "invite_"@ + workspace_id + "_"@ + slug_of(email)
}

/// A new, not yet accepted invitation, made at `now`.
pub fn create_invite(workspace_id: &str, email: &str, now: Timestamp) -> (i: Invite)
    ensures
        i.token@ == invite_token(workspace_id@, email@),
        i.workspace_id@ == workspace_id@,
        i.email@ == email@,
        !i.accepted,
        i.created_at == now,
{
    let mut token = owned("invite_");
    push_str(&mut token, workspace_id);
    push_str(&mut token, "_");
    let s = slug(email);
    push_str(&mut token, s.as_str());
    Invite {
        token,
        workspace_id: owned(workspace_id),
        email: owned(email),
        created_at: now,
        accepted: false,
    }
}

/// Marks the invitation accepted.
pub fn accept_invite(invite: &mut Invite)
    ensures
        final(invite).accepted,
        final(invite).token == old(invite).token,
        final(invite).workspace_id == old(invite).workspace_id,
        final(invite).email == old(invite).email,
        final(invite).created_at == old(invite).created_at,
{
    invite.accepted = true;
}

} // verus!
