use vstd::prelude::*;

use crate::text::{owned, push_signed_decimal, push_str, signed_dec};
use crate::time::Timestamp;

verus! {

/// A file uploaded to a workspace.
#[derive(Debug, Clone, PartialEq, Eq)]
pub struct UploadRecord {
    pub id: String,
    pub workspace_id: String,
    pub filename: String,
    pub stored_path: String,
    pub bytes: u64,
    pub created_at: Timestamp,
}

/// The id of an upload to `workspace_id` at `secs`.
pub open spec fn upload_id(workspace_id: Seq<char>, secs: i64) -> Seq<char> {
    "upload_"@ + workspace_id + "_"@ + signed_dec(secs as int)
}

/// The record of a file uploaded at `now`.
pub fn create_upload(workspace_id: &str, filename: &str, stored_path: String, bytes: u64, now: Timestamp) -> (u: UploadRecord)
    ensures
        u.id@ == upload_id(workspace_id@, now.secs),
        u.created_at == now,
        u.workspace_id@ == workspace_id@,
        u.filename@ == filename@,
        u.stored_path == stored_path,
        u.bytes == bytes,
{
    let mut id = owned("upload_");
    push_str(&mut id, workspace_id);
    push_str(&mut id, "_");
    push_signed_decimal(&mut id, now.secs);
    UploadRecord {
        id,
        workspace_id: owned(workspace_id),
        filename: owned(filename),
        stored_path,
        bytes,
        created_at: now,
    }
}

} // verus!
