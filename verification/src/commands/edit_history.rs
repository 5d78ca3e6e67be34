//! The backups of a file, and the checkpoints of a session.
use vstd::prelude::*;

use crate::backup::{backups_of, BackupEntry, BackupStore};
use crate::checkpoint::{listed, CheckpointInfo, CheckpointStore};
use crate::commands::refusal::{given_text, need, needed, Refusal, RefusalModel};
use crate::json::Json;
use crate::models::models;
use crate::paths::{join_path, path_join};
use crate::text::owned;

verus! {

/// The path of the file that a request names: below the project where it is not absolute.
pub open spec fn history_path(params: Json, root: Option<Seq<char>>) -> Result<
    Seq<char>,
    RefusalModel,
> {
    match needed(params, "edit_history"@, "file"@) {
        Err(e) => Err(e),
        Ok(file) => Ok(
            match root {
                Some(root) => path_join(root, file),
                None => file,
            },
        ),
    }
}

/// The path of the file that a request names.
pub fn resolve_history_path(params: &Json, project_root: Option<&str>) -> (r: Result<
    String,
    Refusal,
>)
    ensures
        match (r, history_path(*params, given_text(project_root))) {
            (Ok(a), Ok(b)) => a@ == b,
            (Err(e), Err(m)) => e.deep_view() == m,
            _ => false,
        },
{
    let file = match need(params, "edit_history", "file") {
        Ok(s) => s,
        Err(e) => {
            return Err(e);
        },
    };
    match project_root {
        Some(root) => Ok(join_path(root, file)),
        None => Ok(owned(file)),
    }
}

/// The backups of the file with a key, the latest last.
pub fn handle_edit_history(store: &BackupStore, key: &str) -> (r: Vec<BackupEntry>)
    ensures
        models(r@) == backups_of(store@, key@),
{
    store.history(key)
}

/// What is told of the checkpoints of a session.
pub fn handle_list_checkpoints(store: &CheckpointStore, session: &str) -> (r: Vec<CheckpointInfo>)
    ensures
        models(r@) == listed(store@, session@),
{
    store.list(session)
}

/// The history that a request asks for is that of the file it names: as it is where it is absolute
/// or there is no project, and below the project otherwise.
pub proof fn histories_are_those_of_their_file(params: Json, root: Option<Seq<char>>)
    ensures
        match history_path(params, root) {
            Ok(p) => params.text_field("file"@) is Some && {
                let file = params.text_field("file"@)->0;
                &&& root is None ==> p == file
                &&& file.len() > 0 && file[0] == '/' ==> p == file
                &&& root is Some ==> p == path_join(root->0, file)
            },
            Err(_) => params.text_field("file"@) is None,
        },
{
}

} // verus!
