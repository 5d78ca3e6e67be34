//! Deletions of files.
use vstd::prelude::*;

use crate::commands::refusal::{
    invalid, need, needed, refuse, refused, reject, verdict, Refusal, RefusalModel,
};
use crate::error::AftError;
use crate::json::Json;
use crate::text::{owned, text2, text3};

verus! {

/// The file that a request deletes, and the path that was validated for it. `exists` and
/// `is_dir` tell what is at that path.
pub open spec fn delete_target(
    params: Json,
    validated: Result<String, Refusal>,
    exists: bool,
    is_dir: bool,
) -> Result<(Seq<char>, Seq<char>), RefusalModel> {
    match needed(params, "delete_file"@, "file"@) {
        Err(e) => Err(e),
        Ok(file) => match validated {
            Err(e) => Err(e.deep_view()),
            Ok(path) => if !exists {
                Err(refused("file_not_found"@, "delete_file: file not found: "@ + file))
            } else if is_dir {
                Err(invalid("delete_file: '"@ + file + "' is a directory, not a file"@))
            } else {
                Ok((file, path@))
            },
        },
    }
}

/// The file that a request deletes, and the path that was validated for it.
pub fn check_delete(
    params: &Json,
    validated: Result<String, Refusal>,
    exists: bool,
    is_dir: bool,
) -> (r: Result<(String, String), Refusal>)
    ensures
        match (r, delete_target(*params, validated, exists, is_dir)) {
            (Ok(a), Ok(b)) => a.0@ == b.0 && a.1@ == b.1,
            (Err(e), Err(m)) => e.deep_view() == m,
            _ => false,
        },
{
    let file = match need(params, "delete_file", "file") {
        Ok(s) => s,
        Err(e) => {
            return Err(e);
        },
    };
    let path = match validated {
        Ok(p) => p,
        Err(e) => {
            return Err(e);
        },
    };
    if !exists {
        return Err(refuse("file_not_found", text2("delete_file: file not found: ", file)));
    }
    if is_dir {
        return Err(
            reject(text3("delete_file: '", file, "' is a directory, not a file").as_str()),
        );
    }
    Ok((owned(file), path))
}

/// A file that was deleted, and the backup that was made of it.
pub struct Deleted {
    pub file: String,
    pub backup_id: Option<String>,
}

/// The model of a `Deleted`.
pub ghost struct Deletion {
    pub file: Seq<char>,
    pub backup_id: Option<Seq<char>>,
}

impl DeepView for Deleted {
    type V = Deletion;

    open spec fn deep_view(&self) -> Deletion {
        Deletion { file: self.file@, backup_id: self.backup_id.deep_view() }
    }
}

/// What becomes of a request to delete a file. `backup` is the backup that was made of the file
/// before it was removed, and `removed` what became of the removal: a file whose backup cannot
/// be made is not deleted.
pub open spec fn deletion(
    params: Json,
    validated: Result<String, Refusal>,
    exists: bool,
    is_dir: bool,
    backup: Result<Option<String>, AftError>,
    removed: Result<(), String>,
) -> Result<Deletion, RefusalModel> {
    match delete_target(params, validated, exists, is_dir) {
        Err(e) => Err(e),
        Ok(target) => match (backup, removed) {
            (Err(e), _) => Err(RefusalModel::Error(e.deep_view())),
            (Ok(_), Err(why)) => Err(
                refused("io_error"@, "delete_file: failed to delete: "@ + why@),
            ),
            (Ok(id), Ok(_)) => Ok(Deletion { file: target.0, backup_id: id.deep_view() }),
        },
    }
}

/// Answers a request to delete a file.
pub fn handle_delete_file(
    params: &Json,
    validated: Result<String, Refusal>,
    exists: bool,
    is_dir: bool,
    backup: Result<Option<String>, AftError>,
    removed: Result<(), String>,
) -> (r: Result<Deleted, Refusal>)
    ensures
        verdict(r) == deletion(*params, validated, exists, is_dir, backup, removed),
{
    let file = match check_delete(params, validated, exists, is_dir) {
        Ok(target) => target.0,
        Err(e) => {
            return Err(e);
        },
    };
    match (backup, removed) {
        (Err(e), _) => Err(Refusal::Error(e)),
        (Ok(_), Err(why)) => Err(
            refuse("io_error", text2("delete_file: failed to delete: ", why.as_str())),
        ),
        (Ok(backup_id), Ok(_)) => Ok(Deleted { file, backup_id }),
    }
}

/// A file is deleted only where the request names it, its path is allowed, it is there, it is no
/// directory and a backup of it could be made; the answer tells the file and the backup.
pub proof fn files_are_deleted_behind_a_backup(
    params: Json,
    validated: Result<String, Refusal>,
    there: bool,
    is_dir: bool,
    backup: Result<Option<String>, AftError>,
    removed: Result<(), String>,
)
    ensures
        match deletion(params, validated, there, is_dir, backup, removed) {
            Ok(d) => params.text_field("file"@) == Some(d.file) && validated is Ok && there
                && !is_dir && backup is Ok && removed is Ok && d.backup_id
                == backup->Ok_0.deep_view(),
            Err(_) => params.text_field("file"@) is None || validated is Err || !there || is_dir
                || backup is Err || removed is Err,
        },
        match delete_target(params, validated, there, is_dir) {
            Ok(t) => params.text_field("file"@) == Some(t.0) && validated is Ok && t.1
                == (validated->Ok_0)@ && there && !is_dir,
            Err(_) => params.text_field("file"@) is None || validated is Err || !there || is_dir,
        },
{
}

} // verus!
