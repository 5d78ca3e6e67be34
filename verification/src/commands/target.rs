//! The file that a request names, as it was found.
use vstd::prelude::*;

use crate::commands::refusal::{invalid, refuse, refused, reject, Refusal, RefusalModel};
use crate::lang::{detect_language, path_lang, LangId};
use crate::text::{text2, text3};

verus! {

/// What was found where a request points.
pub struct Target {
    /// Whether anything is there.
    pub exists: bool,
    /// Whether a directory is there.
    pub is_dir: bool,
    /// The text, or why it cannot be read.
    pub content: Result<String, String>,
}

/// The model of a `Target`'s text.
pub open spec fn content_model(t: Target) -> Result<Seq<char>, Seq<char>> {
    match t.content {
        Ok(s) => Ok(s@),
        Err(e) => Err(e@),
    }
}

/// The text of the file that a request names `file`, or the refusal where there is none.
pub open spec fn readable(file: Seq<char>, t: Target) -> Result<Seq<char>, RefusalModel> {
    if !t.exists {
        Err(refused("file_not_found"@, "file not found: "@ + file))
    } else {
        match content_model(t) {
            Ok(s) => Ok(s),
            Err(e) => Err(refused("file_not_found"@, file + ": "@ + e)),
        }
    }
}

/// The text of the file that a request names `file`.
pub fn read_target<'a>(file: &str, t: &'a Target) -> (r: Result<&'a str, Refusal>)
    ensures
        match r {
            Ok(s) => readable(file@, *t) == Ok::<Seq<char>, RefusalModel>(s@),
            Err(e) => readable(file@, *t) == Err::<Seq<char>, RefusalModel>(e.deep_view()),
        },
{
    if !t.exists {
        return Err(refuse("file_not_found", text2("file not found: ", file)));
    }
    match &t.content {
        Ok(s) => Ok(s.as_str()),
        Err(e) => Err(refuse("file_not_found", text3(file, ": ", e.as_str()))),
    }
}

/// The text of the file that a request to a command for one language names: the command is
/// refused where there is no file, where the language is not known or is another, and where
/// the file cannot be read.
pub open spec fn source_in(
    command: Seq<char>,
    file: Seq<char>,
    t: Target,
    lang: LangId,
    unknown: Seq<char>,
    other: Seq<char>,
) -> Result<Seq<char>, RefusalModel> {
    if !t.exists {
        Err(refused("file_not_found"@, command + ": file not found: "@ + file))
    } else {
        match path_lang(file) {
            None => Err(invalid(command + unknown)),
            Some(l) => if l != lang {
                Err(invalid(command + other))
            } else {
                match content_model(t) {
                    Ok(s) => Ok(s),
                    Err(e) => Err(
                        refused("file_not_found"@, command + ": cannot read file: "@ + e),
                    ),
                }
            },
        }
    }
}

/// The text of the file that a request to a command for one language names.
pub fn read_source_in<'a>(
    command: &str,
    file: &str,
    t: &'a Target,
    lang: LangId,
    unknown: &str,
    other: &str,
) -> (r: Result<&'a str, Refusal>)
    ensures
        match (r, source_in(command@, file@, *t, lang, unknown@, other@)) {
            (Ok(a), Ok(b)) => a@ == b,
            (Err(e), Err(m)) => e.deep_view() == m,
            _ => false,
        },
{
    if !t.exists {
        return Err(refuse("file_not_found", text3(command, ": file not found: ", file)));
    }
    match detect_language(file) {
        None => {
            return Err(reject(text2(command, unknown).as_str()));
        },
        Some(l) => {
            if l != lang {
                return Err(reject(text2(command, other).as_str()));
            }
        },
    }
    match &t.content {
        Ok(s) => Ok(s.as_str()),
        Err(e) => Err(
            refuse("file_not_found", text3(command, ": cannot read file: ", e.as_str())),
        ),
    }
}

/// The file of a command for one language is read where it is there, is in that language by its name
/// and can be read; any other is refused.
pub proof fn files_are_read_in_the_language_of_the_command(
    command: Seq<char>,
    file: Seq<char>,
    t: Target,
    lang: LangId,
    unknown: Seq<char>,
    other: Seq<char>,
)
    ensures
        match source_in(command, file, t, lang, unknown, other) {
            Ok(s) => t.exists && path_lang(file) == Some(lang) && t.content is Ok && s
                == (t.content->Ok_0)@,
            Err(_) => !t.exists || path_lang(file) != Some(lang) || t.content is Err,
        },
        match readable(file, t) {
            Ok(s) => t.exists && t.content is Ok && s == (t.content->Ok_0)@,
            Err(_) => !t.exists || t.content is Err,
        },
{
}

} // verus!
