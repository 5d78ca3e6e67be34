//! Why a command is refused.
use vstd::prelude::*;

use crate::error::{AftError, Fault};
use crate::json::Json;
use crate::models::models;
use crate::text::{owned, text4};

verus! {

/// Why a command is refused.
#[derive(Debug)]
pub enum Refusal {
    /// For a reason that the command itself names.
    Request { code: String, message: String },
    /// For a pattern that is none.
    Pattern { code: String, message: String, pattern: String },
    /// For an error of an operation.
    Error(AftError),
}

/// The model of a `Refusal`.
pub ghost enum RefusalModel {
    Request { code: Seq<char>, message: Seq<char> },
    Pattern { code: Seq<char>, message: Seq<char>, pattern: Seq<char> },
    Error(Fault),
}

impl DeepView for Refusal {
    type V = RefusalModel;

    open spec fn deep_view(&self) -> RefusalModel {
        match *self {
            Refusal::Request { code, message } => RefusalModel::Request {
                code: code@,
                message: message@,
            },
            Refusal::Pattern { code, message, pattern } => RefusalModel::Pattern {
                code: code@,
                message: message@,
                pattern: pattern@,
            },
            Refusal::Error(e) => RefusalModel::Error(e.deep_view()),
        }
    }
}

/// A refusal with a code and a message.
pub open spec fn refused(code: Seq<char>, message: Seq<char>) -> RefusalModel {
    RefusalModel::Request { code, message }
}

/// A refusal of the request itself.
pub open spec fn invalid(message: Seq<char>) -> RefusalModel {
    refused("invalid_request"@, message)
}

/// The model of a result.
pub open spec fn verdict<T: DeepView>(r: Result<T, Refusal>) -> Result<T::V, RefusalModel> {
    match r {
        Ok(v) => Ok(v.deep_view()),
        Err(e) => Err(e.deep_view()),
    }
}

/// The model of a list or a refusal.
pub open spec fn list_verdict<T: DeepView>(r: Result<Vec<T>, Refusal>) -> Result<
    Seq<T::V>,
    RefusalModel,
> {
    match r {
        Ok(v) => Ok(models(v@)),
        Err(e) => Err(e.deep_view()),
    }
}

/// The model of a text or a refusal.
pub open spec fn text_verdict(r: Result<String, Refusal>) -> Result<Seq<char>, RefusalModel> {
    match r {
        Ok(s) => Ok(s@),
        Err(e) => Err(e.deep_view()),
    }
}

/// A refusal with a code and a message.
pub fn refuse(code: &str, message: String) -> (r: Refusal)
    ensures
        r.deep_view() == refused(code@, message@),
{
    Refusal::Request { code: owned(code), message }
}

/// A refusal of the request itself.
pub fn reject(message: &str) -> (r: Refusal)
    ensures
        r.deep_view() == invalid(message@),
{
    Refusal::Request { code: "invalid_request".to_owned(), message: owned(message) }
}

/// The text of a parameter that a command needs.
pub open spec fn needed(params: Json, command: Seq<char>, key: Seq<char>) -> Result<
    Seq<char>,
    RefusalModel,
> {
    match params.text_field(key) {
        Some(s) => Ok(s),
        None => Err(invalid(command + ": missing required param '"@ + key + "'"@)),
    }
}

/// The text of a parameter that a command needs.
pub fn need<'a>(params: &'a Json, command: &str, key: &str) -> (r: Result<&'a str, Refusal>)
    ensures
        match (r, needed(*params, command@, key@)) {
            (Ok(s), Ok(t)) => s@ == t,
            (Err(e), Err(m)) => e.deep_view() == m,
            _ => false,
        },
{
    match params.get_text(key) {
        Some(s) => Ok(s),
        None => Err(
            reject(text4(command, ": missing required param '", key, "'").as_str()),
        ),
    }
}

/// The model of a text that a parameter gives.
pub open spec fn given_text(s: Option<&str>) -> Option<Seq<char>> {
    match s {
        Some(t) => Some(t@),
        None => None,
    }
}

} // verus!
