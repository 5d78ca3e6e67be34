//! The errors of the library.
use vstd::prelude::*;

use crate::models::models;

verus! {

/// An error of an operation.
#[derive(Debug)]
pub enum AftError {
    FileNotFound { path: String },
    NoUndoHistory { path: String },
    IoError { path: String, message: String },
    CheckpointNotFound { name: String },
    ParseError { message: String },
    InvalidRequest { message: String },
    ScopeNotFound { scope: String, available: Vec<String>, file: String },
    MemberNotFound { member: String, scope: String, file: String },
}

/// The model of an `AftError`.
pub ghost enum Fault {
    FileNotFound { path: Seq<char> },
    NoUndoHistory { path: Seq<char> },
    IoError { path: Seq<char>, message: Seq<char> },
    CheckpointNotFound { name: Seq<char> },
    ParseError { message: Seq<char> },
    InvalidRequest { message: Seq<char> },
    ScopeNotFound { scope: Seq<char>, available: Seq<Seq<char>>, file: Seq<char> },
    MemberNotFound { member: Seq<char>, scope: Seq<char>, file: Seq<char> },
}

impl DeepView for AftError {
    type V = Fault;

    open spec fn deep_view(&self) -> Fault {
        match *self {
            AftError::FileNotFound { path } => Fault::FileNotFound { path: path@ },
            AftError::NoUndoHistory { path } => Fault::NoUndoHistory { path: path@ },
            AftError::IoError { path, message } => Fault::IoError {
                path: path@,
                message: message@,
            },
            AftError::CheckpointNotFound { name } => Fault::CheckpointNotFound { name: name@ },
            AftError::ParseError { message } => Fault::ParseError { message: message@ },
            AftError::InvalidRequest { message } => Fault::InvalidRequest { message: message@ },
            AftError::ScopeNotFound { scope, available, file } => Fault::ScopeNotFound {
                scope: scope@,
                available: models(available@),
                file: file@,
            },
            AftError::MemberNotFound { member, scope, file } => Fault::MemberNotFound {
                member: member@,
                scope: scope@,
                file: file@,
            },
        }
    }
}

/// The model of a result.
pub open spec fn outcome<T: DeepView>(r: Result<T, AftError>) -> Result<T::V, Fault> {
    match r {
        Ok(v) => Ok(v.deep_view()),
        Err(e) => Err(e.deep_view()),
    }
}

} // verus!
