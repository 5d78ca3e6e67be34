//! The permissions that a shell command needs.
use vstd::prelude::*;

use crate::text::texts;

pub mod scan;

verus! {

/// What a permission is for.
#[derive(Clone, Copy, Debug, PartialEq, Eq, Structural)]
pub enum PermissionKind {
    /// A directory outside the project.
    ExternalDirectory,
    /// A command.
    Bash,
}

/// A permission that is to be asked for: for what it is asked now, and for what it can be given
/// once and for all.
#[derive(Debug, Clone)]
pub struct PermissionAsk {
    pub kind: PermissionKind,
    pub patterns: Vec<String>,
    pub always: Vec<String>,
}

/// The model of a `PermissionAsk`.
#[verifier::ext_equal]
pub ghost struct Ask {
    pub kind: PermissionKind,
    pub patterns: Seq<Seq<char>>,
    pub always: Seq<Seq<char>>,
}

impl DeepView for PermissionAsk {
    type V = Ask;

    open spec fn deep_view(&self) -> Ask {
        Ask { kind: self.kind, patterns: texts(self.patterns@), always: texts(self.always@) }
    }
}

} // verus!
