//! Symbols of a source file.
use vstd::prelude::*;

verus! {

/// The kind of a symbol.
#[derive(Clone, Copy, Debug, PartialEq, Eq, Structural)]
pub enum SymbolKind {
    Function,
    Method,
    Class,
    Struct,
    Interface,
    Enum,
    TypeAlias,
}

/// A stretch of a file: lines and columns counted from zero, the end not included.
#[derive(Clone, Copy, Debug, PartialEq, Eq, Structural)]
pub struct Range {
    pub start_line: u32,
    pub start_col: u32,
    pub end_line: u32,
    pub end_col: u32,
}

} // verus!
