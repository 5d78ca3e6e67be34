//! The places that refer to a symbol.
use vstd::prelude::*;

use crate::commands::lsp::{
    check_request, request_refusal, tell_places, LocationEntry, LspPlace, LspRequest,
};
use crate::commands::refusal::Refusal;
use crate::models::models;

verus! {

/// The places that refer to a symbol.
pub struct ReferencesReport {
    pub references: Vec<LocationEntry>,
    pub total: usize,
}

/// Whether the declaration of a symbol is asked for too; it is, unless a request says not.
pub fn with_declaration(given: Option<bool>) -> (r: bool)
    ensures
        r == (given != Some(false)),
{
    match given {
        Some(b) => b,
        None => true,
    }
}

/// Why a request is refused before any server is asked.
pub fn check_find_references(request: &Result<LspRequest, String>) -> (r: Option<Refusal>)
    ensures
        match (r, request_refusal("lsp_find_references"@, *request)) {
            (Some(e), Some(m)) => e.deep_view() == m,
            (None, None) => true,
            _ => false,
        },
{
    check_request("lsp_find_references", request)
}

/// Tells of the places in a server's reply.
pub fn handle_lsp_find_references(reply: &Option<Vec<LspPlace>>) -> (r: ReferencesReport)
    ensures
        models(r.references@) == (match *reply {
            Some(places) => models(places@),
            None => Seq::empty(),
        }),
        r.total == r.references@.len(),
{
    let references = tell_places(reply);
    let total = references.len();
    ReferencesReport { references, total }
}

} // verus!
