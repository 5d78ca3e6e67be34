//! The places that define a symbol.
use vstd::prelude::*;

use crate::commands::lsp::{
    check_request, request_refusal, tell_place, tell_places, LocationEntry, LspPlace, LspRequest,
};
use crate::commands::refusal::Refusal;
use crate::models::{group_models, models};

verus! {

/// A server's reply: one place, or a list of them.
pub enum DefinitionReply {
    Scalar(LspPlace),
    List(Vec<LspPlace>),
}

/// Why a request is refused before any server is asked.
pub fn check_goto_definition(request: &Result<LspRequest, String>) -> (r: Option<Refusal>)
    ensures
        match (r, request_refusal("lsp_goto_definition"@, *request)) {
            (Some(e), Some(m)) => e.deep_view() == m,
            (None, None) => true,
            _ => false,
        },
{
    check_request("lsp_goto_definition", request)
}

/// Tells of the places in a server's reply.
pub fn handle_lsp_goto_definition(reply: Option<DefinitionReply>) -> (r: Vec<LocationEntry>)
    ensures
        models(r@) == (match reply {
            Some(DefinitionReply::Scalar(place)) => seq![place.deep_view()],
            Some(DefinitionReply::List(places)) => models(places@),
            None => Seq::empty(),
        }),
{
    broadcast use group_models;

    match reply {
        Some(DefinitionReply::Scalar(place)) => {
            let mut out: Vec<LocationEntry> = Vec::new();
            let e = tell_place(&place);
            let ghost m = e.deep_view();
            out.push(e);
            assert(models(out@) =~= seq![m]);
            out
        },
        Some(DefinitionReply::List(places)) => tell_places(&Some(places)),
        None => Vec::new(),
    }
}

} // verus!
