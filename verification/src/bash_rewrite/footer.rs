//! The hint under an answer that took the place of a shell command.
use vstd::prelude::*;

use crate::text::text4;

verus! {

/// An answer with the hint that there is a tool for it.
pub fn add_footer(response_output: &str, replacement_tool: &str) -> (r: String)
    ensures
        r@ == response_output@ + "\n\nPrefer `"@ + replacement_tool@ + "` tool over bash."@,
{
    text4(response_output, "\n\nPrefer `", replacement_tool, "` tool over bash.")
}

} // verus!
