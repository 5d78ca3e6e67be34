//! Counts as machine words.
use vstd::prelude::*;

verus! {

/// A count, cut off where a machine word cannot count further.
pub open spec fn capped(n: int) -> int {
    if n > usize::MAX {
        usize::MAX as int
    } else {
        n
    }
}

} // verus!
