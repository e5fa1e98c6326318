//! Query text for the graph store.

use vstd::prelude::*;
use crate::text::concatenate;

verus! {

/// The SQL `LIKE` pattern matching labels or types that contain `query`.
pub fn like_pattern(query: &str) -> (r: String)
    ensures
        r@ == "%"@ + query@ + "%"@,
{
    let a = concatenate("%", query);
    concatenate(a.as_str(), "%")
}

} // verus!
