//! File-system paths, kept as text.

use vstd::prelude::*;

verus! {

/// The text of `std::path::Path::join` of `part` onto `base`.
pub uninterp spec fn joined_path(base: Seq<char>, part: Seq<char>) -> Seq<char>;

/// `std::path::Path::new(base).join(part)`, as text. Both inputs are
/// UTF-8, so the joined path is too and the text is exact.
#[verifier::external_body]
pub(crate) fn path_join(base: &str, part: &str) -> (r: String)
    ensures
        r@ == joined_path(base@, part@),
{
    std::path::Path::new(base).join(part).to_string_lossy().into_owned()
}

} // verus!
