//! What the standard library's path grammar says of a path. The grammar is
//! that of the platform for which the library is built; it is consulted, not
//! restated.

use vstd::prelude::*;

verus! {

/// The path without its last component, as `std::path::Path::parent` gives
/// it for the text of a path; `None` where that gives none.
pub uninterp spec fn parent_of(path: Seq<char>) -> Option<Seq<char>>;

/// The last component of a path, as `std::path::Path::file_name` gives it
/// for the text of a path; `None` where that gives none.
pub uninterp spec fn file_name_of(path: Seq<char>) -> Option<Seq<char>>;

/// Calls `std::path::Path::parent`. The contract only gives the result its
/// name: the standard library computes it from the text alone.
#[verifier::external_body]
pub(crate) fn path_parent(path: &str) -> (parent: Option<String>)
    ensures
        match parent {
            Some(p) => parent_of(path@) == Some(p@),
            None => parent_of(path@).is_none(),
        },
{
    std::path::Path::new(path).parent().and_then(|p| p.to_str()).map(|p| p.to_string())
}

/// Calls `std::path::Path::file_name`. The contract only gives the result
/// its name: the standard library computes it from the text alone.
#[verifier::external_body]
pub(crate) fn path_file_name(path: &str) -> (name: Option<String>)
    ensures
        match name {
            Some(n) => file_name_of(path@) == Some(n@),
            None => file_name_of(path@).is_none(),
        },
{
    std::path::Path::new(path).file_name().and_then(|n| n.to_str()).map(|n| n.to_string())
}

} // verus!
