use std::path::Path;
use vstd::prelude::*;

verus! {

/// The final component of a path, where it has one.
pub uninterp spec fn file_name_of(p: Seq<char>) -> Option<Seq<char>>;

/// A path joined onto a base directory, as text.
pub uninterp spec fn joined_path(base: Seq<char>, p: Seq<char>) -> Seq<char>;

/// Relies on std::path::Path::file_name: the final component of `p`, or `None` where
/// the path ends in `..` or has no component.
#[verifier::external_body]
pub(crate) fn final_component(p: &str) -> (r: Option<String>)
    ensures
        r.is_some() == file_name_of(p@).is_some(),
        r.is_some() ==> file_name_of(p@) == Some(r.unwrap()@),
{
    Path::new(p).file_name().and_then(|n| n.to_str()).map(|n| n.to_string())
}

/// Relies on std::path::Path::join: `p` pushed onto `base`, rendered as text.
#[verifier::external_body]
pub(crate) fn join_path(base: &str, p: &str) -> (r: String)
    ensures
        r@ == joined_path(base@, p@),
{
    Path::new(base).join(p).display().to_string()
}

} // verus!
