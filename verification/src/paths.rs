//! Paths as texts, taken apart and put together by `std::path`.
//!
//! The library holds a path as a `String`. What `std::path` makes of such a
//! text (its parent, its last component, the result of joining) is not spelled
//! out here: each result only gets a name, and the functions below are trusted
//! to return it. The names stand for what `std::path` computes on the system
//! the library is built for.

use vstd::prelude::*;

verus! {

/// The path that `Path::join` gives for `base` extended by `rel`.
pub uninterp spec fn joined(base: Seq<char>, rel: Seq<char>) -> Seq<char>;

/// What `Path::parent` gives for `path`: the path without its last component,
/// if it has one.
pub uninterp spec fn parent_of(path: Seq<char>) -> Option<Seq<char>>;

/// What `Path::file_name` gives for `path`: its last component, if that is a
/// normal one.
pub uninterp spec fn file_name_of(path: Seq<char>) -> Option<Seq<char>>;

/// Extends `base` by `rel` with `Path::join` of the standard library. Trusted
/// to return the path named `joined(base, rel)`.
#[verifier::external_body]
pub(crate) fn join(base: &str, rel: &str) -> (r: String)
    ensures
        r@ == joined(base@, rel@),
{
    std::path::Path::new(base).join(rel).to_string_lossy().into_owned()
}

/// Takes the parent of `path` with `Path::parent` of the standard library.
/// Trusted to return the path named `parent_of(path)`, or nothing where that
/// is nothing.
#[verifier::external_body]
pub(crate) fn parent(path: &str) -> (r: Option<String>)
    ensures
        r is Some == parent_of(path@) is Some,
        r matches Some(p) ==> parent_of(path@) == Some(p@),
{
    std::path::Path::new(path).parent().map(|p| p.to_string_lossy().into_owned())
}

/// Takes the last component of `path` with `Path::file_name` of the standard
/// library. Trusted to return the text named `file_name_of(path)`, or nothing
/// where that is nothing.
#[verifier::external_body]
pub(crate) fn file_name(path: &str) -> (r: Option<String>)
    ensures
        r is Some == file_name_of(path@) is Some,
        r matches Some(n) ==> file_name_of(path@) == Some(n@),
{
    std::path::Path::new(path).file_name().map(|n| n.to_string_lossy().into_owned())
}

} // verus!
