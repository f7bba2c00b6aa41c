//! Path arithmetic, left to `std::path`.

use vstd::prelude::*;

verus! {

/// The path that `std::path::Path::join` gives for `path` adjoined to `base`.
/// It is computed from the two texts alone, by the platform's path syntax;
/// the filesystem is not consulted.
pub uninterp spec fn joined_path(base: Seq<char>, path: Seq<char>) -> Seq<char>;

/// The path that `std::path::Path::parent` gives for `path`: the path without its
/// final component, or nothing where `path` ends in a root or is empty. It is
/// computed from the text alone.
pub uninterp spec fn parent_path(path: Seq<char>) -> Option<Seq<char>>;

/// Calls `std::path::Path::join` on `base` with `path`. Not verified: the result is
/// taken to be what `joined_path` names. Both arguments are UTF-8 and joining adds
/// at most a separator, so the conversion back to a `String` changes nothing.
#[verifier::external_body]
pub(crate) fn join(base: &str, path: &str) -> (r: String)
    ensures
        r@ == joined_path(base@, path@),
{
    std::path::Path::new(base).join(path).to_string_lossy().into_owned()
}

/// Calls `std::path::Path::parent` on `path`. Not verified: the result is taken to
/// be what `parent_path` names. The parent is a leading part of the UTF-8 argument
/// cut at a separator, so the conversion back to a `String` changes nothing.
#[verifier::external_body]
pub(crate) fn parent(path: &str) -> (r: Option<String>)
    ensures
        match r {
            Some(p) => parent_path(path@) == Some(p@),
            None => parent_path(path@) is None,
        },
{
    match std::path::Path::new(path).parent() {
        Some(p) => Some(p.to_string_lossy().into_owned()),
        None => None,
    }
}

} // verus!
