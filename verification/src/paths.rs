//! Paths as text. How a path splits into parts is left to `std::path`, for
//! the platform that the library is built for; its answers are named here so
//! that contracts can speak of them.

use std::path::Path;
use vstd::prelude::*;

verus! {

/// The characters of an optional string.
pub open spec fn text_of(text: Option<String>) -> Option<Seq<char>> {
    match text {
        Some(t) => Some(t@),
        None => None,
    }
}

/// The extension of a path, as `std::path::Path::extension` reads it.
pub uninterp spec fn path_extension(path: Seq<char>) -> Option<Seq<char>>;

/// The parent of a path, as `std::path::Path::parent` reads it.
pub uninterp spec fn path_parent(path: Seq<char>) -> Option<Seq<char>>;

/// A directory's path with one more part, as `std::path::Path::join` builds it.
pub uninterp spec fn path_join(dir: Seq<char>, part: Seq<char>) -> Seq<char>;

/// Calls `Path::extension`. Trusted: the result is a function of the path's
/// text alone.
#[verifier::external_body]
pub(crate) fn extension(path: &str) -> (ext: Option<String>)
    ensures
        text_of(ext) == path_extension(path@),
{
    Path::new(path).extension().and_then(|ext| ext.to_str()).map(|ext| ext.to_owned())
}

/// Calls `Path::parent`. Trusted: the result is a function of the path's
/// text alone.
#[verifier::external_body]
pub(crate) fn parent(path: &str) -> (dir: Option<String>)
    ensures
        text_of(dir) == path_parent(path@),
{
    Path::new(path).parent().map(|dir| dir.to_string_lossy().into_owned())
}

/// Calls `Path::join`. Trusted: the result is a function of the two texts
/// alone.
#[verifier::external_body]
pub(crate) fn join(dir: &str, part: &str) -> (joined: String)
    ensures
        joined@ == path_join(dir@, part@),
{
    Path::new(dir).join(part).to_string_lossy().into_owned()
}

} // verus!
