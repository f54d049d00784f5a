//! The few `std::path` operations the library relies on, over UTF-8 path
//! strings. Each one's result is named here and computed by std; the library
//! states its own rules over these names.

use vstd::prelude::*;

use crate::text::{rsplit_char_once, split_at_last_char};

verus! {

/// What `Path::file_name` returns for the path `p`.
pub uninterp spec fn path_file_name(p: Seq<char>) -> Option<Seq<char>>;

/// What `Path::parent` returns for the path `p`.
pub uninterp spec fn path_parent(p: Seq<char>) -> Option<Seq<char>>;

/// A single ordinary path component: non-empty, without a `/`, and neither
/// `.` nor `..`.
pub open spec fn plain_name(n: Seq<char>) -> bool {
    n.len() > 0 && !n.contains('/') && n != "."@ && n != ".."@
}

/// The extension of a file name as `Path::extension` documents it: what
/// follows the last `.`, unless there is no `.` or the only one leads the
/// name.
pub open spec fn name_extension(n: Seq<char>) -> Option<Seq<char>> {
    match split_at_last_char(n, '.') {
        Some(parts) => if parts.0.len() > 0 {
            Some(parts.1)
        } else {
            None
        },
        None => None,
    }
}

/// What `Path::extension` returns for the path `p`: the extension of its
/// file name, if it has one.
pub open spec fn path_extension(p: Seq<char>) -> Option<Seq<char>> {
    match path_file_name(p) {
        Some(n) => name_extension(n),
        None => None,
    }
}

/// What `Path::file_stem` returns for the path `p`.
pub uninterp spec fn path_file_stem(p: Seq<char>) -> Option<Seq<char>>;

/// What `Path::join` returns for `base` and `name`.
pub uninterp spec fn path_join(base: Seq<char>, name: Seq<char>) -> Seq<char>;

/// What `Path::with_file_name` returns for `p` and `name`.
pub uninterp spec fn path_with_file_name(p: Seq<char>, name: Seq<char>) -> Seq<char>;

/// `Path::extension` of a UTF-8 path, computed from its file name.
pub(crate) fn extension(p: &str) -> (r: Option<String>)
    ensures
        match r {
            Some(e) => path_extension(p@) == Some(e@),
            None => path_extension(p@) is None,
        },
{
    match file_name(p) {
        Some(n) => match rsplit_char_once(n.as_str(), '.') {
            Some((stem, ext)) => {
                if crate::text::char_count(stem.as_str()) > 0 {
                    Some(ext)
                } else {
                    None
                }
            },
            None => None,
        },
        None => None,
    }
}

/// `Path::file_name` of a UTF-8 path; the contract names the result, which
/// is the path's final component when that is an ordinary one.
#[verifier::external_body]
pub(crate) fn file_name(p: &str) -> (r: Option<String>)
    ensures
        match r {
            Some(e) => path_file_name(p@) == Some(e@) && plain_name(e@),
            None => path_file_name(p@) is None,
        },
{
    std::path::Path::new(p).file_name().map(|e| e.to_string_lossy().into_owned())
}

/// `Path::file_stem` of a UTF-8 path; the contract names the result.
#[verifier::external_body]
pub(crate) fn file_stem(p: &str) -> (r: Option<String>)
    ensures
        match r {
            Some(e) => path_file_stem(p@) == Some(e@),
            None => path_file_stem(p@) is None,
        },
{
    std::path::Path::new(p).file_stem().map(|e| e.to_string_lossy().into_owned())
}

/// `Path::join` of two UTF-8 paths; the contract names the result.
#[verifier::external_body]
pub(crate) fn join(base: &str, name: &str) -> (r: String)
    ensures
        r@ == path_join(base@, name@),
{
    std::path::Path::new(base).join(name).to_string_lossy().into_owned()
}

/// `Path::with_file_name` of UTF-8 paths; the contract names the result.
/// When `p` has a file name and `name` is a single ordinary component, the
/// result's file name is `name` and its parent is `p`'s (std documents the
/// result as a sibling of the original path).
#[verifier::external_body]
pub(crate) fn with_file_name(p: &str, name: &str) -> (r: String)
    ensures
        r@ == path_with_file_name(p@, name@),
        path_file_name(p@) is Some && plain_name(name@) ==> path_file_name(r@) == Some(name@)
            && path_parent(r@) == path_parent(p@),
{
    std::path::Path::new(p).with_file_name(name).to_string_lossy().into_owned()
}

/// What `Path::new(a) == Path::new(b)` returns: equality of the paths'
/// components.
pub uninterp spec fn path_equal(a: Seq<char>, b: Seq<char>) -> bool;

/// Compares two paths by their components (`Path`'s `==`); the contract names
/// the result, and states only that a path equals itself and that the
/// comparison does not depend on the order of its arguments.
#[verifier::external_body]
pub(crate) fn paths_equal(a: &str, b: &str) -> (r: bool)
    ensures
        r == path_equal(a@, b@),
        r == path_equal(b@, a@),
        a@ == b@ ==> r,
{
    std::path::Path::new(a) == std::path::Path::new(b)
}

} // verus!
