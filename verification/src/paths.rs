//! File paths held as text, and the parts of them that `std::path` computes.
//! Paths here always come from UTF-8 text, so no conversion loses anything.

use vstd::prelude::*;

verus! {

/// `Path::parent` of the path `p`.
pub uninterp spec fn path_parent(p: Seq<char>) -> Option<Seq<char>>;

/// `Path::file_stem` of the path `p`.
pub uninterp spec fn path_file_stem(p: Seq<char>) -> Option<Seq<char>>;

/// `Path::extension` of the path `p`.
pub uninterp spec fn path_extension(p: Seq<char>) -> Option<Seq<char>>;

/// `Path::join` of the paths `a` and `b`.
pub uninterp spec fn path_join(a: Seq<char>, b: Seq<char>) -> Seq<char>;

/// The parent directory of `p` (`Path::parent`); the result is
/// `path_parent(p)`, whose component rules are those of `std::path` and are
/// not restated here.
#[verifier::external_body]
pub(crate) fn parent_of(p: &str) -> (r: Option<String>)
    ensures
        r matches Some(q) ==> path_parent(p@) == Some(q@),
        r is None ==> path_parent(p@) is None,
{
    match std::path::Path::new(p).parent() {
        Some(q) => Some(q.to_string_lossy().into_owned()),
        None => None,
    }
}

/// The file name of `p` without its extension (`Path::file_stem`); the result
/// is `path_file_stem(p)`.
#[verifier::external_body]
pub(crate) fn file_stem_of(p: &str) -> (r: Option<String>)
    ensures
        r matches Some(q) ==> path_file_stem(p@) == Some(q@),
        r is None ==> path_file_stem(p@) is None,
{
    match std::path::Path::new(p).file_stem() {
        Some(q) => Some(q.to_string_lossy().into_owned()),
        None => None,
    }
}

/// The extension of `p` without the dot (`Path::extension`); the result is
/// `path_extension(p)`.
#[verifier::external_body]
pub(crate) fn extension_of(p: &str) -> (r: Option<String>)
    ensures
        r matches Some(q) ==> path_extension(p@) == Some(q@),
        r is None ==> path_extension(p@) is None,
{
    match std::path::Path::new(p).extension() {
        Some(q) => Some(q.to_string_lossy().into_owned()),
        None => None,
    }
}

/// `b` appended to `a` as a path (`Path::join`); the result is
/// `path_join(a, b)`.
#[verifier::external_body]
pub(crate) fn join_path(a: &str, b: &str) -> (r: String)
    ensures
        r@ == path_join(a@, b@),
{
    std::path::Path::new(a).join(b).to_string_lossy().into_owned()
}

} // verus!
