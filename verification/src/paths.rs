//! The parts of a file path that the library's rules read: its
//! extension and its stem, as `std::path::Path` splits them.
use vstd::prelude::*;
use crate::model::opt_str;

verus! {

/// The extension `Path::extension` finds in a path: what follows the
/// last `.` of its file name, when the name has one past its start.
pub uninterp spec fn path_extension(path: Seq<char>) -> Option<Seq<char>>;

/// The stem `Path::file_stem` finds in a path: its file name without
/// the extension.
pub uninterp spec fn path_stem(path: Seq<char>) -> Option<Seq<char>>;

/// The extension of `path`, by `Path::extension`. The result depends
/// on the path's characters alone, so the contract names it; a path
/// given as a `&str` is UTF-8, so the lossless conversion back to a
/// string keeps it.
#[verifier::external_body]
pub(crate) fn extension_of(path: &str) -> (r: Option<String>)
    ensures
        opt_str(r) == path_extension(path@),
{
    std::path::Path::new(path).extension().map(|e| e.to_string_lossy().into_owned())
}

/// The file stem of `path`, by `Path::file_stem`, named the same way.
#[verifier::external_body]
pub(crate) fn stem_of(path: &str) -> (r: Option<String>)
    ensures
        opt_str(r) == path_stem(path@),
{
    std::path::Path::new(path).file_stem().map(|e| e.to_string_lossy().into_owned())
}

} // verus!
