//! Which files in the skins folder are skins, and the name each shows.
use vstd::prelude::*;
use crate::model::opt_str;
use crate::paths::{extension_of, path_extension, path_stem, stem_of};
use crate::text::{eq_ignore_ascii_case, eq_ignore_case};

verus! {

/// The extension names a skin archive: `wsz` or `zip`, in any case,
/// since skin authors name files however they like.
pub open spec fn is_archive_extension(e: Seq<char>) -> bool {
    eq_ignore_case(e, "wsz"@) || eq_ignore_case(e, "zip"@)
}

/// The name a skin archive at `path` shows.
pub open spec fn skin_stem_spec(path: Seq<char>) -> Option<Seq<char>> {
    match path_extension(path) {
        Some(e) => if is_archive_extension(e) {
            path_stem(path)
        } else {
            None
        },
        None => None,
    }
}

/// Whether an extension names a skin archive: `wsz` or `zip`, in any case.
pub fn is_archive(extension: &str) -> (r: bool)
    ensures
        r == is_archive_extension(extension@),
{
    eq_ignore_ascii_case(extension, "wsz") || eq_ignore_ascii_case(extension, "zip")
}

/// A skin archive's name without its extension, or `None` when the
/// path is not a `.wsz` or `.zip` file.
pub fn skin_stem(path: &str) -> (r: Option<String>)
    ensures
        opt_str(r) == skin_stem_spec(path@),
{
    match extension_of(path) {
        None => None,
        Some(extension) => {
            if is_archive(extension.as_str()) {
                stem_of(path)
            } else {
                None
            }
        },
    }
}

/// The message for a modern Winamp skin, which the player cannot wear.
pub const MODERN_SKIN: &'static str =
    "Modern .wal skins are not supported. Choose a classic Winamp .wsz skin.";

/// Whether an extension names a modern `.wal` skin, in any case.
pub fn is_modern_extension(extension: &str) -> (r: bool)
    ensures
        r == eq_ignore_case(extension@, "wal"@),
{
    eq_ignore_ascii_case(extension, "wal")
}

/// Whether `path` names a modern `.wal` skin, in any case.
pub fn is_modern_skin(path: &str) -> (r: bool)
    ensures
        r == (path_extension(path@) is Some && eq_ignore_case(path_extension(path@)->0, "wal"@)),
{
    match extension_of(path) {
        None => false,
        Some(extension) => is_modern_extension(extension.as_str()),
    }
}

} // verus!
