//! The pure rules of the library cache: which playlist ids may name a
//! file, the file each names, and which snapshots still count.
//!
//! The app shows the last session's library at once, then a network
//! refresh replaces it. Each list lives in its own JSON file; the
//! reading and writing belong to the caller.
use vstd::prelude::*;
use crate::model::PlaylistId;
use crate::stream::disk_cache::{all_id_chars, join_path, joined, only_id_chars};
use crate::text::chars_of;

verus! {

/// Bumped when the snapshot shape changes, so a file from an older
/// build counts as a miss rather than a failed parse.
pub const CACHE_VERSION: u32 = 3;

/// The longest playlist id this cache accepts into a file name.
pub const MAX_PLAYLIST_ID_LEN: usize = 128;

/// `id` is safe to use as a file name: not empty, not too long, and
/// built only from letters, digits, underscores, and hyphens.
pub open spec fn valid_playlist_id(id: Seq<char>) -> bool {
    0 < id.len() <= MAX_PLAYLIST_ID_LEN && all_id_chars(id)
}

/// True when `id` is safe to use as a file name. This rejects path
/// separators and `.` outright, so a crafted playlist id can never
/// escape the cache directory. (The characters allowed are all one
/// byte long, so the limit on characters is the limit on bytes.)
pub fn is_valid_playlist_id(id: &str) -> (r: bool)
    ensures
        r == valid_playlist_id(id@),
{
    let chars = chars_of(id);
    chars.len() > 0 && chars.len() <= MAX_PLAYLIST_ID_LEN && only_id_chars(&chars)
}

/// The cache file for a playlist's track list under `dir`.
pub open spec fn playlist_tracks_path_spec(dir: Seq<char>, id: Seq<char>) -> Option<Seq<char>> {
    if valid_playlist_id(id) {
        Some(joined(dir, "playlist-"@ + id + ".json"@))
    } else {
        None
    }
}

/// The cache file path for a playlist's track list, or `None` when
/// the id does not have a safe shape.
pub fn playlist_tracks_path(dir: &str, id: &PlaylistId) -> (r: Option<String>)
    ensures
        match r {
            Some(p) => playlist_tracks_path_spec(dir@, id@) == Some(p@),
            None => playlist_tracks_path_spec(dir@, id@) is None,
        },
{
    if !is_valid_playlist_id(id.0.as_str()) {
        return None;
    }
    let mut name = "playlist-".to_owned();
    name.append(id.0.as_str());
    name.append(".json");
    Some(join_path(dir, name.as_str()))
}

/// Whether a snapshot written with `version` still counts: only the
/// current shape does; anything else is a clean miss.
pub fn accepts_version(version: u32) -> (r: bool)
    ensures
        r == (version == CACHE_VERSION),
{
    version == CACHE_VERSION
}

} // verus!
