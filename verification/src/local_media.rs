//! The pure rules of local file import: which files to probe, and the
//! title and artists a file's tags give a track.
use vstd::prelude::*;
use crate::model::{artist_views, ArtistRef, ArtistRefView};
use crate::paths::{extension_of, path_extension, path_stem, stem_of};
use crate::text::{eq_ignore_ascii_case, eq_ignore_case, segments, split_on};

verus! {

/// The containers this release probes locally, by extension.
pub open spec fn supported_extensions() -> Seq<Seq<char>> {
    seq![
        "mp3"@,
        "wav"@,
        "flac"@,
        "ogg"@,
        "m4a"@,
        "mp4"@,
        "mov"@,
        "mkv"@,
        "webm"@,
        "aif"@,
        "aiff"@,
    ]
}

/// The path's extension names a supported container, in any case.
pub open spec fn supports_path_spec(path: Seq<char>) -> bool {
    match path_extension(path) {
        Some(e) => supported_extension(e),
        None => false,
    }
}

/// The extension names a supported container, in any case.
pub open spec fn supported_extension(e: Seq<char>) -> bool {
    exists|k: int|
        0 <= k < supported_extensions().len() && eq_ignore_case(e, #[trigger] supported_extensions()[k])
}

/// Whether an extension names a container this release probes locally.
pub fn is_supported_extension(extension: &str) -> (r: bool)
    ensures
        r == supported_extension(extension@),
{
    let known: Vec<&str> = vec![
        "mp3",
        "wav",
        "flac",
        "ogg",
        "m4a",
        "mp4",
        "mov",
        "mkv",
        "webm",
        "aif",
        "aiff",
    ];
    assert(known@.map_values(|p: &str| p@) =~= supported_extensions());
    let mut k: usize = 0;
    while k < known.len()
        invariant
            k <= known@.len(),
            known@.map_values(|p: &str| p@) == supported_extensions(),
            forall|j: int| 0 <= j < k ==> !eq_ignore_case(extension@, #[trigger] supported_extensions()[j]),
        decreases known@.len() - k,
    {
        assert(known@[k as int]@ == supported_extensions()[k as int]);
        if eq_ignore_ascii_case(extension, known[k]) {
            return true;
        }
        k = k + 1;
    }
    false
}

/// Returns whether a dropped path is a container this release probes locally.
pub fn supports_path(path: &str) -> (r: bool)
    ensures
        r == supports_path_spec(path@),
{
    match extension_of(path) {
        Some(e) => is_supported_extension(e.as_str()),
        None => false,
    }
}

/// The title a file without a title tag shows.
pub const UNKNOWN_TITLE: &'static str = "Unknown title";

/// The title of a file without a title tag: its stem, or
/// "Unknown title" when the path has none.
pub open spec fn filename_spec(path: Seq<char>) -> Seq<char> {
    match path_stem(path) {
        Some(s) => s,
        None => UNKNOWN_TITLE@,
    }
}

/// The title of a file without a title tag.
pub fn filename(path: &str) -> (r: String)
    ensures
        r@ == filename_spec(path@),
{
    match stem_of(path) {
        Some(stem) => stem,
        None => UNKNOWN_TITLE.to_owned(),
    }
}

/// The artist credits an artist tag gives: one per `/`-separated name.
pub open spec fn tag_artists(tag: Seq<char>) -> Seq<ArtistRefView> {
    segments(tag, '/').map_values(|name: Seq<char>| ArtistRefView { name, id: None })
}

/// The artist credits of an artist tag, one per `/`-separated name.
pub fn artists_from_tag(tag: &str) -> (r: Vec<ArtistRef>)
    ensures
        artist_views(r@) == tag_artists(tag@),
{
    let names = split_on(tag, '/');
    let mut artists: Vec<ArtistRef> = Vec::new();
    let mut i: usize = 0;
    while i < names.len()
        invariant
            i <= names@.len(),
            names@.map_values(|p: &str| p@) == segments(tag@, '/'),
            artists@.len() == i,
            forall|k: int|
                0 <= k < i ==> #[trigger] artists@[k]@ == (ArtistRefView {
                    name: names@[k]@,
                    id: None,
                }),
        decreases names@.len() - i,
    {
        artists.push(ArtistRef::named(names[i].to_owned()));
        i = i + 1;
    }
    assert(artist_views(artists@) =~= tag_artists(tag@)) by {
        assert forall|k: int| 0 <= k < artists@.len() implies #[trigger] artist_views(artists@)[k]
            == tag_artists(tag@)[k] by {
            assert(names@.map_values(|p: &str| p@)[k] == names@[k]@);
        }
    }
    artists
}

/// The largest lyric file read from beside a local track: two
/// mebibytes.
pub const MAX_LRC_BYTES: u64 = 2097152;

/// The answer when the lyric path beside a track is no regular file.
pub const LYRIC_NOT_A_FILE: &'static str = "local lyric path is not a regular file";

/// The answer when the lyric file beside a track is too large to read.
pub const LYRIC_TOO_LARGE: &'static str = "local lyric file exceeds 2 MiB";

/// Whether a lyric file found beside a local track may be read: it
/// must be a regular file of at most `MAX_LRC_BYTES`.
pub open spec fn lyric_file_verdict(is_file: bool, len: u64) -> Result<(), Seq<char>> {
    if !is_file {
        Err(LYRIC_NOT_A_FILE@)
    } else if len > MAX_LRC_BYTES {
        Err(LYRIC_TOO_LARGE@)
    } else {
        Ok(())
    }
}

/// Checks a lyric file found beside a local track, given whether it is
/// a regular file and its length in bytes.
pub fn check_lyric_file(is_file: bool, len: u64) -> (r: Result<(), String>)
    ensures
        match r {
            Ok(()) => lyric_file_verdict(is_file, len) is Ok,
            Err(e) => lyric_file_verdict(is_file, len) == Err::<(), Seq<char>>(e@),
        },
{
    if !is_file {
        Err(LYRIC_NOT_A_FILE.to_owned())
    } else if len > MAX_LRC_BYTES {
        Err(LYRIC_TOO_LARGE.to_owned())
    } else {
        Ok(())
    }
}

} // verus!
