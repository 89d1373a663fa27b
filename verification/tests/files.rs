use std::path::PathBuf;

use ytamp::library_cache::{accepts_version, is_valid_playlist_id, playlist_tracks_path, MAX_PLAYLIST_ID_LEN};
use ytamp::local_media::{
    artists_from_tag, check_lyric_file, filename, supports_path, LYRIC_NOT_A_FILE, LYRIC_TOO_LARGE,
    MAX_LRC_BYTES,
};
use ytamp::model::PlaylistId;
use ytamp::skins_dir::{is_modern_skin, skin_stem};

#[test]
fn valid_playlist_id_accepts_the_usual_shape() {
    assert!(is_valid_playlist_id("PL1234567890abcdef"));
    assert!(is_valid_playlist_id("LM"));
}

#[test]
fn valid_playlist_id_rejects_path_separators_and_dots() {
    assert!(!is_valid_playlist_id(""));
    assert!(!is_valid_playlist_id("../../etc/passwd"));
    assert!(!is_valid_playlist_id("a/b"));
    assert!(!is_valid_playlist_id("a\\b"));
    assert!(!is_valid_playlist_id("a.json"));
    assert!(!is_valid_playlist_id(&"x".repeat(MAX_PLAYLIST_ID_LEN + 1)));
}

#[test]
fn playlist_tracks_path_rejects_an_unsafe_id() {
    let dir = "/cache/library";
    let id = PlaylistId("../escape".to_string());
    assert!(playlist_tracks_path(dir, &id).is_none());
}

#[test]
fn playlist_tracks_path_names_the_playlist_file() {
    let id = PlaylistId("PL1".to_string());
    let path = playlist_tracks_path("/cache/library/", &id).expect("valid id");
    assert_eq!(PathBuf::from(path), PathBuf::from("/cache/library/playlist-PL1.json"));
    assert!(accepts_version(3));
    assert!(!accepts_version(4));
}

#[test]
fn skin_stem_accepts_wsz_and_zip_case_insensitively() {
    assert_eq!(skin_stem("Zaxon.WSZ"), Some("Zaxon".to_string()));
    assert_eq!(skin_stem("base.zip"), Some("base".to_string()));
    assert_eq!(skin_stem("readme.txt"), None);
    assert_eq!(skin_stem("no-extension"), None);
}

#[test]
fn a_modern_skin_is_named_by_its_extension() {
    assert!(is_modern_skin("unsupported.WAL"));
    assert!(!is_modern_skin("classic.wsz"));
}

#[test]
fn supported_containers_are_recognised_in_any_case() {
    assert!(supports_path("/music/song.MP3"));
    assert!(supports_path("clip.webm"));
    assert!(!supports_path("notes.txt"));
    assert!(!supports_path("no-extension"));
}

#[test]
fn a_file_without_a_title_tag_takes_its_stem() {
    assert_eq!(filename("/music/My Song.flac"), "My Song");
    assert_eq!(filename("/"), "Unknown title");
}

#[test]
fn an_artist_tag_splits_on_slashes() {
    let artists = artists_from_tag("A/B");
    assert_eq!(artists.len(), 2);
    assert_eq!(artists[0].name, "A");
    assert_eq!(artists[1].name, "B");
    assert!(artists[1].id.is_none());
}

#[test]
fn lyric_files_beside_tracks_must_be_small_regular_files() {
    assert_eq!(check_lyric_file(true, 0), Ok(()));
    assert_eq!(check_lyric_file(true, MAX_LRC_BYTES), Ok(()));
    assert_eq!(check_lyric_file(true, 2 * 1024 * 1024 + 1), Err(LYRIC_TOO_LARGE.to_string()));
    assert_eq!(check_lyric_file(false, 10), Err(LYRIC_NOT_A_FILE.to_string()));
    assert_eq!(LYRIC_TOO_LARGE, "local lyric file exceeds 2 MiB");
}
