use ytamp::model::{ArtistRef, Track, TrackId};

#[test]
fn track_artist_names_join_with_a_comma() {
    let track = Track {
        source: Default::default(),
        id: TrackId("t1".into()),
        title: "Song".into(),
        artists: vec![ArtistRef::named("A".into()), ArtistRef::named("B".into())],
        album: None,
        album_id: None,
        duration: None,
        thumbnail_url: None,
        playlist_item_id: None,
    };
    assert_eq!(track.artist_names(), "A, B");
}

#[test]
fn a_track_without_artists_has_no_names() {
    let track = Track {
        source: Default::default(),
        id: TrackId("t1".into()),
        title: "Song".into(),
        artists: vec![],
        album: None,
        album_id: None,
        duration: None,
        thumbnail_url: None,
        playlist_item_id: None,
    };
    assert_eq!(track.artist_names(), "");
}
