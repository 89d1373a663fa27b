use ytamp::durations::Lookup;
use ytamp::model::{Span, Track, TrackId};
use ytamp::stream::sources::chunk_request;

fn track(id: &str) -> Track {
    Track {
        source: Default::default(),
        id: TrackId(id.to_string()),
        title: id.to_string(),
        artists: vec![],
        album: None,
        album_id: None,
        duration: None,
        thumbnail_url: None,
        playlist_item_id: None,
    }
}

fn ids(ids: &[TrackId]) -> Vec<&str> {
    ids.iter().map(|id| id.0.as_str()).collect()
}

#[test]
fn lookup_batches_fifty_unique_missing_ids_and_skips_known_durations() {
    let mut lookup = Lookup::new(1);
    let mut tracks: Vec<Track> = (0..55).map(|i| track(&format!("missing-{i}"))).collect();
    tracks.push(track("missing-0"));
    let mut known = track("known");
    known.duration = Some(Span { secs: 99, nanos: 0 });
    tracks.push(known);
    let batch = lookup.sync(true, 1, &tracks).expect("one duration request");
    assert_eq!(batch.len(), 50);
    assert_eq!(
        batch,
        (0..50).map(|i| TrackId(format!("missing-{i}"))).collect::<Vec<_>>()
    );
    assert!(lookup.sync(true, 1, &tracks).is_none());
    let answered = lookup.complete();
    assert_eq!(answered.len(), 50);
    for track in tracks.iter_mut() {
        if answered.contains(&track.id) {
            track.duration = Some(Span { secs: 123, nanos: 0 });
        }
    }
    let next = lookup.sync(true, 1, &tracks).expect("the rest");
    assert_eq!(ids(&next), ["missing-50", "missing-51", "missing-52", "missing-53", "missing-54"]);
}

#[test]
fn lookups_retry_three_times_then_stop() {
    let mut lookup = Lookup::new(1);
    let tracks = vec![track("a")];
    for _ in 0..3 {
        assert!(lookup.sync(true, 1, &tracks).is_some());
        let pending = lookup.complete();
        assert_eq!(ids(&pending), ["a"]);
        if lookup.attempts_for(&TrackId("a".into())) == 3 {
            assert!(lookup.unresolved(&tracks, &pending));
        } else {
            assert!(!lookup.unresolved(&tracks, &pending));
        }
    }
    assert!(lookup.sync(true, 1, &tracks).is_none());
    assert_eq!(lookup.attempts_for(&TrackId("a".into())), 3);
}

#[test]
fn a_new_session_forgets_the_last_ones_lookups() {
    let mut lookup = Lookup::new(1);
    let tracks = vec![track("a")];
    assert!(lookup.sync(false, 1, &tracks).is_none());
    assert!(lookup.sync(true, 1, &tracks).is_some());
    assert!(lookup.sync(true, 1, &tracks).is_none());
    let fresh = lookup.sync(true, 2, &tracks).expect("a new session asks again");
    assert_eq!(ids(&fresh), ["a"]);
    assert_eq!(lookup.attempts_for(&TrackId("a".into())), 1);
}

#[test]
fn googlevideo_chunks_take_nine_megabytes_at_a_time() {
    let (url, end) = chunk_request("https://x.googlevideo.com/videoplayback?id=1", 0, 20_000_000);
    assert_eq!(end, 8_999_999);
    assert_eq!(url, "https://x.googlevideo.com/videoplayback?id=1&range=0-8999999");
    let (url, end) = chunk_request("u", 18_000_000, 20_000_000);
    assert_eq!(end, 19_999_999);
    assert_eq!(url, "u&range=18000000-19999999");
}
