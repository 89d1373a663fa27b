use ytamp::library::{
    apply_cached_if_loading, apply_covers, apply_list_page, apply_load_failure, begin_refresh,
    decide_next_step, ids_without_cover, is_custom_cover, is_liked, merge_covers,
    normalized_authuser, set_loadable, should_hover_prefetch, slot_holds, tracks_not_in,
    with_count_delta, without_item, NextStep,
};
use ytamp::model::{Playlist, PlaylistId, Track, TrackId};
use ytamp::queue::Queue;
use ytamp::random::RandomBelow;
use ytamp::state::Loadable;

fn track(id: &str) -> Track {
    Track {
        source: Default::default(),
        id: TrackId(id.to_string()),
        title: id.to_string(),
        artists: vec![],
        album: None,
        album_id: None,
        duration: None,
        thumbnail_url: None,
        playlist_item_id: None,
    }
}

fn playlist(id: &str, thumbnail_url: Option<&str>) -> Playlist {
    Playlist {
        id: PlaylistId(id.to_string()),
        title: id.to_string(),
        track_count: None,
        thumbnail_url: thumbnail_url.map(str::to_string),
    }
}

fn counted_playlist(id: &str, track_count: Option<usize>) -> Playlist {
    Playlist {
        id: PlaylistId(id.to_string()),
        title: id.to_string(),
        track_count,
        thumbnail_url: None,
    }
}

fn track_in_playlist(id: &str, item_id: &str) -> Track {
    Track {
        playlist_item_id: Some(item_id.to_string()),
        ..track(id)
    }
}

fn ids(tracks: &[Track]) -> Vec<&str> {
    tracks.iter().map(|t| t.id.0.as_str()).collect()
}

const CUSTOM_COVER: &str = "https://yt3.googleusercontent.com/abc=s1200";
const GENERIC_COVER: &str = "https://i.ytimg.com/vi/abc/hqdefault.jpg";

struct NoRandom;

impl RandomBelow for NoRandom {
    fn random_below(&mut self, _n: usize) -> usize {
        0
    }
}

#[test]
fn decide_next_step_loads_when_a_next_track_exists() {
    let step = decide_next_step(Some(track("b")), true, Some(&track("a")));
    assert!(matches!(step, NextStep::Load(t) if t.id.0 == "b"));
}

#[test]
fn decide_next_step_fetches_radio_at_the_end_with_autoplay_on() {
    let step = decide_next_step(None, true, Some(&track("a")));
    assert!(matches!(step, NextStep::FetchRadio(id) if id.0 == "a"));
}

#[test]
fn decide_next_step_stops_at_the_end_with_autoplay_off() {
    let step = decide_next_step(None, false, Some(&track("a")));
    assert!(matches!(step, NextStep::Stop));
}

#[test]
fn decide_next_step_stops_with_no_current_track() {
    let step = decide_next_step(None, true, None);
    assert!(matches!(step, NextStep::Stop));
}

#[test]
fn update_the_dwell_decision_is_pure() {
    let a = TrackId("a".into());
    let b = TrackId("b".into());
    let c = TrackId("c".into());
    assert!(should_hover_prefetch(None, None, &b));
    assert!(!should_hover_prefetch(Some(&a), None, &a));
    assert!(!should_hover_prefetch(None, Some(&b), &b));
    assert!(should_hover_prefetch(Some(&a), Some(&b), &c));
}

#[test]
fn tests_the_dwell_decision_is_pure() {
    let a = TrackId("a".into());
    let b = TrackId("b".into());
    let c = TrackId("c".into());
    assert!(should_hover_prefetch(None, None, &b));
    assert!(!should_hover_prefetch(Some(&a), None, &a));
    assert!(!should_hover_prefetch(None, Some(&b), &b));
    assert!(should_hover_prefetch(Some(&a), Some(&b), &c));
}

#[test]
fn an_empty_authuser_field_means_account_zero() {
    assert_eq!(normalized_authuser("  "), "0");
    assert_eq!(normalized_authuser(" 1 "), "1");
}

#[test]
fn merge_covers_keeps_a_prior_custom_cover_a_fresh_load_lacks() {
    let fresh = vec![playlist("p1", Some(GENERIC_COVER))];
    let previous = vec![playlist("p1", Some(CUSTOM_COVER))];
    let merged = merge_covers(fresh, &previous);
    assert_eq!(merged[0].thumbnail_url.as_deref(), Some(CUSTOM_COVER));
}

#[test]
fn merge_covers_leaves_a_fresh_custom_cover_alone() {
    let fresh = vec![playlist("p1", Some(CUSTOM_COVER))];
    let previous = vec![playlist("p1", Some(GENERIC_COVER))];
    let merged = merge_covers(fresh, &previous);
    assert_eq!(merged[0].thumbnail_url.as_deref(), Some(CUSTOM_COVER));
}

#[test]
fn merge_covers_leaves_a_playlist_with_no_prior_entry_alone() {
    let fresh = vec![playlist("p1", Some(GENERIC_COVER))];
    let merged = merge_covers(fresh, &[]);
    assert_eq!(merged[0].thumbnail_url.as_deref(), Some(GENERIC_COVER));
}

#[test]
fn ids_without_cover_names_only_the_generic_ones() {
    let playlists = vec![
        playlist("p1", Some(CUSTOM_COVER)),
        playlist("p2", Some(GENERIC_COVER)),
        playlist("p3", None),
    ];
    assert_eq!(
        ids_without_cover(&playlists),
        vec![PlaylistId("p2".into()), PlaylistId("p3".into())]
    );
}

#[test]
fn is_liked_reads_membership_from_a_loaded_or_refreshing_slot() {
    let id = TrackId("a".into());
    assert!(!is_liked(&Loadable::NotAsked, &id));
    assert!(!is_liked(&Loadable::Loaded(vec![track("b")]), &id));
    assert!(is_liked(&Loadable::Loaded(vec![track("a")]), &id));
    assert!(is_liked(&Loadable::Refreshing(vec![track("a")]), &id));
}

#[test]
fn with_count_delta_raises_and_lowers_a_known_count_only() {
    let playlists = vec![
        counted_playlist("p1", Some(3)),
        counted_playlist("p2", None),
    ];
    let raised = with_count_delta(playlists.clone(), &PlaylistId("p1".into()), 1);
    assert_eq!(raised[0].track_count, Some(4));
    let lowered = with_count_delta(playlists.clone(), &PlaylistId("p1".into()), -1);
    assert_eq!(lowered[0].track_count, Some(2));
    let unknown = with_count_delta(playlists, &PlaylistId("p2".into()), 1);
    assert_eq!(unknown[1].track_count, None);
}

#[test]
fn with_count_delta_never_drops_below_zero() {
    let playlists = vec![counted_playlist("p1", Some(0))];
    let result = with_count_delta(playlists, &PlaylistId("p1".into()), -1);
    assert_eq!(result[0].track_count, Some(0));
}

#[test]
fn without_item_drops_only_the_matching_row() {
    let tracks = vec![track_in_playlist("a", "i1"), track_in_playlist("b", "i2")];
    let result = without_item(tracks, "i1");
    assert_eq!(result.len(), 1);
    assert_eq!(result[0].id, TrackId("b".into()));
}

#[test]
fn a_refresh_keeps_every_prior_custom_cover() {
    let fresh = vec![
        playlist("p1", None),
        playlist("p2", Some(GENERIC_COVER)),
        playlist("p3", Some(CUSTOM_COVER)),
    ];
    let previous = vec![playlist("p1", Some(CUSTOM_COVER)), playlist("p2", None)];
    let merged = merge_covers(fresh, &previous);
    assert_eq!(merged[0].thumbnail_url.as_deref(), Some(CUSTOM_COVER));
    assert_eq!(merged[1].thumbnail_url.as_deref(), Some(GENERIC_COVER));
    assert_eq!(merged[2].thumbnail_url.as_deref(), Some(CUSTOM_COVER));
}

#[test]
fn a_custom_cover_comes_from_googleusercontent() {
    assert!(is_custom_cover(Some(CUSTOM_COVER)));
    assert!(!is_custom_cover(Some(GENERIC_COVER)));
    assert!(!is_custom_cover(None));
}

#[test]
fn apply_covers_replaces_the_listed_thumbnails() {
    let playlists = vec![playlist("p1", None), playlist("p2", Some(GENERIC_COVER))];
    let covers = vec![(PlaylistId("p2".into()), CUSTOM_COVER.to_string())];
    let covered = apply_covers(playlists, &covers);
    assert_eq!(covered[0].thumbnail_url, None);
    assert_eq!(covered[1].thumbnail_url.as_deref(), Some(CUSTOM_COVER));
}

#[test]
fn a_partial_page_list_never_reaches_the_cache() {
    let mut slot: Loadable<Vec<Track>> = Loadable::Loading;
    let mut loading_more = false;
    let mut incoming = Vec::new();
    let first = apply_list_page(&mut slot, &mut loading_more, &mut incoming, vec![track("a")], false);
    assert!(first.is_none());
    assert!(loading_more);
    assert_eq!(slot, Loadable::Loaded(vec![track("a")]));
    let full = apply_list_page(&mut slot, &mut loading_more, &mut incoming, vec![track("b")], true);
    assert_eq!(ids(&full.unwrap()), ["a", "b"]);
    assert!(!loading_more);
}

#[test]
fn pages_of_a_refresh_buffer_behind_the_cached_list() {
    let mut slot = Loadable::Loaded(vec![track("old")]);
    let mut loading_more = true;
    let mut incoming = vec![track("stale")];
    begin_refresh(&mut slot, &mut loading_more, &mut incoming);
    assert_eq!(slot, Loadable::Refreshing(vec![track("old")]));
    assert!(incoming.is_empty());
    assert!(apply_list_page(&mut slot, &mut loading_more, &mut incoming, vec![track("a")], false).is_none());
    assert_eq!(slot, Loadable::Refreshing(vec![track("old")]));
    let full = apply_list_page(&mut slot, &mut loading_more, &mut incoming, vec![track("b")], true);
    assert_eq!(ids(&full.unwrap()), ["a", "b"]);
    assert_eq!(slot, Loadable::Loaded(vec![track("a"), track("b")]));
}

#[test]
fn a_failure_keeps_shown_data_and_becomes_a_notice() {
    let mut slot = Loadable::Refreshing(vec![track("a")]);
    let mut notices = Vec::new();
    apply_load_failure(&mut slot, "offline".to_string(), &mut notices);
    assert_eq!(slot, Loadable::Loaded(vec![track("a")]));
    assert_eq!(notices, vec!["offline".to_string()]);
    let mut empty: Loadable<Vec<Track>> = Loadable::Loading;
    apply_load_failure(&mut empty, "offline".to_string(), &mut notices);
    assert_eq!(empty, Loadable::Failed("offline".to_string()));
    assert_eq!(notices.len(), 1);
}

#[test]
fn a_late_cache_hit_never_overwrites_a_network_result() {
    let mut slot = Loadable::Loaded(vec![track("fresh")]);
    apply_cached_if_loading(&mut slot, Some(vec![track("cached")]));
    assert_eq!(slot, Loadable::Loaded(vec![track("fresh")]));
    let mut waiting: Loadable<Vec<Track>> = Loadable::Loading;
    apply_cached_if_loading(&mut waiting, Some(vec![track("cached")]));
    assert_eq!(waiting, Loadable::Refreshing(vec![track("cached")]));
}

#[test]
fn set_loadable_shows_the_value_or_the_failure() {
    let mut slot: Loadable<u32> = Loadable::Loading;
    set_loadable(&mut slot, Ok(3));
    assert_eq!(slot, Loadable::Loaded(3));
    set_loadable(&mut slot, Err("gone".to_string()));
    assert_eq!(slot, Loadable::Failed("gone".to_string()));
}

#[test]
fn slot_holds_reads_only_a_shown_value() {
    assert!(slot_holds(&Loadable::Refreshing(4u32), |v: &u32| *v == 4));
    assert!(!slot_holds(&Loadable::Loading, |v: &u32| *v == 4));
}

#[test]
fn radio_tracks_already_queued_are_dropped() {
    let mut queue = Queue::default();
    queue.play_context(vec![track("a"), track("b")], 0, &mut NoRandom);
    let fresh = tracks_not_in(&queue, vec![track("b"), track("c"), track("a"), track("d")]);
    assert_eq!(ids(&fresh), ["c", "d"]);
}
