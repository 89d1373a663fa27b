use ytamp::model::{MediaSource, Track, TrackId};
use ytamp::queue::{Queue, RepeatMode};
use ytamp::random::{FastRand, RandomBelow};

fn track(id: &str) -> Track {
    Track {
        source: Default::default(),
        id: TrackId(id.to_string()),
        title: id.to_string(),
        artists: vec![],
        album: None,
        album_id: None,
        duration: None,
        thumbnail_url: None,
        playlist_item_id: None,
    }
}

fn local_track(path: &str) -> Track {
    Track {
        source: MediaSource::LocalFile { path: path.into() },
        id: TrackId(path.into()),
        title: path.into(),
        artists: vec![],
        album: None,
        album_id: None,
        duration: None,
        thumbnail_url: None,
        playlist_item_id: None,
    }
}

fn tracks(ids: &[&str]) -> Vec<Track> {
    ids.iter().map(|id| track(id)).collect()
}

/// Always the first index: a shuffle that keeps the order it finds.
struct NoRandom;

impl RandomBelow for NoRandom {
    fn random_below(&mut self, _n: usize) -> usize {
        0
    }
}

/// The middle index of every range.
struct Halves;

impl RandomBelow for Halves {
    fn random_below(&mut self, n: usize) -> usize {
        n / 2
    }
}

fn current_id(queue: &Queue) -> &str {
    &queue.current().expect("a current track").id.0
}

fn upcoming_ids(queue: &Queue) -> Vec<String> {
    queue.upcoming().iter().map(|t| t.id.0.clone()).collect()
}

#[test]
fn retain_local_remaps_manual_user_indices() {
    let mut queue = Queue::default();
    queue.play_context(vec![local_track("current")], 0, &mut NoRandom);
    queue.queue_track(track("remote"));
    queue.queue_track(local_track("queued"));
    queue.move_upcoming(&[1], 2);
    queue.retain_local();
    assert_eq!(upcoming_ids(&queue), ["queued"]);
    assert_eq!(queue.next().unwrap().id, TrackId("queued".into()));
}

#[test]
fn retain_local_exposes_context_after_removed_current() {
    let mut queue = Queue::default();
    queue.play_context(
        vec![track("remote"), local_track("upcoming")],
        0,
        &mut NoRandom,
    );
    queue.retain_local();
    assert_eq!(upcoming_ids(&queue), ["upcoming"]);
    assert_eq!(queue.next().unwrap().id, TrackId("upcoming".into()));
}

#[test]
fn retain_local_does_not_replay_context_before_removed_current() {
    let mut queue = Queue::default();
    queue.play_context(
        vec![local_track("before"), track("remote"), local_track("after")],
        1,
        &mut NoRandom,
    );
    queue.retain_local();
    assert_eq!(upcoming_ids(&queue), ["after"]);
    assert_eq!(queue.next().unwrap().id, TrackId("after".into()));
}

#[test]
fn repeat_off_does_not_restart_after_exhaustion() {
    let mut queue = Queue::default();
    queue.play_context(vec![track("only")], 0, &mut NoRandom);
    assert_eq!(queue.next(), None);
}

#[test]
fn previous_preserves_pending_manual_edits() {
    let mut queue = Queue::default();
    queue.play_context(tracks(&["a", "b", "c", "d"]), 0, &mut NoRandom);
    queue.move_upcoming(&[2], 0);
    queue.previous();
    assert_eq!(upcoming_ids(&queue), ["d", "b", "c"]);
    queue.next();
    queue.previous();
    assert_eq!(upcoming_ids(&queue), ["d", "b", "c"]);
}

#[test]
fn manual_order_preserves_sources_duplicates_and_repeat() {
    let mut queue = Queue::default();
    queue.play_context(tracks(&["a", "b", "b", "c"]), 0, &mut NoRandom);
    queue.queue_track(track("u"));
    queue.queue_track(track("v"));
    queue.move_upcoming(&[2, 4], 0); // b,c,u,v,b
    assert_eq!(upcoming_ids(&queue), ["b", "c", "u", "v", "b"]);
    assert_eq!(current_id(&queue), "a");
    assert_eq!(queue.peek_next().unwrap().id.0, "b");
    for id in ["b", "c", "u", "v", "b"] {
        assert_eq!(queue.next().unwrap().id.0, id);
    }
    assert!(queue.next().is_none());
    queue.repeat = RepeatMode::All;
    for id in ["a", "b", "c", "b", "a"] {
        assert_eq!(queue.next().unwrap().id.0, id);
    }
}

#[test]
fn edits_after_reordering_keep_indices_and_current_intact() {
    let mut queue = Queue::default();
    queue.play_context(tracks(&["a", "b", "c", "d"]), 0, &mut NoRandom);
    queue.queue_track(track("u"));
    queue.move_upcoming(&[3], 0); // d,u,b,c
    queue.remove_upcoming(2); // b
    queue.queue_track(track("v")); // d,u,v,c
    queue.extend_context(tracks(&["e"]));
    assert_eq!(upcoming_ids(&queue), ["d", "u", "v", "c", "e"]);
    queue.clear_user_queue();
    assert_eq!(upcoming_ids(&queue), ["d", "c", "e"]);
    let before = queue.clone();
    assert!(queue.jump_to(usize::MAX).is_none());
    assert_eq!(queue, before);
    assert_eq!(queue.jump_to(1).unwrap().id.0, "c");
    assert_eq!(queue.next().unwrap().id.0, "e");
}

#[test]
fn invalid_jump_keeps_explicit_queue() {
    let mut queue = Queue::default();
    queue.play_context(tracks(&["a", "b"]), 0, &mut NoRandom);
    queue.queue_track(track("u"));
    let before = queue.clone();
    assert!(queue.jump_to(999).is_none());
    assert_eq!(queue, before);
}

#[test]
fn removing_upcoming_entries_preserves_current_and_repeat_order() {
    let mut queue = Queue::default();
    queue.play_context(tracks(&["a", "b", "c", "d"]), 0, &mut NoRandom);
    queue.queue_track(track("u"));
    queue.remove_upcoming(2); // c, after user-queued u and context b.
    assert_eq!(current_id(&queue), "a");
    assert!(!queue.contains(&TrackId("c".into())));
    queue.remove_upcoming(0); // u
    queue.remove_upcoming(usize::MAX); // no effect
    queue.repeat = RepeatMode::All;
    assert_eq!(queue.next().unwrap().id.0, "b");
    assert_eq!(queue.next().unwrap().id.0, "d");
    assert_eq!(queue.next().unwrap().id.0, "a");
}

#[test]
fn play_context_starts_at_the_given_track() {
    let mut queue = Queue::default();
    let started = queue.play_context(tracks(&["a", "b", "c"]), 1, &mut NoRandom);
    assert_eq!(started.unwrap().id.0, "b");
    assert_eq!(current_id(&queue), "b");
}

#[test]
fn play_context_rejects_an_out_of_range_start() {
    let mut queue = Queue::default();
    assert_eq!(queue.play_context(tracks(&["a"]), 5, &mut NoRandom), None);
    assert_eq!(queue.current(), None);
}

#[test]
fn next_walks_the_context_and_stops_at_the_end() {
    let mut queue = Queue::default();
    queue.play_context(tracks(&["a", "b"]), 0, &mut NoRandom);
    assert_eq!(queue.next().unwrap().id.0, "b");
    assert_eq!(queue.next(), None);
    assert_eq!(current_id(&queue), "b");
}

#[test]
fn next_plays_the_user_queue_before_the_context() {
    let mut queue = Queue::default();
    queue.play_context(tracks(&["a", "b"]), 0, &mut NoRandom);
    queue.queue_track(track("q"));
    assert_eq!(queue.next().unwrap().id.0, "q");
    assert_eq!(queue.next().unwrap().id.0, "b");
}

#[test]
fn repeat_all_wraps_at_the_end() {
    let mut queue = Queue::default();
    queue.play_context(tracks(&["a", "b"]), 1, &mut NoRandom);
    queue.repeat = RepeatMode::All;
    assert_eq!(queue.next().unwrap().id.0, "a");
}

#[test]
fn repeat_one_replays_on_track_end_but_not_on_next() {
    let mut queue = Queue::default();
    queue.play_context(tracks(&["a", "b"]), 0, &mut NoRandom);
    queue.repeat = RepeatMode::One;
    assert_eq!(queue.on_track_end().unwrap().id.0, "a");
    assert_eq!(queue.next().unwrap().id.0, "b");
}

#[test]
fn previous_steps_back_and_stays_at_the_start() {
    let mut queue = Queue::default();
    queue.play_context(tracks(&["a", "b"]), 1, &mut NoRandom);
    assert_eq!(queue.previous().unwrap().id.0, "a");
    assert_eq!(queue.previous().unwrap().id.0, "a");
}

#[test]
fn previous_returns_to_the_context_after_a_user_queue_track() {
    let mut queue = Queue::default();
    queue.play_context(tracks(&["a", "b"]), 0, &mut NoRandom);
    queue.queue_track(track("q"));
    queue.next();
    assert_eq!(current_id(&queue), "q");
    assert_eq!(queue.previous().unwrap().id.0, "a");
}

#[test]
fn shuffle_keeps_the_current_track_first() {
    let mut queue = Queue::default();
    queue.play_context(tracks(&["a", "b", "c", "d"]), 2, &mut NoRandom);
    queue.set_shuffle(true, &mut Halves);
    assert_eq!(current_id(&queue), "c");
    let upcoming = upcoming_ids(&queue);
    assert_eq!(upcoming.len(), 3);
    assert!(!upcoming.contains(&"c".to_string()));
}

#[test]
fn upcoming_lists_the_user_queue_then_the_context() {
    let mut queue = Queue::default();
    queue.play_context(tracks(&["a", "b", "c"]), 0, &mut NoRandom);
    queue.queue_track(track("q"));
    assert_eq!(upcoming_ids(&queue), vec!["q", "b", "c"]);
}

#[test]
fn on_track_end_stops_in_repeat_off_at_the_context_end() {
    let mut queue = Queue::default();
    queue.play_context(tracks(&["a"]), 0, &mut NoRandom);
    assert_eq!(queue.on_track_end(), None);
}

#[test]
fn peek_next_reads_the_context_without_advancing() {
    let mut queue = Queue::default();
    queue.play_context(tracks(&["a", "b"]), 0, &mut NoRandom);
    assert_eq!(queue.peek_next().unwrap().id.0, "b");
    assert_eq!(current_id(&queue), "a");
}

#[test]
fn peek_next_prefers_the_user_queue() {
    let mut queue = Queue::default();
    queue.play_context(tracks(&["a", "b"]), 0, &mut NoRandom);
    queue.queue_track(track("q"));
    assert_eq!(queue.peek_next().unwrap().id.0, "q");
}

#[test]
fn peek_next_in_repeat_one_is_the_current_track() {
    let mut queue = Queue::default();
    queue.play_context(tracks(&["a", "b"]), 0, &mut NoRandom);
    queue.repeat = RepeatMode::One;
    assert_eq!(queue.peek_next().unwrap().id.0, "a");
}

#[test]
fn peek_next_is_none_at_the_context_end_in_repeat_off() {
    let mut queue = Queue::default();
    queue.play_context(tracks(&["a"]), 0, &mut NoRandom);
    assert_eq!(queue.peek_next(), None);
}

#[test]
fn extend_context_appends_tracks_after_the_context_end() {
    let mut queue = Queue::default();
    queue.play_context(tracks(&["a", "b"]), 0, &mut NoRandom);
    queue.next();
    queue.extend_context(tracks(&["c", "d"]));
    assert_eq!(upcoming_ids(&queue), vec!["c", "d"]);
}

#[test]
fn extend_context_lets_next_reach_the_new_tracks() {
    let mut queue = Queue::default();
    queue.play_context(tracks(&["a"]), 0, &mut NoRandom);
    assert_eq!(queue.next(), None);
    queue.extend_context(tracks(&["b"]));
    assert_eq!(queue.next().unwrap().id.0, "b");
}

#[test]
fn contains_finds_a_track_already_in_the_context() {
    let mut queue = Queue::default();
    queue.play_context(tracks(&["a", "b"]), 0, &mut NoRandom);
    assert!(queue.contains(&TrackId("b".into())));
    assert!(!queue.contains(&TrackId("z".into())));
}

#[test]
fn jump_to_reaches_a_queued_track_and_drops_the_ones_before_it() {
    let mut queue = Queue::default();
    queue.play_context(tracks(&["a", "b"]), 0, &mut NoRandom);
    queue.queue_track(track("q1"));
    queue.queue_track(track("q2"));
    assert_eq!(queue.jump_to(1).unwrap().id.0, "q2");
    // q1 was skipped, not kept for a later `next`.
    assert_eq!(queue.next().unwrap().id.0, "b");
}

#[test]
fn jump_to_reaches_a_context_track_and_clears_the_user_queue() {
    let mut queue = Queue::default();
    queue.play_context(tracks(&["a", "b", "c"]), 0, &mut NoRandom);
    queue.queue_track(track("q"));
    assert_eq!(queue.jump_to(2).unwrap().id.0, "c");
    assert_eq!(current_id(&queue), "c");
    assert_eq!(queue.upcoming().len(), 0);
}

#[test]
fn jump_to_rejects_an_index_past_the_end() {
    let mut queue = Queue::default();
    queue.play_context(tracks(&["a", "b"]), 0, &mut NoRandom);
    assert_eq!(queue.jump_to(5), None);
    assert_eq!(current_id(&queue), "a");
}

#[test]
fn clear_user_queue_drops_only_the_queued_tracks() {
    let mut queue = Queue::default();
    queue.play_context(tracks(&["a", "b"]), 0, &mut NoRandom);
    queue.queue_track(track("q"));
    queue.clear_user_queue();
    assert_eq!(upcoming_ids(&queue), vec!["b"]);
}

#[test]
fn remove_local_drops_the_track_everywhere() {
    let mut queue = Queue::default();
    queue.play_context(
        vec![local_track("one"), local_track("two")],
        1,
        &mut NoRandom,
    );
    assert!(queue.remove_local(&TrackId("two".into())));
    assert_eq!(queue.current(), None);
    assert!(!queue.remove_local(&TrackId("two".into())));
}

#[test]
fn repeat_mode_cycles_off_all_one() {
    assert_eq!(RepeatMode::Off.cycled(), RepeatMode::All);
    assert_eq!(RepeatMode::All.cycled(), RepeatMode::One);
    assert_eq!(RepeatMode::One.cycled(), RepeatMode::Off);
}

#[test]
fn the_fastrand_source_stays_below_its_bound() {
    let mut source = FastRand::new();
    for bound in 1..50usize {
        assert!(source.random_below(bound) < bound);
    }
}

#[test]
fn peek_next_sees_the_context_after_a_removed_current_track() {
    let mut queue = Queue::default();
    queue.play_context(vec![track("remote"), local_track("upcoming")], 0, &mut NoRandom);
    queue.retain_local();
    assert_eq!(queue.peek_next().unwrap().id, TrackId("upcoming".into()));
    assert_eq!(queue.on_track_end().unwrap().id, TrackId("upcoming".into()));
}

#[test]
fn edits_index_the_visible_list_after_a_removed_current_track() {
    let mut queue = Queue::default();
    queue.play_context(
        vec![track("remote"), local_track("a"), local_track("b")],
        0,
        &mut NoRandom,
    );
    queue.retain_local();
    assert_eq!(upcoming_ids(&queue), ["a", "b"]);
    queue.move_upcoming(&[1], 0);
    assert_eq!(upcoming_ids(&queue), ["b", "a"]);
    queue.remove_upcoming(0);
    assert_eq!(upcoming_ids(&queue), ["a"]);
    assert_eq!(queue.next().unwrap().id, TrackId("a".into()));
}

#[test]
fn an_empty_queue_skips_to_nothing() {
    let mut queue = Queue::default();
    assert_eq!(queue.next(), None);
    assert_eq!(queue.on_track_end(), None);
    assert_eq!(queue.peek_next(), None);
    queue.play_context(vec![track("r")], 0, &mut NoRandom);
    queue.retain_local();
    assert_eq!(queue.next(), None);
    assert!(queue.current().is_none());
}
