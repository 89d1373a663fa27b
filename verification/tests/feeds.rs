use ytamp::discovery::{accepts_result, should_prefetch, Feed, FeedPage, Shelf, Target};
use ytamp::effect::ApiRequest;
use ytamp::imports::{import_message, Imports};
use ytamp::listening_history::{HistoryPage, ListeningHistory};
use ytamp::model::{Track, TrackId};

fn track(id: &str) -> Track {
    Track {
        source: Default::default(),
        id: TrackId(id.to_string()),
        title: id.to_string(),
        artists: vec![],
        album: None,
        album_id: None,
        duration: None,
        thumbnail_url: None,
        playlist_item_id: None,
    }
}

fn page(continuation: Option<&str>) -> FeedPage {
    FeedPage {
        continuation: continuation.map(str::to_string),
        ..Default::default()
    }
}

#[test]
fn changed_collections_reject_late_results_and_pagination_retries() {
    let mut feed = Feed::default();
    let a = Target::Browse {
        id: "A".into(),
        params: None,
    };
    let b = Target::Browse {
        id: "B".into(),
        params: None,
    };
    feed.request(a.clone(), false);
    feed.request(b.clone(), false);
    feed.apply(1, &a, Ok(page(Some("private"))));
    assert!(feed.loading);
    assert!(feed.page.continuation.is_none());
    feed.apply(2, &b, Ok(page(Some("next"))));
    feed.request(b.clone(), true);
    feed.apply(3, &b, Err("offline".into()));
    assert_eq!(feed.page.continuation.as_deref(), Some("next"));
    assert!(feed.request(b.clone(), true).is_some());
    feed.apply(4, &b, Ok(page(Some("next"))));
    assert!(feed.page.continuation.is_none());
}

#[test]
fn an_appended_page_adds_shelves_and_only_new_tracks() {
    let mut feed = Feed::default();
    feed.request(Target::home(), false);
    feed.apply(
        1,
        &Target::home(),
        Ok(FeedPage {
            shelves: vec![Shelf { title: "one".into(), entries: vec![] }],
            tracks: vec![track("a")],
            continuation: Some("c1".into()),
        }),
    );
    let request = feed.request(Target::home(), true);
    assert!(matches!(
        request,
        Some(ApiRequest::FetchDiscovery { request_id: 2, continuation: Some(ref c), .. }) if c == "c1"
    ));
    feed.apply(
        2,
        &Target::home(),
        Ok(FeedPage {
            shelves: vec![Shelf { title: "two".into(), entries: vec![] }],
            tracks: vec![track("a"), track("b"), track("b")],
            continuation: Some("c2".into()),
        }),
    );
    assert_eq!(feed.page.shelves.len(), 2);
    let ids: Vec<&str> = feed.page.tracks.iter().map(|t| t.id.0.as_str()).collect();
    assert_eq!(ids, ["a", "b"]);
    assert_eq!(feed.page.continuation.as_deref(), Some("c2"));
}

#[test]
fn the_home_feed_prefetches_while_it_has_few_shelves() {
    let mut feed = Feed::default();
    feed.request(Target::home(), false);
    assert!(accepts_result(&feed, 1, &Target::home(), true));
    assert!(!accepts_result(&feed, 1, &Target::home(), false));
    assert!(!accepts_result(&feed, 2, &Target::home(), true));
    feed.apply(1, &Target::home(), Ok(page(Some("more"))));
    assert!(should_prefetch(&feed, &Target::home(), true));
    assert!(!should_prefetch(&feed, &Target::home(), false));
    let other = Target::Watch { video: None, playlist: Some("p".into()), params: None };
    assert!(!should_prefetch(&feed, &other, true));
}

#[test]
fn stale_results_and_repeated_cursors_are_ignored_and_failures_retry() {
    let mut history = ListeningHistory::default();
    history.request(false);
    history.apply(0, Err("late".into()));
    assert!(history.loading);
    history.apply(
        1,
        Ok(HistoryPage {
            tracks: vec![],
            continuation: Some("next".into()),
        }),
    );
    history.request(true);
    history.apply(2, Err("offline".into()));
    assert_eq!(history.continuation.as_deref(), Some("next"));
    assert!(history.request(true).is_some());
    history.apply(
        3,
        Ok(HistoryPage {
            tracks: vec![],
            continuation: Some("next".into()),
        }),
    );
    assert!(history.continuation.is_none());
}

#[test]
fn history_pages_replace_then_append() {
    let mut history = ListeningHistory::default();
    history.request(false);
    history.apply(1, Ok(HistoryPage { tracks: vec![track("a")], continuation: Some("c".into()) }));
    history.request(true);
    history.apply(2, Ok(HistoryPage { tracks: vec![track("b")], continuation: None }));
    let ids: Vec<&str> = history.tracks.iter().map(|t| t.id.0.as_str()).collect();
    assert_eq!(ids, ["a", "b"]);
    assert!(history.request(true).is_none());
}

#[test]
fn consecutive_imports_wait_their_turn_and_cancel_invalidates_them() {
    let mut imports = Imports::default();
    assert!(!imports.pending());
    let first = imports.enqueue(vec!["a.mp3".into(), "b.mp3".into()], None).expect("starts at once");
    assert_eq!(first.id, 1);
    assert_eq!(imports.total(), 2);
    assert!(imports.enqueue(vec!["c.mp3".into()], None).is_none());
    assert!(imports.enqueue(vec![], None).is_none());
    imports.progress(1, 1);
    assert_eq!(imports.done, 1);
    assert!(imports.finish(2).is_none());
    let job = imports.finish(1).expect("the running job");
    assert_eq!(job.paths.len(), 2);
    let next = imports.start_next().expect("the waiting job");
    assert_eq!(next.id, 2);
    assert_eq!(imports.total(), 1);
    let generation = imports.generation;
    imports.cancel();
    assert!(!imports.pending());
    assert_eq!(imports.generation, generation + 1);
    assert!(imports.finish(2).is_none());
}

#[test]
fn the_import_notice_counts_files_and_names_failures() {
    assert_eq!(import_message(false, 0, &[]), None);
    assert_eq!(import_message(false, 1, &[]).unwrap(), "Added 1 file.");
    assert_eq!(import_message(false, 12, &[]).unwrap(), "Added 12 files.");
    assert_eq!(import_message(true, 1, &[]).unwrap(), "File location updated.");
    assert_eq!(
        import_message(false, 0, &["x.mp3: bad".to_string(), "y.mp3: worse".to_string()]).unwrap(),
        "Added 0 files. 2 could not be read:\nx.mp3: bad\ny.mp3: worse"
    );
}
