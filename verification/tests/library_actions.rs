use ytamp::app_state::{LyricsState, PlaybackState, State};
use ytamp::discovery::Discovery;
use ytamp::durations::Lookup;
use ytamp::auth_flow::AuthAction;
use ytamp::effect::{ApiRequest, Effect, LibraryCacheWrite};
use ytamp::imports::Imports;
use ytamp::listening_history::ListeningHistory;
use ytamp::model::{Album, AlbumId, AlbumPage, ArtistId, ArtistPage, ArtistRef, MediaSource, Playlist, PlaylistId, Span, Track, TrackId};
use ytamp::reply::LibraryWrite;
use ytamp::queue::Queue;
use ytamp::random::RandomBelow;
use ytamp::reducer::{update, Action};
use ytamp::state::{
    AuthState, BrowseState, Dialog, LibraryState, Loadable, Page, PlayStatus, SearchState, SignInState,
    WinampSettings,
};

struct Zero;

impl RandomBelow for Zero {
    fn random_below(&mut self, _n: usize) -> usize {
        0
    }
}

fn track(id: &str) -> Track {
    Track {
        source: MediaSource::YouTube,
        id: TrackId(id.to_string()),
        title: id.to_string(),
        artists: vec![],
        album: None,
        album_id: None,
        duration: None,
        thumbnail_url: None,
        playlist_item_id: None,
    }
}

/// A state as the application starts: nothing playing, autoplay on.
fn fresh() -> State {
    State {
        local_mode: false,
        imports: Imports::default(),
        discovery: Discovery::default(),
        listening_history: ListeningHistory::default(),
        skin_browser_open: false,
        lyrics: LyricsState { open: false, track: None, request_id: 0, content: Loadable::NotAsked },
        session_generation: 0,
        playback_generation: 0,
        playlist_request_id: 0,
        auth: AuthState::default(),
        sign_in: SignInState::default(),
        page: Page::default(),
        search: SearchState { request_id: 0, input: String::new(), results: Loadable::NotAsked },
        library: LibraryState {
            playlists: Loadable::NotAsked,
            liked: Loadable::NotAsked,
            liked_loading_more: false,
            incoming_liked: vec![],
            open_playlist: Loadable::NotAsked,
            open_playlist_loading_more: false,
            incoming_playlist: vec![],
        },
        browse: BrowseState { artist: Loadable::NotAsked, album: Loadable::NotAsked, artist_fallback: None },
        playback: PlaybackState {
            error: None,
            loading: false,
            queue: Queue::default(),
            status: PlayStatus::Stopped,
            position: Span { secs: 0, nanos: 0 },
            track_duration: None,
            duration_lookup: Lookup::new(0),
            resume_position: None,
            last_hover_prefetch: None,
            autoplay: true,
            radio_request: None,
            failed_local: vec![],
            channels: 0,
            sample_rate: 0,
        },
        queue_open: false,
        winamp: WinampSettings::default(),
        history: vec![],
        notices: vec![],
        dialog: None,
        pending_playlist_tracks: vec![],
    }
}

fn on_page(page: Page) -> State {
    State { page, ..fresh() }
}

fn send(state: &mut State, action: Action) -> Vec<Effect> {
    update(state, action, &mut Zero)
}


fn signed_in() -> State {
    let mut state = fresh();
    send(&mut state, Action::Auth(AuthAction::AuthVerified(Ok(()))));
    state
}

fn counted_playlist(id: &str, track_count: Option<usize>) -> Playlist {
    Playlist { id: PlaylistId(id.to_string()), title: id.to_string(), track_count, thumbnail_url: None }
}

fn playlist(id: &str, thumbnail_url: Option<&str>) -> Playlist {
    Playlist {
        id: PlaylistId(id.to_string()),
        title: id.to_string(),
        track_count: None,
        thumbnail_url: thumbnail_url.map(str::to_string),
    }
}

const CUSTOM_COVER: &str = "https://yt3.googleusercontent.com/abc=s1200";
const GENERIC_COVER: &str = "https://i.ytimg.com/vi/abc/hqdefault.jpg";

fn track_in_playlist(id: &str, item_id: &str) -> Track {
    Track { playlist_item_id: Some(item_id.to_string()), ..track(id) }
}

#[test]
fn update_cache_data_fills_a_loading_slot() {
    let mut state = signed_in();
    let playlist = Playlist {
        id: PlaylistId("p1".into()),
        title: "Chill".into(),
        track_count: Some(3),
        thumbnail_url: None,
    };
    send(&mut state, Action::LibraryCacheLoaded { playlists: Some(vec![playlist.clone()]), liked: Some(vec![track("a")]) });
    assert_eq!(state.library.playlists, Loadable::Refreshing(vec![playlist]));
    assert_eq!(state.library.liked, Loadable::Refreshing(vec![track("a")]));
}

#[test]
fn tests_cache_data_fills_a_loading_slot() {
    let mut state = signed_in();
    let playlist = Playlist {
        id: PlaylistId("p1".into()),
        title: "Chill".into(),
        track_count: Some(3),
        thumbnail_url: None,
    };
    send(&mut state, Action::LibraryCacheLoaded { playlists: Some(vec![playlist.clone()]), liked: Some(vec![track("a")]) });
    assert_eq!(state.library.playlists, Loadable::Refreshing(vec![playlist]));
    assert_eq!(state.library.liked, Loadable::Refreshing(vec![track("a")]));
}

#[test]
fn update_fresh_network_data_is_never_overwritten_by_a_late_cache_hit() {
    let mut state = signed_in();
    send(&mut state, Action::LikedLoaded(Ok(vec![track("fresh")])));
    send(&mut state, Action::LibraryCacheLoaded { playlists: None, liked: Some(vec![track("stale")]) });
    assert_eq!(state.library.liked, Loadable::Loaded(vec![track("fresh")]));
}

#[test]
fn tests_fresh_network_data_is_never_overwritten_by_a_late_cache_hit() {
    let mut state = signed_in();
    send(&mut state, Action::LikedLoaded(Ok(vec![track("fresh")])));
    send(&mut state, Action::LibraryCacheLoaded { playlists: None, liked: Some(vec![track("stale")]) });
    assert_eq!(state.library.liked, Loadable::Loaded(vec![track("fresh")]));
}

#[test]
fn update_fresh_liked_songs_are_saved_to_the_cache() {
    let mut state = signed_in();
    let effects = send(&mut state, Action::LikedLoaded(Ok(vec![track("a")])));
    assert_eq!(effects, vec![Effect::SaveLibraryCache(LibraryCacheWrite::Liked(vec![track("a")]))]);
}

#[test]
fn tests_fresh_liked_songs_are_saved_to_the_cache() {
    let mut state = signed_in();
    let effects = send(&mut state, Action::LikedLoaded(Ok(vec![track("a")])));
    assert_eq!(effects, vec![Effect::SaveLibraryCache(LibraryCacheWrite::Liked(vec![track("a")]))]);
}

#[test]
fn update_a_playlist_cache_hit_fills_the_loading_page() {
    let mut state = fresh();
    send(&mut state, Action::PlaylistOpened(PlaylistId("p1".into())));
    send(&mut state, Action::PlaylistTracksCacheLoaded(PlaylistId("p1".into()), vec![track("a")]));
    assert_eq!(state.library.open_playlist, Loadable::Refreshing(vec![track("a")]));
}

#[test]
fn tests_a_playlist_cache_hit_fills_the_loading_page() {
    let mut state = fresh();
    send(&mut state, Action::PlaylistOpened(PlaylistId("p1".into())));
    send(&mut state, Action::PlaylistTracksCacheLoaded(PlaylistId("p1".into()), vec![track("a")]));
    assert_eq!(state.library.open_playlist, Loadable::Refreshing(vec![track("a")]));
}

#[test]
fn update_a_stale_playlist_cache_hit_is_ignored_after_leaving_the_page() {
    let mut state = fresh();
    send(&mut state, Action::PlaylistOpened(PlaylistId("p1".into())));
    send(&mut state, Action::NavigatedTo(Page::Search));
    send(&mut state, Action::PlaylistTracksCacheLoaded(PlaylistId("p1".into()), vec![track("a")]));
    assert_eq!(state.library.open_playlist, Loadable::Loading);
}

#[test]
fn tests_a_stale_playlist_cache_hit_is_ignored_after_leaving_the_page() {
    let mut state = fresh();
    send(&mut state, Action::PlaylistOpened(PlaylistId("p1".into())));
    send(&mut state, Action::NavigatedTo(Page::Search));
    send(&mut state, Action::PlaylistTracksCacheLoaded(PlaylistId("p1".into()), vec![track("a")]));
    assert_eq!(state.library.open_playlist, Loadable::Loading);
}

#[test]
fn update_a_failed_album_load_sets_failed() {
    let mut state = on_page(Page::Search);
    send(&mut state, Action::AlbumOpened(AlbumId("al1".into())));
    send(&mut state, Action::AlbumLoaded(AlbumId("al1".into()), Err("no album".into())));
    assert!(matches!(&state.browse.album, Loadable::Failed(m) if m == "no album"));
}

#[test]
fn tests_a_failed_album_load_sets_failed() {
    let mut state = on_page(Page::Search);
    send(&mut state, Action::AlbumOpened(AlbumId("al1".into())));
    send(&mut state, Action::AlbumLoaded(AlbumId("al1".into()), Err("no album".into())));
    assert!(matches!(&state.browse.album, Loadable::Failed(m) if m == "no album"));
}

#[test]
fn update_a_failed_refresh_keeps_the_cached_library_and_posts_a_notice() {
    let mut state = signed_in();
    send(&mut state, Action::LibraryCacheLoaded { playlists: None, liked: Some(vec![track("cached")]) });
    let effects = send(&mut state, Action::LikedLoaded(Err("offline".into())));
    assert_eq!(state.library.liked, Loadable::Loaded(vec![track("cached")]));
    assert_eq!(state.notices, vec!["offline".to_string()]);
    assert!(effects.is_empty());
}

#[test]
fn tests_a_failed_refresh_keeps_the_cached_library_and_posts_a_notice() {
    let mut state = signed_in();
    send(&mut state, Action::LibraryCacheLoaded { playlists: None, liked: Some(vec![track("cached")]) });
    let effects = send(&mut state, Action::LikedLoaded(Err("offline".into())));
    assert_eq!(state.library.liked, Loadable::Loaded(vec![track("cached")]));
    assert_eq!(state.notices, vec!["offline".to_string()]);
    assert!(effects.is_empty());
}

#[test]
fn update_a_failed_load_without_cached_data_shows_the_failure() {
    let mut state = signed_in();
    send(&mut state, Action::LikedLoaded(Err("offline".into())));
    assert_eq!(state.library.liked, Loadable::Failed("offline".into()));
    assert_eq!(state.notices, Vec::<String>::new());
}

#[test]
fn tests_a_failed_load_without_cached_data_shows_the_failure() {
    let mut state = signed_in();
    send(&mut state, Action::LikedLoaded(Err("offline".into())));
    assert_eq!(state.library.liked, Loadable::Failed("offline".into()));
    assert_eq!(state.notices, Vec::<String>::new());
}

#[test]
fn update_a_finished_liked_stream_writes_the_full_list_to_the_cache() {
    let mut state = signed_in();
    send(&mut state, Action::LikedPageLoaded { tracks: vec![track("a")], finished: false });
    let effects = send(&mut state, Action::LikedPageLoaded { tracks: vec![track("b")], finished: true });
    assert_eq!(effects, vec![Effect::SaveLibraryCache(LibraryCacheWrite::Liked(vec![track("a"), track("b")]))]);
}

#[test]
fn tests_a_finished_liked_stream_writes_the_full_list_to_the_cache() {
    let mut state = signed_in();
    send(&mut state, Action::LikedPageLoaded { tracks: vec![track("a")], finished: false });
    let effects = send(&mut state, Action::LikedPageLoaded { tracks: vec![track("b")], finished: true });
    assert_eq!(effects, vec![Effect::SaveLibraryCache(LibraryCacheWrite::Liked(vec![track("a"), track("b")]))]);
}

#[test]
fn update_a_partial_liked_page_never_writes_the_cache() {
    let mut state = signed_in();
    let effects = send(&mut state, Action::LikedPageLoaded { tracks: vec![track("a")], finished: false });
    assert_eq!(effects, vec![]);
    assert_eq!(state.library.liked, Loadable::Loaded(vec![track("a")]));
    assert!(state.library.liked_loading_more);
}

#[test]
fn tests_a_partial_liked_page_never_writes_the_cache() {
    let mut state = signed_in();
    let effects = send(&mut state, Action::LikedPageLoaded { tracks: vec![track("a")], finished: false });
    assert_eq!(effects, vec![]);
}

#[test]
fn update_a_stale_playlist_page_is_ignored_after_leaving_the_playlist() {
    let mut state = fresh();
    send(&mut state, Action::PlaylistOpened(PlaylistId("p1".into())));
    send(&mut state, Action::NavigatedTo(Page::Search));
    let effects = send(
        &mut state,
        Action::PlaylistTracksPageLoaded { id: PlaylistId("p1".into()), tracks: vec![track("a")], finished: true },
    );
    assert_eq!(effects, vec![]);
    assert_eq!(state.library.open_playlist, Loadable::Loading);
}

#[test]
fn tests_a_stale_playlist_page_is_ignored_after_leaving_the_playlist() {
    let mut state = fresh();
    send(&mut state, Action::PlaylistOpened(PlaylistId("p1".into())));
    send(&mut state, Action::NavigatedTo(Page::Search));
    let effects = send(
        &mut state,
        Action::PlaylistTracksPageLoaded { id: PlaylistId("p1".into()), tracks: vec![track("a")], finished: true },
    );
    assert_eq!(effects, vec![]);
    assert_eq!(state.library.open_playlist, Loadable::Loading);
}

#[test]
fn a_fresh_playlists_load_asks_for_covers_it_still_lacks() {
    let mut state = fresh();
    let effects = send(
        &mut state,
        Action::PlaylistsLoaded(Ok(vec![playlist("p1", Some(CUSTOM_COVER)), playlist("p2", Some(GENERIC_COVER))])),
    );
    assert_eq!(
        effects,
        vec![
            Effect::SaveLibraryCache(LibraryCacheWrite::Playlists(vec![
                playlist("p1", Some(CUSTOM_COVER)),
                playlist("p2", Some(GENERIC_COVER)),
            ])),
            Effect::Api(ApiRequest::FetchPlaylistCovers(vec![PlaylistId("p2".into())])),
        ]
    );
}

#[test]
fn a_refresh_keeps_a_custom_cover_the_fresh_load_no_longer_carries() {
    let mut state = fresh();
    send(&mut state, Action::PlaylistsLoaded(Ok(vec![playlist("p1", Some(CUSTOM_COVER))])));
    send(&mut state, Action::PlaylistsLoaded(Ok(vec![playlist("p1", Some(GENERIC_COVER))])));
    let Loadable::Loaded(playlists) = &state.library.playlists else {
        panic!("expected the playlists slot to be loaded");
    };
    assert_eq!(playlists[0].thumbnail_url.as_deref(), Some(CUSTOM_COVER));
}

#[test]
fn a_covers_result_updates_the_slot_and_saves_the_cache() {
    let mut state = fresh();
    send(&mut state, Action::PlaylistsLoaded(Ok(vec![playlist("p1", Some(GENERIC_COVER))])));
    let effects = send(&mut state, Action::PlaylistCoversLoaded(vec![(PlaylistId("p1".into()), CUSTOM_COVER.into())]));
    let Loadable::Loaded(playlists) = &state.library.playlists else {
        panic!("expected the playlists slot to be loaded");
    };
    assert_eq!(playlists[0].thumbnail_url.as_deref(), Some(CUSTOM_COVER));
    assert_eq!(
        effects,
        vec![Effect::SaveLibraryCache(LibraryCacheWrite::Playlists(vec![playlist("p1", Some(CUSTOM_COVER))]))]
    );
}

#[test]
fn an_empty_covers_result_changes_nothing() {
    let mut state = fresh();
    send(&mut state, Action::PlaylistsLoaded(Ok(vec![playlist("p1", Some(GENERIC_COVER))])));
    let effects = send(&mut state, Action::PlaylistCoversLoaded(vec![]));
    assert_eq!(effects, vec![]);
}

#[test]
fn a_failed_like_refetches_without_doubling_the_liked_list() {
    let mut state = fresh();
    state.library.liked = Loadable::Loaded(vec![track("a"), track("b")]);
    let effects = send(&mut state, Action::LibraryWriteFinished { what: LibraryWrite::Liked, result: Err("quota".into()) });
    assert_eq!(effects, vec![Effect::Api(ApiRequest::FetchLiked)]);
    send(&mut state, Action::LikedPageLoaded { tracks: vec![track("b")], finished: true });
    assert_eq!(state.library.liked, Loadable::Loaded(vec![track("b")]));
    assert_eq!(state.notices.len(), 1);
}

#[test]
fn liking_an_unliked_track_inserts_it_and_rates_it() {
    let mut state = fresh();
    state.library.liked = Loadable::Loaded(vec![track("existing")]);
    let effects = send(&mut state, Action::TrackLikeToggled(track("new")));
    let Loadable::Loaded(liked) = &state.library.liked else {
        panic!("expected the liked slot to stay loaded");
    };
    assert_eq!(liked[0].id, TrackId("new".into()));
    assert_eq!(effects, vec![Effect::Api(ApiRequest::RateTrack { id: TrackId("new".into()), liked: true })]);
}

#[test]
fn unliking_a_liked_track_removes_it_and_rates_it() {
    let mut state = fresh();
    state.library.liked = Loadable::Loaded(vec![track("a"), track("b")]);
    let effects = send(&mut state, Action::TrackLikeToggled(track("a")));
    let Loadable::Loaded(liked) = &state.library.liked else {
        panic!("expected the liked slot to stay loaded");
    };
    assert_eq!(liked.len(), 1);
    assert_eq!(liked[0].id, TrackId("b".into()));
    assert_eq!(effects, vec![Effect::Api(ApiRequest::RateTrack { id: TrackId("a".into()), liked: false })]);
}

#[test]
fn adding_a_track_raises_the_count_and_requests_the_write() {
    let mut state = fresh();
    state.library.playlists = Loadable::Loaded(vec![counted_playlist("p1", Some(2))]);
    let effects = send(&mut state, Action::TrackAddedToPlaylist { playlist: PlaylistId("p1".into()), track: track("a") });
    let Loadable::Loaded(playlists) = &state.library.playlists else {
        panic!("expected the playlists slot to stay loaded");
    };
    assert_eq!(playlists[0].track_count, Some(3));
    assert_eq!(
        effects,
        vec![Effect::Api(ApiRequest::AddToPlaylist { playlist: PlaylistId("p1".into()), track: track("a") })]
    );
}

#[test]
fn a_confirmed_add_appends_the_row_to_the_open_playlist() {
    let mut state = on_page(Page::Playlist(PlaylistId("p1".into())));
    state.library.open_playlist = Loadable::Loaded(vec![]);
    send(
        &mut state,
        Action::PlaylistItemAdded { playlist: PlaylistId("p1".into()), track: track("a"), result: Ok("item1".into()) },
    );
    let Loadable::Loaded(tracks) = &state.library.open_playlist else {
        panic!("expected the open playlist to stay loaded");
    };
    assert_eq!(tracks[0].playlist_item_id, Some("item1".into()));
}

#[test]
fn a_confirmed_add_is_ignored_once_the_user_left_the_playlist() {
    let mut state = on_page(Page::Library);
    state.library.open_playlist = Loadable::Loaded(vec![]);
    send(
        &mut state,
        Action::PlaylistItemAdded { playlist: PlaylistId("p1".into()), track: track("a"), result: Ok("item1".into()) },
    );
    let Loadable::Loaded(tracks) = &state.library.open_playlist else {
        panic!("expected the open playlist to stay loaded");
    };
    assert!(tracks.is_empty());
}

#[test]
fn a_failed_add_reverts_the_count_and_posts_a_notice() {
    let mut state = fresh();
    state.library.playlists = Loadable::Loaded(vec![counted_playlist("p1", Some(3))]);
    send(
        &mut state,
        Action::PlaylistItemAdded { playlist: PlaylistId("p1".into()), track: track("a"), result: Err("nope".into()) },
    );
    let Loadable::Loaded(playlists) = &state.library.playlists else {
        panic!("expected the playlists slot to stay loaded");
    };
    assert_eq!(playlists[0].track_count, Some(2));
    assert_eq!(state.notices, vec!["nope".to_string()]);
}

#[test]
fn removing_a_track_drops_the_row_lowers_the_count_and_requests_the_write() {
    let mut state = fresh();
    state.library.playlists = Loadable::Loaded(vec![counted_playlist("p1", Some(2))]);
    state.library.open_playlist = Loadable::Loaded(vec![track_in_playlist("a", "i1"), track_in_playlist("b", "i2")]);
    let effects = send(
        &mut state,
        Action::TrackRemovedFromPlaylist { playlist: PlaylistId("p1".into()), item_id: "i1".into() },
    );
    let Loadable::Loaded(tracks) = &state.library.open_playlist else {
        panic!("expected the open playlist to stay loaded");
    };
    assert_eq!(tracks.len(), 1);
    let Loadable::Loaded(playlists) = &state.library.playlists else {
        panic!("expected the playlists slot to stay loaded");
    };
    assert_eq!(playlists[0].track_count, Some(1));
    assert_eq!(
        effects,
        vec![Effect::Api(ApiRequest::RemoveFromPlaylist { playlist: PlaylistId("p1".into()), item_id: "i1".into() })]
    );
}

#[test]
fn an_empty_playlist_title_is_ignored() {
    let mut state = State {
        dialog: Some(Dialog::CreatePlaylist { title_draft: "  ".into(), then_add: None }),
        ..fresh()
    };
    let effects = send(&mut state, Action::PlaylistCreateRequested("  ".into()));
    assert_eq!(effects, vec![]);
    assert!(state.dialog.is_some());
}

#[test]
fn creating_a_playlist_closes_the_dialog_and_requests_it() {
    let mut state = State {
        dialog: Some(Dialog::CreatePlaylist { title_draft: "Chill".into(), then_add: None }),
        ..fresh()
    };
    let effects = send(&mut state, Action::PlaylistCreateRequested("Chill".into()));
    assert_eq!(state.dialog, None);
    assert_eq!(effects, vec![Effect::Api(ApiRequest::CreatePlaylist(1, "Chill".into()))]);
}

#[test]
fn a_created_playlist_is_inserted_at_the_front_and_cached() {
    let mut state = fresh();
    state.library.playlists = Loadable::Loaded(vec![counted_playlist("old", Some(1))]);
    send(&mut state, Action::PlaylistCreateRequested("New".into()));
    let effects = send(&mut state, Action::PlaylistCreated(1, Ok(counted_playlist("new", Some(0)))));
    let Loadable::Loaded(playlists) = &state.library.playlists else {
        panic!("expected the playlists slot to stay loaded");
    };
    assert_eq!(playlists[0].id, PlaylistId("new".into()));
    assert_eq!(
        effects,
        vec![Effect::SaveLibraryCache(LibraryCacheWrite::Playlists(vec![
            counted_playlist("new", Some(0)),
            counted_playlist("old", Some(1)),
        ]))]
    );
}

#[test]
fn creating_a_playlist_with_a_remembered_track_chains_the_add() {
    let mut state = State {
        dialog: Some(Dialog::CreatePlaylist { title_draft: "Chill".into(), then_add: Some(track("a")) }),
        ..fresh()
    };
    send(&mut state, Action::PlaylistCreateRequested("Chill".into()));
    let effects = send(&mut state, Action::PlaylistCreated(1, Ok(counted_playlist("new", Some(0)))));
    assert!(effects.iter().any(|effect| matches!(effect, Effect::Api(ApiRequest::AddToPlaylist { .. }))));
}

#[test]
fn a_failed_create_posts_a_notice() {
    let mut state = fresh();
    send(&mut state, Action::PlaylistCreateRequested("New".into()));
    let effects = send(&mut state, Action::PlaylistCreated(1, Err("nope".into())));
    assert_eq!(effects, vec![]);
    assert_eq!(state.notices, vec!["nope".to_string()]);
}

#[test]
fn a_create_answer_counts_only_once() {
    let mut state = fresh();
    send(&mut state, Action::PlaylistCreateRequested("New".into()));
    send(&mut state, Action::PlaylistCreated(1, Ok(counted_playlist("new", Some(0)))));
    let again = send(&mut state, Action::PlaylistCreated(1, Ok(counted_playlist("new", Some(0)))));
    assert_eq!(again, vec![]);
    let Loadable::Loaded(playlists) = &state.library.playlists else {
        panic!("expected the playlists slot to be loaded");
    };
    assert_eq!(playlists.len(), 1);
}

#[test]
fn opening_the_dialog_remembers_the_track_that_asked_for_it() {
    let mut state = fresh();
    send(&mut state, Action::CreatePlaylistDialogOpened(Some(track("a"))));
    assert_eq!(state.dialog, Some(Dialog::CreatePlaylist { title_draft: String::new(), then_add: Some(track("a")) }));
}

#[test]
fn typing_in_the_dialog_updates_its_draft() {
    let mut state = fresh();
    send(&mut state, Action::CreatePlaylistDialogOpened(None));
    send(&mut state, Action::CreatePlaylistDraftChanged("Chill".into()));
    assert_eq!(state.dialog, Some(Dialog::CreatePlaylist { title_draft: "Chill".into(), then_add: None }));
}

#[test]
fn dismissing_the_dialog_closes_it() {
    let mut state = fresh();
    send(&mut state, Action::CreatePlaylistDialogOpened(None));
    send(&mut state, Action::DialogDismissed);
    assert_eq!(state.dialog, None);
}

#[test]
fn a_successful_write_does_nothing() {
    let mut state = fresh();
    let effects = send(&mut state, Action::LibraryWriteFinished { what: LibraryWrite::Liked, result: Ok(()) });
    assert_eq!(effects, vec![]);
}

#[test]
fn a_failed_liked_write_posts_a_notice_and_refetches_liked() {
    let mut state = fresh();
    let effects = send(&mut state, Action::LibraryWriteFinished { what: LibraryWrite::Liked, result: Err("nope".into()) });
    assert_eq!(state.notices, vec!["nope".to_string()]);
    assert_eq!(effects, vec![Effect::Api(ApiRequest::FetchLiked)]);
}

#[test]
fn a_failed_playlist_write_refetches_its_tracks_and_the_playlists() {
    let mut state = fresh();
    let effects = send(
        &mut state,
        Action::LibraryWriteFinished { what: LibraryWrite::Playlist(PlaylistId("p1".into())), result: Err("nope".into()) },
    );
    assert_eq!(state.notices, vec!["nope".to_string()]);
    assert_eq!(
        effects,
        vec![
            Effect::Api(ApiRequest::FetchPlaylistTracks(PlaylistId("p1".into()))),
            Effect::Api(ApiRequest::FetchPlaylists),
        ]
    );
}

fn artist_page(id: &str) -> ArtistPage {
    ArtistPage {
        id: ArtistId(id.to_string()),
        name: id.to_string(),
        thumbnail_url: None,
        top_songs: vec![],
        albums: vec![],
        singles: vec![],
    }
}

fn album_page(id: &str) -> AlbumPage {
    AlbumPage {
        album: Album { id: AlbumId(id.to_string()), title: id.to_string(), artists: vec![], year: None, thumbnail_url: None },
        tracks: vec![],
    }
}

fn back_pops_and_restores_a_playlist_case() {
    let mut state = on_page(Page::Search);
    send(&mut state, Action::PlaylistOpened(PlaylistId("p1".into())));
    send(&mut state, Action::PlaylistTracksLoaded(PlaylistId("p1".into()), Ok(vec![track("a")])));
    send(&mut state, Action::ArtistOpened(ArtistId("ar1".into())));
    let effects = send(&mut state, Action::BackPressed);
    assert_eq!(state.page, Page::Playlist(PlaylistId("p1".into())));
    assert_eq!(state.history, vec![Page::Search]);
    assert_eq!(state.library.open_playlist, Loadable::Loading);
    assert_eq!(
        effects,
        vec![
            Effect::Api(ApiRequest::FetchPlaylistTracks(PlaylistId("p1".into()))),
            Effect::LoadPlaylistTracksCache(PlaylistId("p1".into())),
        ]
    );
}

#[test]
fn update_back_pops_and_restores_a_playlist() {
    back_pops_and_restores_a_playlist_case();
}

#[test]
fn tests_back_pops_and_restores_a_playlist() {
    back_pops_and_restores_a_playlist_case();
}

fn back_onto_a_loaded_album_case() {
    let mut state = on_page(Page::Search);
    send(&mut state, Action::AlbumOpened(AlbumId("al1".into())));
    send(&mut state, Action::AlbumLoaded(AlbumId("al1".into()), Ok(album_page("al1"))));
    send(&mut state, Action::ArtistOpened(ArtistId("ar1".into())));
    let effects = send(&mut state, Action::BackPressed);
    assert_eq!(state.page, Page::Album(AlbumId("al1".into())));
    assert_eq!(effects, vec![]);
    assert_eq!(state.browse.album, Loadable::Loaded(album_page("al1")));
}

#[test]
fn update_back_onto_a_loaded_album_does_not_refetch() {
    back_onto_a_loaded_album_case();
}

#[test]
fn tests_back_onto_a_loaded_album_does_not_refetch() {
    back_onto_a_loaded_album_case();
}

fn a_stale_artist_result_case() {
    let mut state = on_page(Page::Search);
    send(&mut state, Action::ArtistOpened(ArtistId("ar1".into())));
    send(&mut state, Action::NavigatedTo(Page::Search));
    send(&mut state, Action::ArtistLoaded(ArtistId("ar1".into()), Ok(artist_page("ar1"))));
    assert_eq!(state.browse.artist, Loadable::Loading);
}

#[test]
fn update_a_stale_artist_result_is_ignored() {
    a_stale_artist_result_case();
}

#[test]
fn tests_a_stale_artist_result_is_ignored() {
    a_stale_artist_result_case();
}

#[test]
fn a_failed_artist_page_from_a_link_falls_back_to_search() {
    let mut state = on_page(Page::Library);
    let id = ArtistId("UC1".into());
    send(&mut state, Action::ArtistLinkOpened(ArtistRef { name: "Nitrogen".into(), id: Some(id.clone()) }));
    let effects = send(&mut state, Action::ArtistLoaded(id, Err("no header".into())));
    assert_eq!(state.page, Page::Search);
    assert_eq!(state.search.input, "Nitrogen");
    assert_eq!(state.history, vec![Page::Library]);
    assert_eq!(state.browse.artist_fallback, None);
    assert_eq!(state.notices.len(), 1);
    assert_eq!(state.notices[0], "No artist page for Nitrogen. Showing search results.");
    assert_eq!(effects, vec![Effect::Api(ApiRequest::Search { request_id: 1, query: "Nitrogen".to_string() })]);
}

#[test]
fn a_failed_artist_page_without_a_link_name_shows_the_failure() {
    let mut state = on_page(Page::Search);
    let id = ArtistId("UC1".into());
    send(&mut state, Action::ArtistOpened(id.clone()));
    send(&mut state, Action::ArtistLoaded(id, Err("no header".into())));
    assert_eq!(state.browse.artist, Loadable::Failed("no header".into()));
}

struct Last;

impl RandomBelow for Last {
    fn random_below(&mut self, n: usize) -> usize {
        n - 1
    }
}

#[test]
fn home_shuffle_uses_liked_music_and_leaves_empty_library_alone() {
    let mut state = fresh();
    assert!(send(&mut state, Action::LikedShuffleRequested).is_empty());
    state.library.liked = Loadable::Loaded(vec![track("a"), track("b")]);
    let effects = update(&mut state, Action::LikedShuffleRequested, &mut Last);
    assert!(state.playback.queue.shuffle);
    assert_eq!(state.playback.queue.current().unwrap().id.0, "b");
    assert!(effects.iter().any(|effect| matches!(effect, ytamp::effect::Effect::Player(ytamp::effect::PlayerCommand::Load(_)))));
}

fn ended_after(ids: &[&str]) -> State {
    let mut state = fresh();
    send(&mut state, Action::ContextPlayed { tracks: ids.iter().map(|id| track(id)).collect(), start: 0 });
    send(
        &mut state,
        Action::Player(ytamp::action::PlayerEvent::TrackStarted { duration: None, channels: 2, sample_rate: 44_100 }),
    );
    send(&mut state, Action::Player(ytamp::action::PlayerEvent::TrackEnded));
    state
}

#[test]
fn track_end_at_the_queue_end_fetches_a_radio_with_autoplay_on() {
    let mut state = fresh();
    assert!(state.playback.autoplay);
    send(&mut state, Action::ContextPlayed { tracks: vec![track("a")], start: 0 });
    send(
        &mut state,
        Action::Player(ytamp::action::PlayerEvent::TrackStarted { duration: None, channels: 2, sample_rate: 44_100 }),
    );
    let effects = send(&mut state, Action::Player(ytamp::action::PlayerEvent::TrackEnded));
    assert_eq!(state.playback.status, PlayStatus::Loading);
    assert_eq!(effects, vec![Effect::Api(ApiRequest::FetchRadio(TrackId("a".into())))]);
}

#[test]
fn a_radio_result_appends_dedups_and_loads_the_first_new_track() {
    let mut state = ended_after(&["a"]);
    let effects = send(&mut state, Action::RadioLoaded(TrackId("a".into()), Ok(vec![track("a"), track("b"), track("c")])));
    assert_eq!(effects, vec![Effect::Player(ytamp::effect::PlayerCommand::Load(track("b")))]);
    assert_eq!(state.playback.radio_request, None);
    assert!(state.playback.queue.contains(&TrackId("c".into())));
}

#[test]
fn an_empty_radio_result_stops_playback() {
    let mut state = ended_after(&["a"]);
    let effects = send(&mut state, Action::RadioLoaded(TrackId("a".into()), Ok(vec![track("a")])));
    assert_eq!(state.playback.status, PlayStatus::Stopped);
    assert_eq!(effects, vec![Effect::Player(ytamp::effect::PlayerCommand::Stop)]);
}

#[test]
fn a_failed_radio_stops_playback_with_a_notice() {
    let mut state = ended_after(&["a"]);
    let effects = send(&mut state, Action::RadioLoaded(TrackId("a".into()), Err("offline".into())));
    assert_eq!(state.playback.status, PlayStatus::Stopped);
    assert_eq!(effects, vec![Effect::Player(ytamp::effect::PlayerCommand::Stop)]);
    assert_eq!(state.notices, vec!["offline".to_string()]);
}

#[test]
fn a_radio_result_for_a_different_request_is_ignored() {
    let mut state = ended_after(&["a"]);
    let effects = send(&mut state, Action::RadioLoaded(TrackId("stale".into()), Ok(vec![track("b")])));
    assert_eq!(effects, vec![]);
    assert_eq!(state.playback.status, PlayStatus::Loading);
    assert_eq!(state.playback.radio_request, Some(TrackId("a".into())));
}

#[test]
fn a_radio_result_after_a_new_context_is_ignored() {
    let mut state = ended_after(&["a"]);
    send(&mut state, Action::ContextPlayed { tracks: vec![track("x"), track("y")], start: 0 });
    let effects = send(&mut state, Action::RadioLoaded(TrackId("a".into()), Ok(vec![track("b")])));
    assert_eq!(effects, vec![]);
}

#[test]
fn next_pressed_at_the_queue_end_also_fetches_a_radio() {
    let mut state = fresh();
    send(&mut state, Action::ContextPlayed { tracks: vec![track("a")], start: 0 });
    let effects = send(&mut state, Action::NextPressed);
    assert_eq!(effects, vec![Effect::Api(ApiRequest::FetchRadio(TrackId("a".into())))]);
}

#[test]
fn sign_out_discards_discovery_results() {
    let mut state = fresh();
    let generation = state.session_generation;
    send(&mut state, Action::DiscoveryRequested { more: false });
    let request_id = state.discovery.home.request_id;
    send(&mut state, Action::SignOutRequested);
    send(
        &mut state,
        Action::ForSession {
            generation,
            action: Box::new(Action::DiscoveryLoaded {
                request_id,
                target: ytamp::discovery::Target::home(),
                result: Ok(ytamp::discovery::FeedPage { continuation: Some("private".into()), ..Default::default() }),
            }),
        },
    );
    assert!(!state.discovery.home.loaded);
    assert!(state.discovery.home.page.continuation.is_none());
}

#[test]
fn home_prefetch_is_bounded_and_a_late_result_does_not_start_another_request() {
    let mut state = fresh();
    state.discovery.home.request(ytamp::discovery::Target::home(), false);
    let complete = |request_id: u64, cursor: &str| Action::DiscoveryLoaded {
        request_id,
        target: ytamp::discovery::Target::home(),
        result: Ok(ytamp::discovery::FeedPage { continuation: Some(cursor.to_string()), ..Default::default() }),
    };
    assert_eq!(send(&mut state, complete(1, "a")).iter().filter(|e| matches!(e, Effect::Api(_))).count(), 1);
    assert!(send(&mut state, complete(2, "b")).iter().all(|e| matches!(e, Effect::SaveLibraryCache(_))));
    assert!(send(&mut state, complete(1, "old")).is_empty());
    assert_eq!(state.discovery.home.page.continuation.as_deref(), Some("b"));
}

#[test]
fn cache_is_immediate_but_never_overwrites_a_fresh_home_response() {
    let mut state = fresh();
    state.discovery.home.request(ytamp::discovery::Target::home(), false);
    let cached = || ytamp::discovery::FeedPage {
        shelves: vec![ytamp::discovery::Shelf { title: "cached".into(), entries: vec![] }],
        ..Default::default()
    };
    send(&mut state, Action::DiscoveryCacheLoaded(cached()));
    assert!(state.discovery.home.loading && state.discovery.home.loaded);
    assert_eq!(state.discovery.home.page, cached());
    send(
        &mut state,
        Action::DiscoveryLoaded {
            request_id: 1,
            target: ytamp::discovery::Target::home(),
            result: Ok(ytamp::discovery::FeedPage::default()),
        },
    );
    send(&mut state, Action::DiscoveryCacheLoaded(cached()));
    assert!(state.discovery.home.page.shelves.is_empty());
}

#[test]
fn radio_rejects_late_results_after_another_playback_choice() {
    let mut state = fresh();
    let mut effects = send(&mut state, Action::RadioStartRequested(track("seed")));
    let Effect::Api(ApiRequest::StartRadio { request_id, playback_generation, seed }) = effects.remove(0) else {
        panic!()
    };
    send(&mut state, Action::ContextPlayed { tracks: vec![track("chosen")], start: 0 });
    assert!(send(
        &mut state,
        Action::RadioStarted { request_id, playback_generation, seed, result: Ok(vec![track("radio")]) }
    )
    .is_empty());
    assert_eq!(state.playback.queue.current().unwrap().id.0, "chosen");
}

#[test]
fn a_collection_card_opens_its_feed_once() {
    let mut state = on_page(Page::Home);
    let entry = || ytamp::discovery::Entry {
        title: "Mix".into(),
        subtitle: String::new(),
        artwork: None,
        target: ytamp::discovery::Target::Browse { id: "VLmix".into(), params: None },
        track: Some(track("t")),
    };
    let effects = send(&mut state, Action::DiscoveryOpened(entry()));
    assert_eq!(state.history, vec![Page::Home]);
    assert!(matches!(&state.page, Page::Discovery(e) if e.title == "Mix"));
    assert!(matches!(&effects[..], [Effect::Api(ApiRequest::FetchDiscovery { request_id: 1, continuation: None, .. })]));
    assert_eq!(send(&mut state, Action::DiscoveryOpened(entry())), vec![]);
    assert_eq!(state.history, vec![Page::Home]);
    let more = send(&mut state, Action::DiscoveryRequested { more: true });
    assert_eq!(more, vec![]);
}

fn skin(state: &mut State, action: ytamp::domains::SkinAction) -> Vec<Effect> {
    send(state, Action::Skin(action))
}

#[test]
fn tests_hovering_a_track_prefetches_it() {
    let mut state = fresh();
    send(&mut state, Action::ContextPlayed { tracks: vec![track("a")], start: 0 });
    let effects = send(&mut state, Action::TrackHovered(track("b")));
    assert_eq!(effects, vec![Effect::Player(ytamp::effect::PlayerCommand::Prefetch(track("b")))]);
}

#[test]
fn tests_hovering_the_current_track_prefetches_nothing() {
    let mut state = fresh();
    send(&mut state, Action::ContextPlayed { tracks: vec![track("a")], start: 0 });
    let effects = send(&mut state, Action::TrackHovered(track("a")));
    assert_eq!(effects, vec![]);
}

#[test]
fn tests_hovering_the_same_track_twice_prefetches_only_once() {
    let mut state = fresh();
    send(&mut state, Action::TrackHovered(track("b")));
    let effects = send(&mut state, Action::TrackHovered(track("b")));
    assert_eq!(effects, vec![]);
}

#[test]
fn winamp_toggled_flips_open() {
    let mut state = fresh();
    assert!(!state.winamp.open);
    skin(&mut state, ytamp::domains::SkinAction::WinampToggled);
    assert!(state.winamp.open);
    skin(&mut state, ytamp::domains::SkinAction::WinampToggled);
    assert!(!state.winamp.open);
}

#[test]
fn opening_the_winamp_window_loads_the_worn_skin_and_lists_the_folder() {
    let mut state = fresh();
    state.winamp.skin = Some("Zaxon".to_string());
    let effects = skin(&mut state, ytamp::domains::SkinAction::WinampToggled);
    assert_eq!(effects, vec![Effect::LoadSkin(Some("Zaxon".to_string())), Effect::RefreshSkinList]);
    let effects = skin(&mut state, ytamp::domains::SkinAction::WinampToggled);
    assert_eq!(effects, vec![]);
}

#[test]
fn choosing_a_skin_records_it_and_loads_it() {
    let mut state = fresh();
    let effects = skin(&mut state, ytamp::domains::SkinAction::SkinChosen(Some("Base".to_string())));
    assert_eq!(state.winamp.skin, Some("Base".to_string()));
    assert_eq!(effects, vec![Effect::LoadSkin(Some("Base".to_string()))]);
    let effects = skin(&mut state, ytamp::domains::SkinAction::SkinChosen(None));
    assert_eq!(state.winamp.skin, None);
    assert_eq!(effects, vec![Effect::LoadSkin(None)]);
}

#[test]
fn a_dropped_skin_file_is_installed() {
    let mut state = fresh();
    let path = "/tmp/Zaxon.wsz".to_string();
    let effects = skin(&mut state, ytamp::domains::SkinAction::SkinFileDropped(path.clone()));
    assert_eq!(effects, vec![Effect::InstallSkin(path)]);
}

#[test]
fn an_installed_skin_is_worn_and_a_failure_is_a_notice() {
    let mut state = fresh();
    let effects = skin(&mut state, ytamp::domains::SkinAction::SkinInstalled(Ok("Zaxon".to_string())));
    assert_eq!(state.winamp.skin, Some("Zaxon".to_string()));
    assert_eq!(effects, vec![Effect::LoadSkin(Some("Zaxon".to_string()))]);
    let effects = skin(&mut state, ytamp::domains::SkinAction::SkinInstalled(Err("bad file".into())));
    assert_eq!(state.notices, vec!["bad file".to_string()]);
    assert_eq!(effects, vec![]);
}

#[test]
fn the_skin_list_refresh_replaces_the_available_skins() {
    let mut state = fresh();
    skin(&mut state, ytamp::domains::SkinAction::SkinListRefreshed(vec!["Base".to_string(), "Zaxon".to_string()]));
    assert_eq!(state.winamp.available_skins, vec!["Base".to_string(), "Zaxon".to_string()]);
}

#[test]
fn winamp_scale_set_clamps_to_the_allowed_range() {
    let mut state = fresh();
    skin(&mut state, ytamp::domains::SkinAction::WinampScaleSet(3));
    assert_eq!(state.winamp.scale, 3);
    skin(&mut state, ytamp::domains::SkinAction::WinampScaleSet(0));
    assert_eq!(state.winamp.scale, 1);
    skin(&mut state, ytamp::domains::SkinAction::WinampScaleSet(9));
    assert_eq!(state.winamp.scale, 4);
}

#[test]
fn winamp_on_top_toggled_flips_on_top() {
    let mut state = fresh();
    assert!(!state.winamp.on_top);
    skin(&mut state, ytamp::domains::SkinAction::WinampOnTopToggled);
    assert!(state.winamp.on_top);
    skin(&mut state, ytamp::domains::SkinAction::WinampOnTopToggled);
    assert!(!state.winamp.on_top);
}

#[test]
fn track_started_carries_the_stream_shape() {
    let mut state = fresh();
    send(
        &mut state,
        Action::Player(ytamp::action::PlayerEvent::TrackStarted {
            duration: Some(Span { secs: 180, nanos: 0 }),
            channels: 2,
            sample_rate: 44_100,
        }),
    );
    assert_eq!(state.playback.channels, 2);
    assert_eq!(state.playback.sample_rate, 44_100);
}

#[test]
fn queue_jumped_loads_the_track_at_that_upcoming_index() {
    let mut state = fresh();
    send(&mut state, Action::ContextPlayed { tracks: vec![track("a"), track("b"), track("c")], start: 0 });
    let effects = send(&mut state, Action::QueueJumped(1));
    assert_eq!(effects, vec![Effect::Player(ytamp::effect::PlayerCommand::Load(track("c")))]);
    assert_eq!(state.playback.status, PlayStatus::Loading);
}

#[test]
fn queue_jumped_past_the_end_preserves_playback() {
    let mut state = fresh();
    send(&mut state, Action::ContextPlayed { tracks: vec![track("a")], start: 0 });
    let before = state.playback.status;
    let effects = send(&mut state, Action::QueueJumped(5));
    assert!(effects.is_empty());
    assert_eq!(state.playback.status, before);
}

#[test]
fn queue_cleared_drops_only_the_explicitly_queued_tracks() {
    let mut state = fresh();
    send(&mut state, Action::ContextPlayed { tracks: vec![track("a"), track("b")], start: 0 });
    send(&mut state, Action::TrackQueued(track("q")));
    send(&mut state, Action::QueueCleared);
    let upcoming: Vec<String> = state.playback.queue.upcoming().iter().map(|t| t.id.0.clone()).collect();
    assert_eq!(upcoming, vec!["b".to_string()]);
}
