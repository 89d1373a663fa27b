use ytamp::app_state::{LyricsState, PlaybackState, State};
use ytamp::discovery::{Discovery, FeedPage, Shelf};
use ytamp::durations::Lookup;
use ytamp::effect::{ApiRequest, Effect, PlayerCommand};
use ytamp::imports::Imports;
use ytamp::listening_history::{HistoryPage, ListeningHistory};
use ytamp::lyrics::Lyrics;
use ytamp::model::{AlbumId, ArtistId, ArtistRef, MediaSource, PlaylistId, Span, Track, TrackId};
use ytamp::queue::Queue;
use ytamp::random::RandomBelow;
use ytamp::reducer::{update, Action};
use ytamp::state::{
    AuthState, BrowseState, LibraryState, Loadable, Page, PlayStatus, SearchState, SignInState,
    WinampSettings,
};

struct Zero;

impl RandomBelow for Zero {
    fn random_below(&mut self, _n: usize) -> usize {
        0
    }
}

fn track(id: &str) -> Track {
    Track {
        source: MediaSource::YouTube,
        id: TrackId(id.to_string()),
        title: id.to_string(),
        artists: vec![],
        album: None,
        album_id: None,
        duration: None,
        thumbnail_url: None,
        playlist_item_id: None,
    }
}

/// A state as the application starts: nothing playing, autoplay on.
fn fresh() -> State {
    State {
        local_mode: false,
        imports: Imports::default(),
        discovery: Discovery::default(),
        listening_history: ListeningHistory::default(),
        skin_browser_open: false,
        lyrics: LyricsState { open: false, track: None, request_id: 0, content: Loadable::NotAsked },
        session_generation: 0,
        playback_generation: 0,
        playlist_request_id: 0,
        auth: AuthState::default(),
        sign_in: SignInState::default(),
        page: Page::default(),
        search: SearchState { request_id: 0, input: String::new(), results: Loadable::NotAsked },
        library: LibraryState {
            playlists: Loadable::NotAsked,
            liked: Loadable::NotAsked,
            liked_loading_more: false,
            incoming_liked: vec![],
            open_playlist: Loadable::NotAsked,
            open_playlist_loading_more: false,
            incoming_playlist: vec![],
        },
        browse: BrowseState { artist: Loadable::NotAsked, album: Loadable::NotAsked, artist_fallback: None },
        playback: PlaybackState {
            error: None,
            loading: false,
            queue: Queue::default(),
            status: PlayStatus::Stopped,
            position: Span { secs: 0, nanos: 0 },
            track_duration: None,
            duration_lookup: Lookup::new(0),
            resume_position: None,
            last_hover_prefetch: None,
            autoplay: true,
            radio_request: None,
            failed_local: vec![],
            channels: 0,
            sample_rate: 0,
        },
        queue_open: false,
        winamp: WinampSettings::default(),
        history: vec![],
        notices: vec![],
        dialog: None,
        pending_playlist_tracks: vec![],
    }
}

fn on_page(page: Page) -> State {
    State { page, ..fresh() }
}

fn send(state: &mut State, action: Action) -> Vec<Effect> {
    update(state, action, &mut Zero)
}

fn lyrics(text: &str) -> Lyrics {
    Lyrics { text: text.to_string(), source: "test".to_string(), timed_lines: vec![] }
}

#[test]
fn lyrics_follow_track_ignore_old_results_and_cancel_when_closed() {
    let mut state = fresh();
    send(&mut state, Action::ContextPlayed { tracks: vec![track("a"), track("b")], start: 0 });
    assert!(matches!(state.lyrics.content, Loadable::NotAsked));
    let effects = send(&mut state, Action::LyricsToggled);
    let old = state.lyrics.request_id;
    assert!(effects.contains(&Effect::FetchLyrics(Some((old, TrackId("a".into()))))));
    send(&mut state, Action::NextPressed);
    send(
        &mut state,
        Action::LyricsLoaded { request_id: old, track: TrackId("a".into()), result: Ok(Some(lyrics("old"))) },
    );
    assert!(matches!(state.lyrics.content, Loadable::Loading));
    let current = state.lyrics.request_id;
    send(&mut state, Action::LyricsLoaded { request_id: current, track: TrackId("b".into()), result: Ok(None) });
    assert!(matches!(state.lyrics.content, Loadable::Loaded(None)));
    let effects = send(&mut state, Action::LyricsToggled);
    assert!(effects.contains(&Effect::FetchLyrics(None)));
    send(
        &mut state,
        Action::LyricsLoaded { request_id: current, track: TrackId("b".into()), result: Err("late".into()) },
    );
    assert!(matches!(state.lyrics.content, Loadable::Loaded(None)));
}

#[test]
fn retry_and_sign_out_invalidate_requests() {
    let mut state = fresh();
    send(&mut state, Action::ContextPlayed { tracks: vec![track("a")], start: 0 });
    send(&mut state, Action::LyricsToggled);
    let old = state.lyrics.request_id;
    send(
        &mut state,
        Action::LyricsLoaded { request_id: old, track: TrackId("a".into()), result: Err("offline".into()) },
    );
    assert!(matches!(state.lyrics.content, Loadable::Failed(_)));
    send(&mut state, Action::LyricsReloadRequested);
    assert!(state.lyrics.request_id > old);
    let pending = state.lyrics.request_id;
    assert!(send(&mut state, Action::SignOutRequested).contains(&Effect::FetchLyrics(None)));
    send(&mut state, Action::ContextPlayed { tracks: vec![track("a")], start: 0 });
    send(&mut state, Action::LyricsToggled);
    assert!(state.lyrics.request_id > pending);
}

#[test]
fn now_playing_lyrics_restart_after_leaving_during_load() {
    let mut state = fresh();
    send(&mut state, Action::ContextPlayed { tracks: vec![track("a")], start: 0 });
    let first = send(&mut state, Action::NowPlayingOpened);
    assert!(first.iter().any(|e| matches!(e, Effect::FetchLyrics(Some(_)))));
    let id = state.lyrics.request_id;
    send(&mut state, Action::BackPressed);
    assert!(matches!(state.lyrics.content, Loadable::NotAsked));
    send(&mut state, Action::NowPlayingOpened);
    assert_eq!(state.page, Page::NowPlaying);
    assert!(state.lyrics.request_id > id);
    assert!(!state.lyrics.open, "embedded lyrics must not open a second window");
}

#[test]
fn sign_out_discards_pending_account_history() {
    let mut state = fresh();
    send(&mut state, Action::NavigatedTo(Page::ListeningHistory));
    let generation = state.session_generation;
    let request_id = state.listening_history.request_id;
    send(&mut state, Action::SignOutRequested);
    send(
        &mut state,
        Action::ForSession {
            generation,
            action: Box::new(Action::HistoryLoaded {
                request_id,
                result: Ok(HistoryPage { tracks: vec![], continuation: Some("private-cursor".into()) }),
            }),
        },
    );
    assert!(!state.listening_history.loaded);
    assert!(state.listening_history.continuation.is_none());
}

#[test]
fn a_history_page_for_the_current_session_fills_the_list() {
    let mut state = fresh();
    let effects = send(&mut state, Action::HistoryRequested { more: false });
    let request_id = state.listening_history.request_id;
    let generation = state.session_generation;
    assert_eq!(effects.len(), 1);
    send(
        &mut state,
        Action::ForSession {
            generation,
            action: Box::new(Action::HistoryLoaded {
                request_id,
                result: Ok(HistoryPage { tracks: vec![track("h")], continuation: None }),
            }),
        },
    );
    assert!(state.listening_history.loaded);
    assert_eq!(state.listening_history.tracks.len(), 1);
    assert_eq!(state.listening_history.tracks[0].id, TrackId("h".into()));
}

#[test]
fn a_library_refresh_asks_for_both_lists_unless_one_is_loading() {
    let mut state = on_page(Page::Library);
    let effects = send(&mut state, Action::LibraryRefreshRequested);
    assert!(effects.contains(&Effect::Api(ApiRequest::FetchPlaylists)));
    assert!(effects.contains(&Effect::Api(ApiRequest::FetchLiked)));
    assert!(matches!(state.library.playlists, Loadable::Loading));
    assert_eq!(send(&mut state, Action::LibraryRefreshRequested), vec![]);
}

#[test]
fn a_cached_home_feed_shows_only_before_the_feed_loads() {
    let mut state = fresh();
    let cached = FeedPage {
        shelves: vec![Shelf { title: "cached".into(), entries: vec![] }],
        tracks: vec![],
        continuation: None,
    };
    send(&mut state, Action::DiscoveryCacheLoaded(cached));
    assert!(state.discovery.home.loaded);
    assert_eq!(state.discovery.home.page.shelves.len(), 1);
    let later = FeedPage { shelves: vec![], tracks: vec![track("x")], continuation: None };
    send(&mut state, Action::DiscoveryCacheLoaded(later));
    assert_eq!(state.discovery.home.page.shelves[0].title, "cached");
    assert!(state.discovery.home.page.tracks.is_empty());
}

#[test]
fn update_opening_a_playlist_reads_the_cache_and_the_network() {
    let mut state = fresh();
    let effects = send(&mut state, Action::PlaylistOpened(PlaylistId("p1".into())));
    assert_eq!(
        effects,
        vec![
            Effect::Api(ApiRequest::FetchPlaylistTracks(PlaylistId("p1".into()))),
            Effect::LoadPlaylistTracksCache(PlaylistId("p1".into())),
        ]
    );
}

#[test]
fn tests_opening_a_playlist_reads_the_cache_and_the_network() {
    let mut state = fresh();
    let effects = send(&mut state, Action::PlaylistOpened(PlaylistId("p1".into())));
    assert_eq!(
        effects,
        vec![
            Effect::Api(ApiRequest::FetchPlaylistTracks(PlaylistId("p1".into()))),
            Effect::LoadPlaylistTracksCache(PlaylistId("p1".into())),
        ]
    );
}

#[test]
fn update_opening_an_artist_pushes_history_and_fetches() {
    let mut state = on_page(Page::Search);
    let effects = send(&mut state, Action::ArtistOpened(ArtistId("ar1".into())));
    assert_eq!(state.page, Page::Artist(ArtistId("ar1".into())));
    assert_eq!(state.history, vec![Page::Search]);
    assert!(matches!(state.browse.artist, Loadable::Loading));
    assert_eq!(effects, vec![Effect::Api(ApiRequest::FetchArtist(ArtistId("ar1".into())))]);
}

#[test]
fn tests_opening_an_artist_pushes_history_and_fetches() {
    let mut state = on_page(Page::Search);
    let effects = send(&mut state, Action::ArtistOpened(ArtistId("ar1".into())));
    assert_eq!(state.page, Page::Artist(ArtistId("ar1".into())));
    assert_eq!(state.history, vec![Page::Search]);
    assert!(matches!(state.browse.artist, Loadable::Loading));
    assert_eq!(effects, vec![Effect::Api(ApiRequest::FetchArtist(ArtistId("ar1".into())))]);
}

#[test]
fn update_opening_the_same_artist_twice_is_a_no_op() {
    let mut state = on_page(Page::Search);
    send(&mut state, Action::ArtistOpened(ArtistId("ar1".into())));
    let effects = send(&mut state, Action::ArtistOpened(ArtistId("ar1".into())));
    assert_eq!(effects, vec![]);
    assert_eq!(state.history, vec![Page::Search]);
}

#[test]
fn tests_opening_the_same_artist_twice_is_a_no_op() {
    let mut state = on_page(Page::Search);
    send(&mut state, Action::ArtistOpened(ArtistId("ar1".into())));
    let effects = send(&mut state, Action::ArtistOpened(ArtistId("ar1".into())));
    assert_eq!(effects, vec![]);
    assert_eq!(state.history, vec![Page::Search]);
}

#[test]
fn an_artist_search_request_fills_and_submits_the_search() {
    let mut state = on_page(Page::Library);
    let effects = send(&mut state, Action::ArtistSearchRequested("Radiohead".to_string()));
    assert_eq!(state.search.input, "Radiohead");
    assert_eq!(state.page, Page::Search);
    assert_eq!(state.history, vec![Page::Library]);
    assert!(matches!(state.search.results, Loadable::Loading));
    assert_eq!(
        effects,
        vec![Effect::Api(ApiRequest::Search { request_id: 1, query: "Radiohead".to_string() })]
    );
}

#[test]
fn back_returns_to_a_playlist_and_loads_it_again() {
    let mut state = on_page(Page::Search);
    send(&mut state, Action::PlaylistOpened(PlaylistId("p1".into())));
    send(&mut state, Action::ArtistOpened(ArtistId("ar1".into())));
    let effects = send(&mut state, Action::BackPressed);
    assert_eq!(state.page, Page::Playlist(PlaylistId("p1".into())));
    assert_eq!(state.history, vec![Page::Search]);
    assert!(matches!(state.library.open_playlist, Loadable::Loading));
    assert_eq!(
        effects,
        vec![
            Effect::Api(ApiRequest::FetchPlaylistTracks(PlaylistId("p1".into()))),
            Effect::LoadPlaylistTracksCache(PlaylistId("p1".into())),
        ]
    );
}

#[test]
fn back_onto_an_album_loads_it_only_when_its_slot_lost_it() {
    let mut state = on_page(Page::Search);
    send(&mut state, Action::AlbumOpened(AlbumId("al1".into())));
    send(&mut state, Action::ArtistOpened(ArtistId("ar1".into())));
    let effects = send(&mut state, Action::BackPressed);
    assert_eq!(state.page, Page::Album(AlbumId("al1".into())));
    assert_eq!(effects, vec![Effect::Api(ApiRequest::FetchAlbum(AlbumId("al1".into())))]);
    assert_eq!(state.history, vec![Page::Search]);
    assert_eq!(send(&mut state, Action::BackPressed), vec![]);
    assert_eq!(state.page, Page::Search);
}

#[test]
fn update_back_with_an_empty_history_does_nothing() {
    let mut state = on_page(Page::Search);
    let effects = send(&mut state, Action::BackPressed);
    assert_eq!(state.page, Page::Search);
    assert_eq!(effects, vec![]);
}

#[test]
fn tests_back_with_an_empty_history_does_nothing() {
    let mut state = on_page(Page::Search);
    let effects = send(&mut state, Action::BackPressed);
    assert_eq!(state.page, Page::Search);
    assert_eq!(effects, vec![]);
}

#[test]
fn update_sidebar_navigation_clears_history() {
    let mut state = on_page(Page::Search);
    send(&mut state, Action::ArtistOpened(ArtistId("ar1".into())));
    assert_eq!(state.history, vec![Page::Search]);
    send(&mut state, Action::NavigatedTo(Page::Library));
    assert_eq!(state.history, vec![]);
}

#[test]
fn tests_sidebar_navigation_clears_history() {
    let mut state = on_page(Page::Search);
    send(&mut state, Action::ArtistOpened(ArtistId("ar1".into())));
    assert_eq!(state.history, vec![Page::Search]);
    send(&mut state, Action::NavigatedTo(Page::Library));
    assert_eq!(state.history, vec![]);
}

#[test]
fn an_artist_link_with_an_id_opens_the_page_and_keeps_the_name() {
    let mut state = on_page(Page::Library);
    let artist = ArtistRef { name: "Nitrogen".into(), id: Some(ArtistId("UC1".into())) };
    let effects = send(&mut state, Action::ArtistLinkOpened(artist));
    assert_eq!(state.page, Page::Artist(ArtistId("UC1".into())));
    assert_eq!(state.browse.artist_fallback, Some("Nitrogen".to_string()));
    assert_eq!(effects, vec![Effect::Api(ApiRequest::FetchArtist(ArtistId("UC1".into())))]);
}

#[test]
fn an_artist_link_without_an_id_searches_the_name() {
    let mut state = on_page(Page::Library);
    let artist = ArtistRef { name: "Nitrogen".into(), id: None };
    let effects = send(&mut state, Action::ArtistLinkOpened(artist));
    assert_eq!(state.page, Page::Search);
    assert_eq!(state.search.input, "Nitrogen");
    assert_eq!(state.history, vec![Page::Library]);
    assert_eq!(effects.len(), 1);
}

#[test]
fn a_shelf_opens_on_its_own_page_and_back_leaves_it() {
    let mut state = on_page(Page::Home);
    let shelf = Shelf { title: "Mixes".into(), entries: vec![] };
    assert_eq!(send(&mut state, Action::DiscoveryShelfOpened(shelf)), vec![]);
    assert!(matches!(&state.page, Page::DiscoveryShelf(s) if s.title == "Mixes"));
    assert_eq!(state.history, vec![Page::Home]);
    send(&mut state, Action::BackPressed);
    assert_eq!(state.page, Page::Home);
}

#[test]
fn update_playing_a_context_loads_the_start_track() {
    let mut state = fresh();
    let effects = send(&mut state, Action::ContextPlayed { tracks: vec![track("a"), track("b")], start: 1 });
    assert_eq!(state.playback.status, PlayStatus::Loading);
    assert_eq!(effects, vec![Effect::Player(PlayerCommand::Load(track("b")))]);
}

#[test]
fn tests_playing_a_context_loads_the_start_track() {
    let mut state = fresh();
    let effects = send(&mut state, Action::ContextPlayed { tracks: vec![track("a"), track("b")], start: 1 });
    assert_eq!(state.playback.status, PlayStatus::Loading);
    assert_eq!(effects, vec![Effect::Player(PlayerCommand::Load(track("b")))]);
}

#[test]
fn update_previous_restarts_after_the_threshold() {
    let mut state = fresh();
    send(&mut state, Action::ContextPlayed { tracks: vec![track("a"), track("b")], start: 1 });
    state.playback.position = Span { secs: 10, nanos: 0 };
    let effects = send(&mut state, Action::PreviousPressed);
    assert_eq!(effects, vec![Effect::Player(PlayerCommand::Seek(Span { secs: 0, nanos: 0 }))]);
}

#[test]
fn tests_previous_restarts_after_the_threshold() {
    let mut state = fresh();
    send(&mut state, Action::ContextPlayed { tracks: vec![track("a"), track("b")], start: 1 });
    state.playback.position = Span { secs: 10, nanos: 0 };
    let effects = send(&mut state, Action::PreviousPressed);
    assert_eq!(effects, vec![Effect::Player(PlayerCommand::Seek(Span { secs: 0, nanos: 0 }))]);
}

#[test]
fn autoplay_toggled_flips_the_flag() {
    let mut state = fresh();
    assert!(state.playback.autoplay);
    send(&mut state, Action::AutoplayToggled);
    assert!(!state.playback.autoplay);
}
