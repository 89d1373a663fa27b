use ytamp::app_state::{LyricsState, PlaybackState, State};
use ytamp::auth_flow::AuthAction;
use ytamp::discovery::Discovery;
use ytamp::durations::Lookup;
use ytamp::effect::{ApiRequest, Effect, PlayerCommand};
use ytamp::imports::Imports;
use ytamp::listening_history::ListeningHistory;
use ytamp::model::{MediaSource, Span, Track, TrackId};
use ytamp::queue::Queue;
use ytamp::random::RandomBelow;
use ytamp::action::PlayerEvent;
use ytamp::domains::SkinAction;
use ytamp::model::{AlbumId, ArtistId};
use ytamp::reducer::{update, update_inner, Action, NO_RADIO};
use ytamp::state::{
    AuthState, BrowseState, LibraryState, Loadable, Page, PlayStatus, SearchState, SignInState,
    WinampSettings,
};

struct NoRandom;

impl RandomBelow for NoRandom {
    fn random_below(&mut self, _n: usize) -> usize {
        0
    }
}

fn track(id: &str) -> Track {
    Track {
        source: MediaSource::YouTube,
        id: TrackId(id.to_string()),
        title: id.to_string(),
        artists: vec![],
        album: None,
        album_id: None,
        duration: Some(Span { secs: 100, nanos: 0 }),
        thumbnail_url: None,
        playlist_item_id: None,
    }
}

fn state_with(ids: &[&str]) -> State {
    let mut queue = Queue::default();
    queue.play_context(ids.iter().map(|id| track(id)).collect(), 0, &mut NoRandom);
    State {
        local_mode: false,
        imports: Imports::default(),
        discovery: Discovery::default(),
        listening_history: ListeningHistory::default(),
        skin_browser_open: false,
        lyrics: LyricsState { open: false, track: None, request_id: 0, content: Loadable::NotAsked },
        session_generation: 0,
        playback_generation: 0,
        playlist_request_id: 0,
        auth: AuthState::SignedIn,
        sign_in: SignInState::default(),
        page: Page::Library,
        search: SearchState { request_id: 0, input: String::new(), results: Loadable::NotAsked },
        library: LibraryState {
            playlists: Loadable::NotAsked,
            liked: Loadable::NotAsked,
            liked_loading_more: false,
            incoming_liked: vec![],
            open_playlist: Loadable::NotAsked,
            open_playlist_loading_more: false,
            incoming_playlist: vec![],
        },
        browse: BrowseState { artist: Loadable::NotAsked, album: Loadable::NotAsked, artist_fallback: None },
        playback: PlaybackState {
            error: None,
            loading: false,
            queue,
            status: PlayStatus::Playing,
            position: Span { secs: 10, nanos: 0 },
            track_duration: None,
            duration_lookup: Lookup::new(0),
            resume_position: None,
            last_hover_prefetch: None,
            autoplay: false,
            radio_request: None,
            failed_local: vec![],
            channels: 2,
            sample_rate: 48000,
        },
        queue_open: false,
        winamp: WinampSettings::default(),
        history: vec![],
        notices: vec![],
        dialog: None,
        pending_playlist_tracks: vec![],
    }
}

fn upcoming_ids(state: &State) -> Vec<String> {
    state.playback.queue.upcoming().iter().map(|t| t.id.0.clone()).collect()
}

#[test]
fn next_loads_the_following_track_and_moves_the_generation_on() {
    let mut state = state_with(&["a", "b"]);
    let effects = update(&mut state, Action::NextPressed, &mut NoRandom);
    assert_eq!(effects, vec![Effect::Player(PlayerCommand::Load(track("b")))]);
    assert_eq!(state.playback_generation, 1);
    assert_eq!(state.playback.status, PlayStatus::Loading);
    assert_eq!(state.playback.position, Span { secs: 0, nanos: 0 });
}

#[test]
fn next_at_the_end_stops_or_starts_a_radio() {
    let mut state = state_with(&["a"]);
    let effects = update(&mut state, Action::NextPressed, &mut NoRandom);
    assert_eq!(effects, vec![Effect::Player(PlayerCommand::Stop)]);
    assert_eq!(state.playback_generation, 1);
    let mut state = state_with(&["a"]);
    state.playback.autoplay = true;
    let effects = update(&mut state, Action::NextPressed, &mut NoRandom);
    assert_eq!(effects, vec![Effect::Api(ApiRequest::FetchRadio(TrackId("a".into())))]);
    assert_eq!(state.playback_generation, 0);
    assert_eq!(state.playback.radio_request, Some(TrackId("a".into())));
}

#[test]
fn previous_restarts_a_track_that_played_three_seconds() {
    let mut state = state_with(&["a", "b"]);
    let effects = update(&mut state, Action::PreviousPressed, &mut NoRandom);
    assert_eq!(effects, vec![Effect::Player(PlayerCommand::Seek(Span { secs: 0, nanos: 0 }))]);
    assert_eq!(state.playback_generation, 0);
}

#[test]
fn selected_rows_leave_the_queue_together() {
    let mut state = state_with(&["a", "b", "c", "d"]);
    let effects = update(&mut state, Action::QueueSelectionRemoved(vec![0, 2, 0]), &mut NoRandom);
    assert_eq!(upcoming_ids(&state), ["c"]);
    assert_eq!(effects, vec![Effect::Player(PlayerCommand::PrepareNext(Some(track("c"))))]);
}

#[test]
fn a_jump_past_the_list_does_nothing() {
    let mut state = state_with(&["a", "b"]);
    assert_eq!(update(&mut state, Action::QueueJumped(5), &mut NoRandom), vec![]);
    let effects = update(&mut state, Action::QueueJumped(0), &mut NoRandom);
    assert_eq!(effects, vec![Effect::Player(PlayerCommand::Load(track("b")))]);
}

#[test]
fn an_open_lyrics_panel_follows_the_current_track() {
    let mut state = state_with(&["a", "b"]);
    state.lyrics.open = true;
    let effects = update(&mut state, Action::QueuePanelToggled, &mut NoRandom);
    assert!(state.queue_open);
    assert_eq!(effects, vec![Effect::FetchLyrics(Some((1, TrackId("a".into()))))]);
    state.lyrics.open = false;
    state.lyrics.content = Loadable::Loading;
    let effects = update(&mut state, Action::QueuePanelToggled, &mut NoRandom);
    assert_eq!(effects, vec![Effect::FetchLyrics(None)]);
    assert_eq!(state.lyrics.request_id, 2);
}

#[test]
fn a_confirmed_sign_in_goes_home_and_fills_the_library() {
    let mut state = state_with(&["a"]);
    state.auth = AuthState::Verifying;
    state.history = vec![Page::Search];
    let effects = update(&mut state, Action::Auth(AuthAction::AuthVerified(Ok(()))), &mut NoRandom);
    assert_eq!(state.auth, AuthState::SignedIn);
    assert_eq!(state.page, Page::Home);
    assert!(state.history.is_empty());
    assert_eq!(effects.len(), 4);
    assert_eq!(effects[0], Effect::Api(ApiRequest::FetchPlaylists));
    assert_eq!(effects[1], Effect::Api(ApiRequest::FetchLiked));
    assert_eq!(effects[2], Effect::LoadLibraryCache);
    assert!(matches!(effects[3], Effect::Api(ApiRequest::FetchDiscovery { request_id: 1, .. })));
}

#[test]
fn signing_out_through_the_reducer_stops_and_clears() {
    let mut state = state_with(&["a"]);
    let effects = update(&mut state, Action::SignOutRequested, &mut NoRandom);
    assert_eq!(
        effects,
        vec![Effect::Player(PlayerCommand::Stop), Effect::ClearCredentials, Effect::ClearLibraryCache]
    );
    assert_eq!(state.playback_generation, 1);
    assert_eq!(state.session_generation, 1);
}

#[test]
fn a_report_for_an_earlier_playback_changes_nothing() {
    let mut state = state_with(&["a", "b"]);
    state.playback_generation = 3;
    let effects = update_inner(
        &mut state,
        Action::ForPlayback { generation: 2, event: PlayerEvent::Failed("late".into()) },
        &mut NoRandom,
    );
    assert!(effects.is_empty());
    assert_eq!(state.playback.error, None);
    update_inner(
        &mut state,
        Action::ForPlayback { generation: 3, event: PlayerEvent::Failed("now".into()) },
        &mut NoRandom,
    );
    assert_eq!(state.playback.error, Some("now".to_string()));
    assert_eq!(state.playback.status, PlayStatus::Stopped);
}

#[test]
fn a_result_for_an_earlier_session_changes_nothing() {
    let mut state = state_with(&["a"]);
    state.session_generation = 5;
    update_inner(
        &mut state,
        Action::ForSession { generation: 4, action: Box::new(Action::NoticePosted("old".into())) },
        &mut NoRandom,
    );
    assert!(state.notices.is_empty());
    update_inner(
        &mut state,
        Action::ForSession { generation: 5, action: Box::new(Action::NoticePosted("new".into())) },
        &mut NoRandom,
    );
    assert_eq!(state.notices, vec!["new".to_string()]);
    update_inner(&mut state, Action::NoticeDismissed(3), &mut NoRandom);
    assert_eq!(state.notices.len(), 1);
    update_inner(&mut state, Action::NoticeDismissed(0), &mut NoRandom);
    assert!(state.notices.is_empty());
}

#[test]
fn a_started_track_seeks_to_a_pending_resume() {
    let mut state = state_with(&["a", "b"]);
    state.playback.status = PlayStatus::Loading;
    state.playback.loading = true;
    state.playback.resume_position = Some(Span { secs: 42, nanos: 0 });
    let effects = update_inner(
        &mut state,
        Action::Player(PlayerEvent::TrackStarted {
            duration: Some(Span { secs: 180, nanos: 0 }),
            channels: 2,
            sample_rate: 44100,
        }),
        &mut NoRandom,
    );
    assert_eq!(
        effects,
        vec![
            Effect::Player(PlayerCommand::PrepareNext(Some(track("b")))),
            Effect::Player(PlayerCommand::Seek(Span { secs: 42, nanos: 0 })),
        ]
    );
    assert_eq!(state.playback.status, PlayStatus::Playing);
    assert_eq!(state.playback.position, Span { secs: 42, nanos: 0 });
    assert_eq!(state.playback.resume_position, None);
    assert_eq!(state.playback.track_duration, Some(Span { secs: 180, nanos: 0 }));
    assert_eq!(state.playback.queue.current().unwrap().duration, Some(Span { secs: 180, nanos: 0 }));
}

#[test]
fn play_pause_and_seek_follow_the_player_state() {
    let mut state = state_with(&["a"]);
    assert_eq!(update_inner(&mut state, Action::PlayToggled, &mut NoRandom), vec![Effect::Player(PlayerCommand::Pause)]);
    assert_eq!(state.playback.status, PlayStatus::Paused);
    assert_eq!(update_inner(&mut state, Action::PlayToggled, &mut NoRandom), vec![Effect::Player(PlayerCommand::Resume)]);
    state.playback.track_duration = Some(Span { secs: 100, nanos: 0 });
    let effects = update_inner(&mut state, Action::SeekRequested(Span { secs: 500, nanos: 0 }), &mut NoRandom);
    assert_eq!(effects, vec![Effect::Player(PlayerCommand::Seek(Span { secs: 100, nanos: 0 }))]);
    state.playback.status = PlayStatus::Stopped;
    let effects = update_inner(&mut state, Action::PlayToggled, &mut NoRandom);
    assert_eq!(effects, vec![Effect::Player(PlayerCommand::Load(track("a")))]);
    assert_eq!(state.playback.resume_position, Some(Span { secs: 100, nanos: 0 }));
}

#[test]
fn hovering_warms_a_track_once() {
    let mut state = state_with(&["a"]);
    assert_eq!(update_inner(&mut state, Action::TrackHovered(track("a")), &mut NoRandom), vec![]);
    assert_eq!(
        update_inner(&mut state, Action::TrackHovered(track("x")), &mut NoRandom),
        vec![Effect::Player(PlayerCommand::Prefetch(track("x")))]
    );
    assert_eq!(update_inner(&mut state, Action::TrackHovered(track("x")), &mut NoRandom), vec![]);
}

#[test]
fn pages_open_with_their_loads_and_back_history() {
    let mut state = state_with(&["a"]);
    let effects = update_inner(&mut state, Action::ArtistOpened(ArtistId("ar".into())), &mut NoRandom);
    assert_eq!(effects, vec![Effect::Api(ApiRequest::FetchArtist(ArtistId("ar".into())))]);
    assert_eq!(state.history, vec![Page::Library]);
    assert_eq!(update_inner(&mut state, Action::ArtistOpened(ArtistId("ar".into())), &mut NoRandom), vec![]);
    update_inner(&mut state, Action::AlbumOpened(AlbumId("al".into())), &mut NoRandom);
    assert_eq!(state.page, Page::Album(AlbumId("al".into())));
    update_inner(&mut state, Action::NowPlayingOpened, &mut NoRandom);
    assert_eq!(state.history.len(), 3);
    update_inner(&mut state, Action::NavigatedTo(Page::Search), &mut NoRandom);
    assert!(state.history.is_empty());
    assert_eq!(state.page, Page::Search);
}

#[test]
fn a_search_runs_for_the_trimmed_query_and_takes_only_its_result() {
    let mut state = state_with(&["a"]);
    update_inner(&mut state, Action::SearchInputChanged("   ".into()), &mut NoRandom);
    assert_eq!(update_inner(&mut state, Action::SearchSubmitted, &mut NoRandom), vec![]);
    update_inner(&mut state, Action::SearchInputChanged("  hello ".into()), &mut NoRandom);
    let effects = update_inner(&mut state, Action::SearchSubmitted, &mut NoRandom);
    assert_eq!(effects, vec![Effect::Api(ApiRequest::Search { request_id: 1, query: "hello".into() })]);
    update_inner(&mut state, Action::SearchLoaded(0, Err("old".into())), &mut NoRandom);
    assert!(matches!(state.search.results, Loadable::Loading));
    update_inner(&mut state, Action::SearchLoaded(1, Err("bad".into())), &mut NoRandom);
    assert!(matches!(state.search.results, Loadable::Failed(ref m) if m == "bad"));
}

#[test]
fn the_skin_window_opens_with_its_skin_and_clamps_its_scale() {
    let mut state = state_with(&["a"]);
    let effects = update_inner(&mut state, Action::Skin(SkinAction::WinampToggled), &mut NoRandom);
    assert_eq!(effects, vec![Effect::LoadSkin(None), Effect::RefreshSkinList]);
    update_inner(&mut state, Action::Skin(SkinAction::WinampScaleSet(9)), &mut NoRandom);
    assert_eq!(state.winamp.scale, 4);
    update_inner(&mut state, Action::Skin(SkinAction::WinampScaleSet(0)), &mut NoRandom);
    assert_eq!(state.winamp.scale, 1);
    let effects = update_inner(&mut state, Action::Skin(SkinAction::SkinInstalled(Ok("neon".into()))), &mut NoRandom);
    assert_eq!(effects, vec![Effect::LoadSkin(Some("neon".into()))]);
    assert_eq!(state.winamp.skin, Some("neon".into()));
    update_inner(&mut state, Action::Skin(SkinAction::SkinInstalled(Err("broken".into()))), &mut NoRandom);
    assert_eq!(state.notices, vec!["broken".to_string()]);
}

#[test]
fn a_radio_plays_its_seed_first_and_ignores_stale_results() {
    let mut state = state_with(&["a"]);
    let effects = update_inner(&mut state, Action::RadioStartRequested(track("s")), &mut NoRandom);
    assert_eq!(effects.len(), 1);
    assert!(state.discovery.radio_loading);
    let id = state.discovery.radio_request_id;
    update_inner(
        &mut state,
        Action::RadioStarted { request_id: id + 7, playback_generation: 0, seed: track("s"), result: Ok(vec![]) },
        &mut NoRandom,
    );
    assert!(state.discovery.radio_loading);
    update_inner(
        &mut state,
        Action::RadioStarted { request_id: id, playback_generation: 0, seed: track("s"), result: Ok(vec![]) },
        &mut NoRandom,
    );
    assert_eq!(state.notices, vec![NO_RADIO.to_string()]);
    update_inner(&mut state, Action::RadioStartRequested(track("s")), &mut NoRandom);
    let id = state.discovery.radio_request_id;
    let effects = update_inner(
        &mut state,
        Action::RadioStarted {
            request_id: id,
            playback_generation: 0,
            seed: track("s"),
            result: Ok(vec![track("x"), track("s"), track("y")]),
        },
        &mut NoRandom,
    );
    assert_eq!(effects, vec![Effect::Player(PlayerCommand::Load(track("s")))]);
    assert_eq!(upcoming_ids(&state), ["x", "y"]);
    update_inner(
        &mut state,
        Action::RadioStarted { request_id: 99, playback_generation: 0, seed: track("s"), result: Err("e".into()) },
        &mut NoRandom,
    );
    assert_eq!(state.notices.len(), 1);
}
