use ytamp::app_state::{sign_out, LyricsState, PlaybackState, State};
use ytamp::discovery::Discovery;
use ytamp::durations::Lookup;
use ytamp::effect::{Effect, PlayerCommand};
use ytamp::imports::Imports;
use ytamp::listening_history::ListeningHistory;
use ytamp::model::{MediaSource, Span, Track, TrackId};
use ytamp::state::{
    AuthState, BrowseState, LibraryState, Loadable, Page, PlayStatus, SearchState, SignInState,
    WinampSettings,
};
use ytamp::queue::Queue;
use ytamp::random::RandomBelow;
use ytamp::sign_out::{sign_out_queue, PlayerStep};

struct NoRandom;

impl RandomBelow for NoRandom {
    fn random_below(&mut self, _n: usize) -> usize {
        0
    }
}

fn track(id: &str, local: bool) -> Track {
    Track {
        source: if local {
            MediaSource::LocalFile { path: id.into() }
        } else {
            MediaSource::YouTube
        },
        id: TrackId(id.to_string()),
        title: id.to_string(),
        artists: vec![],
        album: None,
        album_id: None,
        duration: None,
        thumbnail_url: None,
        playlist_item_id: None,
    }
}

#[test]
fn signing_out_stops_a_youtube_track_and_keeps_local_ones() {
    let mut queue = Queue::default();
    queue.play_context(vec![track("remote", false), track("local", true)], 0, &mut NoRandom);
    let plan = sign_out_queue(&mut queue, false);
    assert!(plan.had_remote_current);
    assert!(plan.local_mode);
    assert_eq!(plan.player, PlayerStep::Stop);
    let upcoming: Vec<String> = queue.upcoming().iter().map(|t| t.id.0.clone()).collect();
    assert_eq!(upcoming, ["local"]);
}

#[test]
fn a_local_track_plays_on_after_signing_out() {
    let mut queue = Queue::default();
    queue.play_context(vec![track("one", true), track("remote", false), track("two", true)], 0, &mut NoRandom);
    let plan = sign_out_queue(&mut queue, false);
    assert!(!plan.had_remote_current);
    assert!(matches!(plan.player, PlayerStep::PrepareNext(Some(ref t)) if t.id.0 == "two"));
}

#[test]
fn an_empty_queue_leaves_local_mode_to_a_running_import() {
    let mut queue = Queue::default();
    assert_eq!(sign_out_queue(&mut queue, false).player, PlayerStep::Nothing);
    assert!(!sign_out_queue(&mut queue, false).local_mode);
    assert!(sign_out_queue(&mut queue, true).local_mode);
}

fn signed_in_state(queue: Queue) -> State {
    State {
        local_mode: false,
        imports: Imports::default(),
        discovery: Discovery::default(),
        listening_history: ListeningHistory::default(),
        skin_browser_open: true,
        lyrics: LyricsState { open: true, track: None, request_id: 9, content: Loadable::Loading },
        session_generation: 4,
        playback_generation: 7,
        playlist_request_id: 3,
        auth: AuthState::SignedIn,
        sign_in: SignInState { saved_account: true, ..SignInState::default() },
        page: Page::Library,
        search: SearchState { request_id: 2, input: "q".into(), results: Loadable::Loading },
        library: LibraryState {
            playlists: Loadable::Loading,
            liked: Loadable::NotAsked,
            liked_loading_more: false,
            incoming_liked: vec![],
            open_playlist: Loadable::NotAsked,
            open_playlist_loading_more: false,
            incoming_playlist: vec![],
        },
        browse: BrowseState { artist: Loadable::NotAsked, album: Loadable::NotAsked, artist_fallback: None },
        playback: PlaybackState {
            error: None,
            loading: false,
            queue,
            status: PlayStatus::Playing,
            position: Span { secs: 30, nanos: 0 },
            track_duration: Some(Span { secs: 200, nanos: 0 }),
            duration_lookup: Lookup::new(4),
            resume_position: None,
            last_hover_prefetch: Some(TrackId("h".into())),
            autoplay: false,
            radio_request: None,
            failed_local: vec![],
            channels: 2,
            sample_rate: 44100,
        },
        queue_open: true,
        winamp: WinampSettings { scale: 3, ..WinampSettings::default() },
        history: vec![Page::Home],
        notices: vec!["n".into()],
        dialog: None,
        pending_playlist_tracks: vec![(1, None)],
    }
}

#[test]
fn signing_out_stops_remote_playback_and_starts_afresh() {
    let mut queue = Queue::default();
    queue.play_context(vec![track("remote", false), track("local", true)], 0, &mut NoRandom);
    let mut state = signed_in_state(queue);
    let effects = sign_out(&mut state);
    assert_eq!(
        effects,
        vec![Effect::Player(PlayerCommand::Stop), Effect::ClearCredentials, Effect::ClearLibraryCache]
    );
    assert_eq!(state.auth, AuthState::SignedOut);
    assert_eq!(state.page, Page::SignIn);
    assert_eq!(state.session_generation, 5);
    assert_eq!(state.playback_generation, 7);
    assert_eq!(state.winamp.scale, 3);
    assert_eq!(state.playback.status, PlayStatus::Stopped);
    assert_eq!(state.playback.channels, 0);
    assert!(!state.playback.autoplay);
    assert!(state.playback.queue.current().is_none());
    assert!(state.local_mode);
    assert!(state.notices.is_empty() && state.history.is_empty());
    assert!(state.pending_playlist_tracks.is_empty());
}

#[test]
fn signing_out_keeps_a_local_track_playing_and_prepares_the_next() {
    let mut queue = Queue::default();
    queue.play_context(
        vec![track("a", true), track("remote", false), track("b", true)],
        0,
        &mut NoRandom,
    );
    let mut state = signed_in_state(queue);
    let effects = sign_out(&mut state);
    assert_eq!(
        effects,
        vec![
            Effect::ClearCredentials,
            Effect::ClearLibraryCache,
            Effect::Player(PlayerCommand::PrepareNext(Some(track("b", true)))),
        ]
    );
    assert_eq!(state.playback.status, PlayStatus::Playing);
    assert_eq!(state.playback.position, Span { secs: 30, nanos: 0 });
}
