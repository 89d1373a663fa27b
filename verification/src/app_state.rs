//! The application state the reducer writes, without the audio
//! settings (volume, balance, equalizer and lyric delays are floating
//! point and stay with the shell), and signing out of it.
use vstd::prelude::*;
use crate::discovery::{Discovery, Feed};
use crate::durations::Lookup;
use crate::effect::{Effect, PlayerCommand};
use crate::imports::Imports;
use crate::listening_history::ListeningHistory;
use crate::lyrics::Lyrics;
use crate::model::{Span, Track, TrackId};
use crate::queue::{opt_track, Queue};
use crate::queue_view::local_keep;
use crate::sign_out::{any_local, local_current, sign_out_queue, PlayerStep};
use crate::state::{
    AuthState, BrowseState, Dialog, LibraryState, Loadable, Page, PlayStatus, SearchState, SignInState,
    WinampSettings,
};

verus! {

/// The lyrics panel: whether it is open, the track it shows, and the
/// request in flight.
#[derive(Debug)]
pub struct LyricsState {
    pub open: bool,
    pub track: Option<TrackId>,
    pub request_id: u64,
    pub content: Loadable<Option<Lyrics>>,
}

/// Playback: the queue, what plays, and where.
#[derive(Debug)]
pub struct PlaybackState {
    pub error: Option<String>,
    pub loading: bool,
    pub queue: Queue,
    pub status: PlayStatus,
    pub position: Span,
    pub track_duration: Option<Span>,
    pub duration_lookup: Lookup,
    /// Where the next started track seeks to: set when a restored
    /// session resumes mid-track.
    pub resume_position: Option<Span>,
    /// The track id of the last hover prefetch.
    pub last_hover_prefetch: Option<TrackId>,
    /// When true, a radio of related songs follows the queue's end.
    pub autoplay: bool,
    /// The id of the track a running radio fetch started from.
    pub radio_request: Option<TrackId>,
    /// Local tracks whose file failed to play.
    pub failed_local: Vec<TrackId>,
    /// The decoded stream's channel count, zero until a track starts.
    pub channels: u16,
    /// The decoded stream's sample rate in Hz, zero until a track starts.
    pub sample_rate: u32,
}

/// The whole application state.
#[derive(Debug)]
pub struct State {
    pub local_mode: bool,
    pub imports: Imports,
    pub discovery: Discovery,
    pub listening_history: ListeningHistory,
    pub skin_browser_open: bool,
    pub lyrics: LyricsState,
    pub session_generation: u64,
    pub playback_generation: u64,
    pub playlist_request_id: u64,
    pub auth: AuthState,
    pub sign_in: SignInState,
    pub page: Page,
    pub search: SearchState,
    pub library: LibraryState,
    pub browse: BrowseState,
    pub playback: PlaybackState,
    pub queue_open: bool,
    pub winamp: WinampSettings,
    /// Pages the user navigated away from, most recent last.
    pub history: Vec<Page>,
    /// User-visible problem reports, newest last.
    pub notices: Vec<String>,
    pub dialog: Option<Dialog>,
    /// Tracks to add after playlist creation, by request id.
    pub pending_playlist_tracks: Vec<(u64, Option<Track>)>,
}

/// A feed that holds nothing and asks for nothing.
pub open spec fn fresh_feed(f: Feed) -> bool {
    &&& f.page.is_empty_page()
    &&& f.target is None
    &&& !f.loaded
    &&& !f.loading
    &&& f.error is None
    &&& f.request_id == 0
    &&& !f.appending
}

/// Everything of `s` that signing out starts afresh: signed out on the
/// sign-in page, with no search, library, pages, feeds, history,
/// lyrics, notices, dialog or pending playlist.
pub open spec fn starts_afresh(s: State) -> bool {
    &&& s.auth is SignedOut
    &&& !s.sign_in.saved_account
    &&& s.sign_in.client_id_draft@.len() == 0
    &&& s.sign_in.client_secret_draft@.len() == 0
    &&& s.sign_in.oauth_url is None
    &&& s.page is SignIn
    &&& s.search.request_id == 0
    &&& s.search.input@.len() == 0
    &&& s.search.results is NotAsked
    &&& s.library.playlists is NotAsked
    &&& s.library.liked is NotAsked
    &&& !s.library.liked_loading_more
    &&& s.library.incoming_liked@.len() == 0
    &&& s.library.open_playlist is NotAsked
    &&& !s.library.open_playlist_loading_more
    &&& s.library.incoming_playlist@.len() == 0
    &&& s.browse.artist is NotAsked
    &&& s.browse.album is NotAsked
    &&& s.browse.artist_fallback is None
    &&& s.discovery.radio_request_id == 0
    &&& !s.discovery.radio_loading
    &&& fresh_feed(s.discovery.home)
    &&& fresh_feed(s.discovery.collection)
    &&& s.listening_history.tracks@.len() == 0
    &&& s.listening_history.continuation is None
    &&& !s.listening_history.loading
    &&& !s.listening_history.loaded
    &&& s.listening_history.error is None
    &&& s.listening_history.request_id == 0
    &&& !s.listening_history.appending
    &&& !s.lyrics.open
    &&& s.lyrics.track is None
    &&& s.lyrics.request_id == 0
    &&& s.lyrics.content is NotAsked
    &&& !s.skin_browser_open
    &&& !s.queue_open
    &&& s.playlist_request_id == 0
    &&& s.history@.len() == 0
    &&& s.notices@.len() == 0
    &&& s.dialog is None
    &&& s.pending_playlist_tracks@.len() == 0
}

/// A feed that holds nothing.
fn fresh_discovery() -> (r: Discovery)
    ensures
        r.radio_request_id == 0,
        !r.radio_loading,
        fresh_feed(r.home),
        fresh_feed(r.collection),
{
    Discovery { radio_request_id: 0, radio_loading: false, home: Feed::default(), collection: Feed::default() }
}

/// What signing out does to the state `s0`, giving `s1` and the
/// effects `e`.
pub open spec fn sign_out_outcome(s0: State, s1: State, e: Seq<Effect>) -> bool {
    let q0 = s0.playback.queue@;
    let q = s1.playback.queue@;
    let p0 = s0.playback;
    let p = s1.playback;
    let remote = q0.current_track() matches Some(t) && !t.is_local();
    &&& starts_afresh(s1)
    &&& s1.session_generation == s0.session_generation + 1
    &&& s1.playback_generation == s0.playback_generation
    &&& s1.winamp == s0.winamp
    &&& s1.imports == s0.imports
    &&& q == q0.retain(local_keep(None))
    &&& q.wf()
    &&& s1.local_mode == (s0.imports@.jobs.len() > 0 || local_current(q)
        || any_local(q.upcoming()))
    &&& p.last_hover_prefetch is None
    &&& p.radio_request is None
    &&& p.duration_lookup.session_id() == 0
    &&& p.duration_lookup.pending_ids().len() == 0
    &&& p.duration_lookup.counts().len() == 0
    &&& p.autoplay == p0.autoplay
    &&& p.failed_local == p0.failed_local
    &&& remote ==> {
        &&& p.error is None
        &&& !p.loading
        &&& p.status == PlayStatus::Stopped
        &&& p.position == Span { secs: 0, nanos: 0 }
        &&& p.track_duration is None
        &&& p.resume_position is None
        &&& p.channels == 0
        &&& p.sample_rate == 0
    }
    &&& !remote ==> {
        &&& p.error == p0.error
        &&& p.loading == p0.loading
        &&& p.status == p0.status
        &&& p.position == p0.position
        &&& p.track_duration == p0.track_duration
        &&& p.resume_position == p0.resume_position
        &&& p.channels == p0.channels
        &&& p.sample_rate == p0.sample_rate
    }
    &&& remote ==> e == seq![
        Effect::Player(PlayerCommand::Stop),
        Effect::ClearCredentials,
        Effect::ClearLibraryCache,
    ]
    &&& !remote && local_current(q) ==> {
        &&& e.len() == 3
        &&& e[0] == Effect::ClearCredentials
        &&& e[1] == Effect::ClearLibraryCache
        &&& e[2] matches Effect::Player(PlayerCommand::PrepareNext(n)) && opt_track(n)
            == q.peek_next()
    }
    &&& !remote && !local_current(q) ==> e == seq![
        Effect::ClearCredentials,
        Effect::ClearLibraryCache,
    ]
}

/// Back to the sign-in page with a fresh state. Playback stops when a
/// remote track played, and the queue keeps only local files: nothing
/// of the account stays audible. The playback settings, the skin window,
/// the imports and the playback generation stay; the session generation
/// moves on, so results for the old session are ignored. The effects
/// are a stop of the player when a remote track played, the clearing of
/// the stored credentials and the library cache, and, when a local
/// track stays current, the preparing of the track after it.
pub fn sign_out(state: &mut State) -> (effects: Vec<Effect>)
    requires
        old(state).session_generation < u64::MAX,
        old(state).playback.queue@.wf(),
    ensures
        sign_out_outcome(*old(state), *final(state), effects@),
{
    let pending_import = state.imports.pending();
    let plan = sign_out_queue(&mut state.playback.queue, pending_import);
    state.playback.last_hover_prefetch = None;
    state.playback.radio_request = None;
    state.playback.duration_lookup = Lookup::new(0);
    if plan.had_remote_current {
        state.playback.error = None;
        state.playback.loading = false;
        state.playback.status = PlayStatus::Stopped;
        state.playback.position = Span { secs: 0, nanos: 0 };
        state.playback.track_duration = None;
        state.playback.resume_position = None;
        state.playback.channels = 0;
        state.playback.sample_rate = 0;
    }
    state.session_generation = state.session_generation + 1;
    state.local_mode = plan.local_mode;
    state.discovery = fresh_discovery();
    state.listening_history = ListeningHistory::default();
    state.skin_browser_open = false;
    state.lyrics = LyricsState { open: false, track: None, request_id: 0, content: Loadable::NotAsked };
    state.playlist_request_id = 0;
    state.auth = AuthState::SignedOut;
    state.sign_in = SignInState {
        saved_account: false,
        client_id_draft: String::new(),
        client_secret_draft: String::new(),
        oauth_url: None,
    };
    state.page = Page::SignIn;
    state.search = SearchState { request_id: 0, input: String::new(), results: Loadable::NotAsked };
    state.library = LibraryState {
        playlists: Loadable::NotAsked,
        liked: Loadable::NotAsked,
        liked_loading_more: false,
        incoming_liked: Vec::new(),
        open_playlist: Loadable::NotAsked,
        open_playlist_loading_more: false,
        incoming_playlist: Vec::new(),
    };
    state.browse = BrowseState { artist: Loadable::NotAsked, album: Loadable::NotAsked, artist_fallback: None };
    state.queue_open = false;
    state.history = Vec::new();
    state.notices = Vec::new();
    state.dialog = None;
    state.pending_playlist_tracks = Vec::new();
    let mut effects: Vec<Effect> = Vec::new();
    match plan.player {
        PlayerStep::Stop => {
            effects.push(Effect::Player(PlayerCommand::Stop));
            effects.push(Effect::ClearCredentials);
            effects.push(Effect::ClearLibraryCache);
            assert(effects@ =~= seq![
                Effect::Player(PlayerCommand::Stop),
                Effect::ClearCredentials,
                Effect::ClearLibraryCache,
            ]);
        },
        PlayerStep::PrepareNext(next) => {
            effects.push(Effect::ClearCredentials);
            effects.push(Effect::ClearLibraryCache);
            effects.push(Effect::Player(PlayerCommand::PrepareNext(next)));
        },
        PlayerStep::Nothing => {
            effects.push(Effect::ClearCredentials);
            effects.push(Effect::ClearLibraryCache);
            assert(effects@ =~= seq![Effect::ClearCredentials, Effect::ClearLibraryCache]);
        },
    }
    effects
}

} // verus!
