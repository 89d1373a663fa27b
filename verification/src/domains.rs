//! The reducer's rules for player reports, notices and the skin
//! window: what each does to the state and which effects it asks for.
use vstd::prelude::*;
use crate::action::PlayerEvent;
use crate::app_state::{PlaybackState, State};
use crate::effect::{Effect, PlayerCommand};
use crate::model::{opt_str, Span, TrackId};
use crate::queue::Queue;
use crate::queue_view::QueueView;
use crate::state::{LibraryState, Loadable, Page, PlayStatus, WinampSettings};
use crate::app_state::LyricsState;
use crate::discovery::{next_request_id, Discovery, Feed, FeedPage};
use crate::listening_history::history_requested;
use crate::lyrics::Lyrics;
use crate::model::opt_id;
use crate::reducer::{fetch_missing_library, library_filled, library_requests, request_effects};

verus! {

/// The id of the track a queue plays now.
pub open spec fn current_id(q: QueueView) -> Option<Seq<char>> {
    match q.current_track() {
        Some(t) => Some(t.id),
        None => None,
    }
}

/// One `PrepareNext` of the track that would play after the current one.
pub open spec fn prepares_next(e: Seq<Effect>, q: QueueView) -> bool {
    &&& e.len() == 1
    &&& e[0] matches Effect::Player(PlayerCommand::PrepareNext(n)) && crate::queue::opt_track(n)
        == q.peek_next()
}

/// The queue with the measured `duration` written onto every copy of
/// the current track, when both are known.
pub open spec fn with_measured(q: QueueView, duration: Option<Span>) -> QueueView {
    match (current_id(q), duration) {
        (Some(id), Some(d)) => q.set_duration(id, d),
        _ => q,
    }
}

/// A track started: no longer loading, playing unless paused, the
/// measured duration kept (the known one when none was measured) and
/// written onto the queue, the stream's shape recorded, the track after
/// it prepared, and a pending resume position sought to.
pub open spec fn track_started(
    p0: PlaybackState,
    duration: Option<Span>,
    channels: u16,
    sample_rate: u32,
    p1: PlaybackState,
    e: Seq<Effect>,
) -> bool {
    let d = match duration {
        Some(x) => Some(x),
        None => p0.track_duration,
    };
    let q1 = with_measured(p0.queue@, d);
    &&& p1 == PlaybackState {
        loading: false,
        status: if p0.status == PlayStatus::Paused {
            PlayStatus::Paused
        } else {
            PlayStatus::Playing
        },
        track_duration: d,
        queue: p1.queue,
        channels,
        sample_rate,
        position: match p0.resume_position {
            Some(r) => r,
            None => p0.position,
        },
        resume_position: None,
        ..p0
    }
    &&& p1.queue@ == q1
    &&& match p0.resume_position {
        Some(r) => {
            &&& e.len() == 2
            &&& prepares_next(e.take(1), q1)
            &&& e[1] == Effect::Player(PlayerCommand::Seek(r))
        },
        None => prepares_next(e, q1),
    }
}

/// A clone of an optional id.
fn clone_id(id: &Option<TrackId>) -> (r: Option<TrackId>)
    ensures
        crate::model::opt_id(r) == crate::model::opt_id(*id),
{
    match id {
        Some(x) => Some(TrackId(x.0.clone())),
        None => None,
    }
}

/// Applies a report that a track started.
pub fn start_track(p: &mut PlaybackState, duration: Option<Span>, channels: u16, sample_rate: u32) -> (e: Vec<Effect>)
    requires
        old(p).queue@.wf(),
    ensures
        track_started(*old(p), duration, channels, sample_rate, *final(p), e@),
        final(p).queue@.wf(),
{
    p.loading = false;
    if p.status != PlayStatus::Paused {
        p.status = PlayStatus::Playing;
    }
    p.track_duration = match duration {
        Some(d) => Some(d),
        None => p.track_duration,
    };
    let id = match p.queue.current() {
        Some(t) => Some(TrackId(t.id.0.clone())),
        None => None,
    };
    match (id, p.track_duration) {
        (Some(id), Some(d)) => p.queue.set_duration(&id, d),
        _ => {},
    }
    p.channels = channels;
    p.sample_rate = sample_rate;
    let mut e = vec![Effect::Player(PlayerCommand::PrepareNext(p.queue.peek_next()))];
    let ghost e0 = e@;
    match p.resume_position {
        Some(r) => {
            p.position = r;
            p.resume_position = None;
            e.push(Effect::Player(PlayerCommand::Seek(r)));
            assert(e@.take(1) =~= e0);
        },
        None => {},
    }
    e
}

/// A player report, the track's end aside: a start as `track_started`
/// says, a new position recorded, or a failure that stops playback
/// with its message.
pub open spec fn player_reported(p0: PlaybackState, event: PlayerEvent, p1: PlaybackState, e: Seq<Effect>) -> bool {
    match event {
        PlayerEvent::TrackStarted { duration, channels, sample_rate } => track_started(
            p0,
            duration,
            channels,
            sample_rate,
            p1,
            e,
        ),
        PlayerEvent::PositionChanged(position) => p1 == PlaybackState { position, ..p0 } && e.len() == 0,
        PlayerEvent::Failed(message) => {
            &&& p1 == PlaybackState {
                loading: false,
                status: PlayStatus::Stopped,
                error: p1.error,
                ..p0
            }
            &&& opt_str(p1.error) == Some(message@)
            &&& e.len() == 0
        },
        PlayerEvent::TrackEnded => true,
    }
}

/// Applies a player report other than a track's end.
pub fn apply_report(p: &mut PlaybackState, event: PlayerEvent) -> (e: Vec<Effect>)
    requires
        old(p).queue@.wf(),
        !(event is TrackEnded),
    ensures
        player_reported(*old(p), event, *final(p), e@),
        final(p).queue@.wf(),
{
    match event {
        PlayerEvent::TrackStarted { duration, channels, sample_rate } => start_track(
            p,
            duration,
            channels,
            sample_rate,
        ),
        PlayerEvent::PositionChanged(position) => {
            p.position = position;
            Vec::new()
        },
        PlayerEvent::Failed(message) => {
            p.loading = false;
            p.status = PlayStatus::Stopped;
            p.error = Some(message);
            Vec::new()
        },
        PlayerEvent::TrackEnded => Vec::new(),
    }
}

/// The skin window's actions.
pub enum SkinAction {
    WinampToggled,
    /// The scale, clamped to 1 through 4.
    WinampScaleSet(u8),
    WinampOnTopToggled,
    SkinBrowserToggled,
    /// Wears the built-in skin (`None`) or a named one.
    SkinChosen(Option<String>),
    /// An archive dropped on a window, to install and wear.
    SkinFileDropped(String),
    /// A dropped skin finished copying into the skins folder.
    SkinInstalled(Result<String, String>),
    /// The skins folder's contents, freshly listed.
    SkinListRefreshed(Vec<String>),
}

/// The scale clamped to 1 through 4.
pub open spec fn clamped_scale(scale: u8) -> u8 {
    if scale < 1 {
        1
    } else if scale > 4 {
        4
    } else {
        scale
    }
}

/// What a skin-window action does: toggling the window (opening it
/// loads the worn skin and lists the folder), setting the scale, the
/// always-on-top flag and the browser, wearing a skin (which loads it),
/// installing a dropped archive (wearing it once installed, or posting
/// the failure), and taking a fresh listing.
pub open spec fn skin_outcome(s0: State, a: SkinAction, s1: State, e: Seq<Effect>) -> bool {
    let w0 = s0.winamp;
    match a {
        SkinAction::WinampToggled => {
            &&& s1 == State { winamp: WinampSettings { open: !w0.open, ..w0 }, ..s0 }
            &&& if w0.open {
                e.len() == 0
            } else {
                &&& e.len() == 2
                &&& e[0] matches Effect::LoadSkin(k) && opt_str(k) == opt_str(w0.skin)
                &&& e[1] == Effect::RefreshSkinList
            }
        },
        SkinAction::WinampScaleSet(scale) => s1 == State {
            winamp: WinampSettings { scale: clamped_scale(scale), ..w0 },
            ..s0
        } && e.len() == 0,
        SkinAction::WinampOnTopToggled => s1 == State {
            winamp: WinampSettings { on_top: !w0.on_top, ..w0 },
            ..s0
        } && e.len() == 0,
        SkinAction::SkinBrowserToggled => s1 == State { skin_browser_open: !s0.skin_browser_open, ..s0 }
            && e.len() == 0,
        SkinAction::SkinChosen(skin) => wears(s0, opt_str(skin), s1, e),
        SkinAction::SkinFileDropped(path) => {
            &&& s1 == s0
            &&& e.len() == 1
            &&& e[0] matches Effect::InstallSkin(p) && p@ == path@
        },
        SkinAction::SkinInstalled(Ok(stem)) => wears(s0, Some(stem@), s1, e),
        SkinAction::SkinInstalled(Err(message)) => posts(s0, message@, s1) && e.len() == 0,
        SkinAction::SkinListRefreshed(names) => s1 == State {
            winamp: WinampSettings { available_skins: names, ..w0 },
            ..s0
        } && e.len() == 0,
    }
}

/// Wearing `skin`: recorded and loaded.
pub open spec fn wears(s0: State, skin: Option<Seq<char>>, s1: State, e: Seq<Effect>) -> bool {
    &&& s1 == State { winamp: WinampSettings { skin: s1.winamp.skin, ..s0.winamp }, ..s0 }
    &&& opt_str(s1.winamp.skin) == skin
    &&& e.len() == 1
    &&& e[0] matches Effect::LoadSkin(k) && opt_str(k) == skin
}

/// `s1` is `s0` with `message` posted as the newest notice.
pub open spec fn posts(s0: State, message: Seq<char>, s1: State) -> bool {
    &&& s1 == State { notices: s1.notices, ..s0 }
    &&& s1.notices@.len() == s0.notices@.len() + 1
    &&& s1.notices@.take(s0.notices@.len() as int) == s0.notices@
    &&& s1.notices@.last()@ == message
}

/// Posts `message` as the newest notice.
pub fn post_notice(state: &mut State, message: String)
    ensures
        posts(*old(state), message@, *final(state)),
{
    let ghost n0 = state.notices@;
    state.notices.push(message);
    assert(state.notices@.take(n0.len() as int) =~= n0);
}

/// A clone of an optional string.
fn clone_opt(s: &Option<String>) -> (r: Option<String>)
    ensures
        opt_str(r) == opt_str(*s),
{
    match s {
        Some(x) => Some(x.clone()),
        None => None,
    }
}

/// Wears `skin`.
fn wear_skin(state: &mut State, skin: Option<String>) -> (e: Vec<Effect>)
    ensures
        wears(*old(state), opt_str(skin), *final(state), e@),
{
    let again = clone_opt(&skin);
    state.winamp.skin = skin;
    vec![Effect::LoadSkin(again)]
}

/// Applies a skin-window action.
pub fn apply_skin(state: &mut State, action: SkinAction) -> (e: Vec<Effect>)
    ensures
        skin_outcome(*old(state), action, *final(state), e@),
{
    match action {
        SkinAction::WinampToggled => {
            state.winamp.open = !state.winamp.open;
            if !state.winamp.open {
                return Vec::new();
            }
            vec![Effect::LoadSkin(clone_opt(&state.winamp.skin)), Effect::RefreshSkinList]
        },
        SkinAction::WinampScaleSet(scale) => {
            state.winamp.scale = if scale < 1 {
                1
            } else if scale > 4 {
                4
            } else {
                scale
            };
            Vec::new()
        },
        SkinAction::WinampOnTopToggled => {
            state.winamp.on_top = !state.winamp.on_top;
            Vec::new()
        },
        SkinAction::SkinBrowserToggled => {
            state.skin_browser_open = !state.skin_browser_open;
            Vec::new()
        },
        SkinAction::SkinChosen(skin) => wear_skin(state, skin),
        SkinAction::SkinFileDropped(path) => vec![Effect::InstallSkin(path)],
        SkinAction::SkinInstalled(Ok(stem)) => wear_skin(state, Some(stem)),
        SkinAction::SkinInstalled(Err(message)) => {
            post_notice(state, message);
            Vec::new()
        },
        SkinAction::SkinListRefreshed(names) => {
            state.winamp.available_skins = names;
            Vec::new()
        },
    }
}

/// What dismissing the notice at `index` does: it leaves the list, when
/// there is one at that place.
pub open spec fn dismissed(s0: State, index: usize, s1: State) -> bool {
    if index < s0.notices@.len() {
        &&& s1 == State { notices: s1.notices, ..s0 }
        &&& s1.notices@ == s0.notices@.remove(index as int)
    } else {
        s1 == s0
    }
}

/// Dismisses the notice at `index`.
pub fn dismiss_notice(state: &mut State, index: usize)
    ensures
        dismissed(*old(state), index, *final(state)),
{
    if index < state.notices.len() {
        state.notices.remove(index);
    }
}

/// Opening or closing the lyrics panel: closing it off the now-playing
/// page drops a request in flight and asks to close the lyrics.
pub open spec fn lyrics_toggled(s0: State, s1: State, e: Seq<Effect>) -> bool {
    let l0 = s0.lyrics;
    if l0.open && !(s0.page is NowPlaying) {
        &&& s1 == State {
            lyrics: LyricsState {
                open: false,
                request_id: next_request_id(l0.request_id),
                content: if l0.content is Loading {
                    Loadable::NotAsked
                } else {
                    l0.content
                },
                ..l0
            },
            ..s0
        }
        &&& e == seq![Effect::FetchLyrics(None)]
    } else {
        s1 == State { lyrics: LyricsState { open: !l0.open, ..l0 }, ..s0 } && e.len() == 0
    }
}

pub fn toggle_lyrics(state: &mut State) -> (e: Vec<Effect>)
    ensures
        lyrics_toggled(*old(state), *final(state), e@),
{
    state.lyrics.open = !state.lyrics.open;
    let now_playing = match state.page {
        Page::NowPlaying => true,
        _ => false,
    };
    if !state.lyrics.open && !now_playing {
        state.lyrics.request_id = state.lyrics.request_id.wrapping_add(1);
        if let Loadable::Loading = state.lyrics.content {
            state.lyrics.content = Loadable::NotAsked;
        }
        let e = vec![Effect::FetchLyrics(None)];
        assert(e@ =~= seq![Effect::FetchLyrics(None)]);
        return e;
    }
    Vec::new()
}

/// Lyrics that arrived: taken only while the panel or the now-playing
/// page shows them, for the latest request and its track.
pub open spec fn lyrics_loaded(
    s0: State,
    request_id: u64,
    track: TrackId,
    result: Result<Option<Lyrics>, String>,
    s1: State,
) -> bool {
    let l0 = s0.lyrics;
    if (l0.open || s0.page is NowPlaying) && request_id == l0.request_id && opt_id(l0.track) == Some(track@) {
        s1 == State {
            lyrics: LyricsState {
                content: match result {
                    Ok(v) => Loadable::Loaded(v),
                    Err(m) => Loadable::Failed(m),
                },
                ..l0
            },
            ..s0
        }
    } else {
        s1 == s0
    }
}

pub fn load_lyrics(state: &mut State, request_id: u64, track: TrackId, result: Result<Option<Lyrics>, String>)
    ensures
        lyrics_loaded(*old(state), request_id, track, result, *final(state)),
{
    let now_playing = match state.page {
        Page::NowPlaying => true,
        _ => false,
    };
    let same = match &state.lyrics.track {
        Some(t) => t.same(&track),
        None => false,
    };
    if (state.lyrics.open || now_playing) && request_id == state.lyrics.request_id && same {
        state.lyrics.content = match result {
            Ok(lyrics) => Loadable::Loaded(lyrics),
            Err(error) => Loadable::Failed(error),
        };
    }
}

/// A refresh of the library: ignored while either list loads;
/// otherwise both lists are asked for afresh.
pub open spec fn library_refreshed(s0: State, s1: State, e: Seq<Effect>) -> bool {
    let l0 = s0.library;
    if l0.playlists is Loading || l0.playlists is Refreshing || l0.liked is Loading || l0.liked is Refreshing {
        s1 == s0 && e.len() == 0
    } else {
        let mid = LibraryState { playlists: Loadable::NotAsked, liked: Loadable::NotAsked, ..l0 };
        &&& s1 == State { library: s1.library, ..s0 }
        &&& library_filled(mid, s1.library)
        &&& e == library_requests(mid)
    }
}

pub fn refresh_library(state: &mut State) -> (e: Vec<Effect>)
    ensures
        library_refreshed(*old(state), *final(state), e@),
{
    let busy = match (&state.library.playlists, &state.library.liked) {
        (Loadable::Loading, _) | (Loadable::Refreshing(_), _) => true,
        (_, Loadable::Loading) | (_, Loadable::Refreshing(_)) => true,
        _ => false,
    };
    if busy {
        return Vec::new();
    }
    state.library.playlists = Loadable::NotAsked;
    state.library.liked = Loadable::NotAsked;
    fetch_missing_library(&mut state.library)
}

/// A request for (more of) the listening history.
pub open spec fn history_asked(s0: State, more: bool, s1: State, e: Seq<Effect>) -> bool {
    exists|r: Option<crate::effect::ApiRequest>|
        {
            &&& s1 == State { listening_history: s1.listening_history, ..s0 }
            &&& #[trigger] history_requested(s0.listening_history, more, s1.listening_history, r)
            &&& e == request_effects(r)
        }
}

pub fn ask_history(state: &mut State, more: bool) -> (e: Vec<Effect>)
    ensures
        history_asked(*old(state), more, *final(state), e@),
{
    let ghost h0 = state.listening_history;
    let r = state.listening_history.request(more);
    let ghost rr = r;
    let mut e: Vec<Effect> = Vec::new();
    match r {
        Some(q) => e.push(Effect::Api(q)),
        None => {},
    }
    assert(e@ =~= request_effects(rr));
    assert(history_requested(h0, more, state.listening_history, rr));
    e
}

/// The cached home feed: shown only while the feed has not loaded.
pub open spec fn discovery_cache_loaded(s0: State, page: FeedPage, s1: State) -> bool {
    if s0.discovery.home.loaded {
        s1 == s0
    } else {
        s1 == State {
            discovery: Discovery { home: Feed { page, loaded: true, ..s0.discovery.home }, ..s0.discovery },
            ..s0
        }
    }
}

pub fn load_discovery_cache(state: &mut State, page: FeedPage)
    ensures
        discovery_cache_loaded(*old(state), page, *final(state)),
{
    if !state.discovery.home.loaded {
        state.discovery.home.page = page;
        state.discovery.home.loaded = true;
    }
}

} // verus!
