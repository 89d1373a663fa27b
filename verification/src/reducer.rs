//! The reducer for the actions of sign-in, the queue and the
//! transport: one action in, the next state and the effects out, with
//! no clock, network or audio device. Actions that carry audio
//! settings (volume, balance, equalizer, lyric delays) are floating
//! point and stay with the shell.
use vstd::prelude::*;
use crate::app_state::{sign_out, sign_out_outcome, LyricsState, PlaybackState, State};
use crate::discovery::{feed_requested, home_view, next_request_id, Discovery, Target};
use crate::auth_flow::{auth_effect_view, auth_step, auth_view, AuthAction, AuthActionView, AuthSession, SessionView};
use crate::effect::{ApiRequest, Effect, PlayerCommand};
use crate::model::{Span, Track, TrackId, TrackView};
use crate::queue::{opt_track, Queue};
use crate::queue_view::QueueView;
use crate::random::{record, RandomBelow};
use crate::state::{AuthState, LibraryState, Loadable, Page, PlayStatus, SignInState};
use crate::model::{opt_id, opt_str};
use crate::domains::{
    apply_report, apply_skin, ask_history, current_id, discovery_cache_loaded, dismiss_notice, dismissed,
    history_asked, library_refreshed, load_discovery_cache, load_lyrics, lyrics_loaded, lyrics_toggled,
    player_reported, post_notice, posts, refresh_library, skin_outcome, toggle_lyrics, SkinAction,
};
use crate::listening_history::{history_applied, HistoryPage};
use crate::lyrics::Lyrics;
use crate::discovery::{FeedPage, Shelf};
use crate::model::{AlbumPage, ArtistRef, Playlist, PlaylistId};
use crate::reply::LibraryWrite;
use crate::state::Dialog;
use crate::library_writes::{
    add_track_to_playlist, counts_fit, create_requested, dialog_opened, draft_changed, finish_library_write,
    finish_playlist_create, finish_playlist_item_add, item_added, like_toggled, open_create_dialog,
    playlist_created, remove_track_from_playlist, request_playlist_create, set_create_playlist_draft,
    toggle_track_like, track_added, track_removed, write_finished,
};
use crate::library_loads::{
    album_loaded, apply_library_cache, apply_playlist_tracks_cache, covers_loaded, finish_album_load,
    finish_liked_load, finish_liked_page, finish_playlist_covers_load, finish_playlist_load,
    finish_playlist_tracks_page, finish_playlists_load, library_cache_loaded, liked_loaded, liked_page_loaded,
    playlist_cache_loaded, playlist_page_loaded, playlist_tracks_loaded, playlists_loaded,
};
use crate::navigation::{artist_link_opened, go_back, open_artist_link, open_playlist, open_shelf, playlist_opened, shelf_opened, went_back};
use crate::action::PlayerEvent;
use crate::model::{AlbumId, ArtistId, SearchResults};
use crate::navigation::{
    album_opened, artist_opened, name_searched, navigated, now_playing_opened, search_loaded,
    search_submitted,
};

verus! {

/// The actions this reducer takes.
pub enum Action {
    Auth(AuthAction),
    SignOutRequested,
    /// A report of the player engine.
    Player(PlayerEvent),
    /// A player report for the playback `generation`: stale once the
    /// player was told to load or stop since.
    ForPlayback { generation: u64, event: PlayerEvent },
    /// A result for the session `generation`: stale once the session
    /// changed since.
    ForSession { generation: u64, action: Box<Action> },
    NoticeDismissed(usize),
    NoticePosted(String),
    Skin(SkinAction),
    NavigatedTo(Page),
    SearchInputChanged(String),
    SearchSubmitted,
    SearchLoaded(u64, Result<SearchResults, String>),
    ArtistOpened(ArtistId),
    AlbumOpened(AlbumId),
    /// A click on an artist name with no channel id: a search for it.
    ArtistSearchRequested(String),
    NowPlayingOpened,
    PlayToggled,
    PlaybackRetryRequested,
    SeekRequested(Span),
    ContextPlayed { tracks: Vec<Track>, start: usize },
    /// The pointer rested on a track row long enough to warm its audio.
    TrackHovered(Track),
    RadioStartCancelled,
    RadioStartRequested(Track),
    RadioStarted {
        request_id: u64,
        playback_generation: u64,
        seed: Track,
        result: Result<Vec<Track>, String>,
    },
    NextPressed,
    PreviousPressed,
    QueueRemoved(usize),
    TrackPlayNext(Track),
    TrackQueued(Track),
    /// A double click on an upcoming row: plays the track at this index.
    QueueJumped(usize),
    QueueSelectionRemoved(Vec<usize>),
    QueueSelectionMoved { selected: Vec<usize>, before: usize },
    QueueCleared,
    ShuffleToggled,
    RepeatCycled,
    AutoplayToggled,
    QueuePanelToggled,
    LyricsToggled,
    /// Forgets the lyrics shown, so that they are asked for again.
    LyricsReloadRequested,
    LyricsLoaded { request_id: u64, track: TrackId, result: Result<Option<Lyrics>, String> },
    HistoryRequested { more: bool },
    HistoryLoaded { request_id: u64, result: Result<HistoryPage, String> },
    LibraryRefreshRequested,
    /// The home feed as the last session cached it.
    DiscoveryCacheLoaded(FeedPage),
    PlaylistOpened(PlaylistId),
    ArtistLinkOpened(ArtistRef),
    DiscoveryShelfOpened(Shelf),
    BackPressed,
    PlaylistsLoaded(Result<Vec<Playlist>, String>),
    PlaylistCoversLoaded(Vec<(PlaylistId, String)>),
    LikedLoaded(Result<Vec<Track>, String>),
    PlaylistTracksLoaded(PlaylistId, Result<Vec<Track>, String>),
    AlbumLoaded(AlbumId, Result<AlbumPage, String>),
    LikedPageLoaded { tracks: Vec<Track>, finished: bool },
    PlaylistTracksPageLoaded { id: PlaylistId, tracks: Vec<Track>, finished: bool },
    LibraryCacheLoaded { playlists: Option<Vec<Playlist>>, liked: Option<Vec<Track>> },
    PlaylistTracksCacheLoaded(PlaylistId, Vec<Track>),
    TrackLikeToggled(Track),
    TrackAddedToPlaylist { playlist: PlaylistId, track: Track },
    TrackRemovedFromPlaylist { playlist: PlaylistId, item_id: String },
    PlaylistCreateRequested(String),
    /// Opens the "New playlist" dialog, with the track to add once the
    /// playlist exists.
    CreatePlaylistDialogOpened(Option<Track>),
    CreatePlaylistDraftChanged(String),
    DialogDismissed,
    PlaylistItemAdded { playlist: PlaylistId, track: Track, result: Result<String, String> },
    PlaylistCreated(u64, Result<Playlist, String>),
    LibraryWriteFinished { what: LibraryWrite, result: Result<(), String> },
    ArtistLoaded(ArtistId, Result<crate::model::ArtistPage, String>),
    /// Shuffle play of the liked songs.
    LikedShuffleRequested,
    /// The radio that autoplay asked for after the track `0`.
    RadioLoaded(TrackId, Result<Vec<Track>, String>),
    DiscoveryOpened(crate::discovery::Entry),
    DiscoveryRequested { more: bool },
    DiscoveryLoaded { request_id: u64, target: crate::discovery::Target, result: Result<FeedPage, String> },
}

/// Every playlist count shown leaves room to move by one.
pub open spec fn counts_within(slot: Loadable<Vec<Playlist>>) -> bool {
    match slot.shown() {
        Some(v) => forall|i: int|
            0 <= i < v@.len() ==> ((#[trigger] v@[i]).track_count matches Some(c) ==> c < i64::MAX),
        None => true,
    }
}

/// A new playlist that an action carries leaves room in its count to
/// move by one.
pub open spec fn action_fits(a: Action) -> bool
    decreases a,
{
    match a {
        Action::PlaylistCreated(_, Ok(p)) => p.track_count matches Some(c) ==> c < i64::MAX,
        Action::ForSession { action, .. } => action_fits(*action),
        _ => true,
    }
}

/// Counts with room to move by one fit a move by one either way.
proof fn lemma_counts_fit(slot: Loadable<Vec<Playlist>>, id: PlaylistId)
    requires
        counts_within(slot),
    ensures
        counts_fit(slot, id, 1),
        counts_fit(slot, id, -1i64),
{
    if let Some(v) = slot.shown() {
        assert forall|i: int| 0 <= i < v@.len() && #[trigger] v@[i].id@ == id@ && v@[i].track_count is Some implies v@[i].track_count->0
            <= i64::MAX && i64::MIN <= v@[i].track_count->0 + 1 <= i64::MAX by {
            assert(v@[i].track_count matches Some(c) ==> c < i64::MAX);
        }
        assert forall|i: int| 0 <= i < v@.len() && #[trigger] v@[i].id@ == id@ && v@[i].track_count is Some implies v@[i].track_count->0
            <= i64::MAX && i64::MIN <= v@[i].track_count->0 + (-1i64) <= i64::MAX by {
            assert(v@[i].track_count matches Some(c) ==> c < i64::MAX);
        }
    }
}

/// How far into a track Previous restarts it instead of stepping back:
/// three seconds.
pub const RESTART_SECS: u64 = 3;

/// The state's invariant: its queue is well formed, no playlist create
/// request waits twice, and no local file is marked failed twice.
pub open spec fn state_wf(s: State) -> bool {
    &&& s.playback.queue@.wf()
    &&& distinct_keys(s.pending_playlist_tracks@)
    &&& distinct_ids(s.playback.failed_local@)
}

/// No key occurs twice among the pairs of `p`.
pub open spec fn distinct_keys<V>(p: Seq<(u64, V)>) -> bool {
    forall|a: int, b: int| 0 <= a < b < p.len() ==> #[trigger] p[a].0 != #[trigger] p[b].0
}

/// No id occurs twice in `ids`.
pub open spec fn distinct_ids(ids: Seq<TrackId>) -> bool {
    forall|a: int, b: int| 0 <= a < b < ids.len() ==> #[trigger] ids[a]@ != #[trigger] ids[b]@
}

/// The zero span.
pub open spec fn zero_span() -> Span {
    Span { secs: 0, nanos: 0 }
}

/// `p1` is `p0` with at most the queue and the transport fields changed.
pub open spec fn transport_only(p0: PlaybackState, p1: PlaybackState) -> bool {
    p1 == PlaybackState {
        queue: p1.queue,
        error: p1.error,
        resume_position: p1.resume_position,
        loading: p1.loading,
        status: p1.status,
        position: p1.position,
        track_duration: p1.track_duration,
        radio_request: p1.radio_request,
        ..p0
    }
}

/// `s1` is `s0` with at most its playback changed.
pub open spec fn playback_only(s0: State, s1: State) -> bool {
    s1 == State { playback: s1.playback, ..s0 }
}

/// Loading `t`: the error and a pending resume cleared, the player
/// loading from the start with the track's known duration, and one
/// `Load` of `t`.
pub open spec fn loads(p0: PlaybackState, p1: PlaybackState, t: TrackView, e: Seq<Effect>) -> bool {
    &&& p1.error is None
    &&& p1.resume_position is None
    &&& p1.loading
    &&& p1.status == PlayStatus::Loading
    &&& p1.position == zero_span()
    &&& p1.track_duration == t.duration
    &&& p1.radio_request == p0.radio_request
    &&& e.len() == 1
    &&& e[0] matches Effect::Player(PlayerCommand::Load(x)) && x@ == t
}

/// Stopping: nothing when already stopped; otherwise not loading,
/// stopped, and one `Stop`.
pub open spec fn stops(p0: PlaybackState, p1: PlaybackState, e: Seq<Effect>) -> bool {
    &&& p1.error == p0.error
    &&& p1.resume_position == p0.resume_position
    &&& p1.position == p0.position
    &&& p1.track_duration == p0.track_duration
    &&& p1.radio_request == p0.radio_request
    &&& if p0.status == PlayStatus::Stopped {
        &&& p1.loading == p0.loading
        &&& p1.status == p0.status
        &&& e.len() == 0
    } else {
        &&& !p1.loading
        &&& p1.status == PlayStatus::Stopped
        &&& e == seq![Effect::Player(PlayerCommand::Stop)]
    }
}

/// Asking for a radio from the track `id`: loading, the request
/// remembered, and one `FetchRadio`.
pub open spec fn fetches_radio(p0: PlaybackState, p1: PlaybackState, id: Seq<char>, e: Seq<Effect>) -> bool {
    &&& p1.error is None
    &&& p1.resume_position is None
    &&& p1.loading
    &&& p1.status == PlayStatus::Loading
    &&& p1.position == p0.position
    &&& p1.track_duration == p0.track_duration
    &&& p1.radio_request matches Some(r) && r@ == id
    &&& e.len() == 1
    &&& e[0] matches Effect::Api(ApiRequest::FetchRadio(i)) && i@ == id
}

/// A queue step's track loaded, or playback stopped when it gives none.
pub open spec fn load_or_stop(p0: PlaybackState, p1: PlaybackState, next: Option<TrackView>, e: Seq<Effect>) -> bool {
    match next {
        Some(t) => loads(p0, p1, t, e),
        None => stops(p0, p1, e),
    }
}

/// A skip's outcome: its track loaded; with none, a radio from the
/// track that was playing when autoplay is on, else a stop.
pub open spec fn advances(
    p0: PlaybackState,
    p1: PlaybackState,
    step: (QueueView, Option<TrackView>),
    e: Seq<Effect>,
) -> bool {
    &&& p1.queue@ == step.0
    &&& match step.1 {
        Some(t) => loads(p0, p1, t, e),
        None => match p0.queue@.current_track() {
            Some(c) => if p0.autoplay {
                fetches_radio(p0, p1, c.id, e)
            } else {
                stops(p0, p1, e)
            },
            None => stops(p0, p1, e),
        },
    }
}

/// One `PrepareNext` of the track that would play after the current one.
pub open spec fn prepares_next(e: Seq<Effect>, q: QueueView) -> bool {
    &&& e.len() == 1
    &&& e[0] matches Effect::Player(PlayerCommand::PrepareNext(n)) && opt_track(n) == q.peek_next()
}

/// A queue edit: only the queue changes, to `q`, and the track after
/// the current one is prepared.
pub open spec fn edits_queue(s0: State, s1: State, q: QueueView, e: Seq<Effect>) -> bool {
    &&& playback_only(s0, s1)
    &&& s1.playback == PlaybackState { queue: s1.playback.queue, ..s0.playback }
    &&& s1.playback.queue@ == q
    &&& prepares_next(e, q)
}

/// `r` lists distinct indices from the highest down.
pub open spec fn strictly_descending(r: Seq<usize>) -> bool {
    forall|a: int, b: int| 0 <= a < b < r.len() ==> r[a] > r[b]
}

/// The queue after removing the upcoming entries at `r`, one by one in
/// that order.
pub open spec fn removed_each(q: QueueView, r: Seq<usize>) -> QueueView
    decreases r.len(),
{
    if r.len() == 0 {
        q
    } else {
        removed_each(q.remove_upcoming(r[0]), r.drop_first())
    }
}

/// The stopping of playback, unless it has already stopped.
fn stop_playback(p: &mut PlaybackState) -> (e: Vec<Effect>)
    ensures
        stops(*old(p), *final(p), e@),
        transport_only(*old(p), *final(p)),
        final(p).queue == old(p).queue,
{
    if p.status == PlayStatus::Stopped {
        return Vec::new();
    }
    p.loading = false;
    p.status = PlayStatus::Stopped;
    let e = vec![Effect::Player(PlayerCommand::Stop)];
    proof {
        assert(e@ =~= seq![Effect::Player(PlayerCommand::Stop)]);
    }
    e
}

/// The loading of `track`.
fn load_track(p: &mut PlaybackState, track: Track) -> (e: Vec<Effect>)
    ensures
        loads(*old(p), *final(p), track@, e@),
        transport_only(*old(p), *final(p)),
        final(p).queue == old(p).queue,
{
    p.error = None;
    p.resume_position = None;
    p.loading = true;
    p.status = PlayStatus::Loading;
    p.position = Span { secs: 0, nanos: 0 };
    p.track_duration = track.duration;
    vec![Effect::Player(PlayerCommand::Load(track))]
}

/// The asking for a radio from the track `id`.
fn start_radio_fetch(p: &mut PlaybackState, id: TrackId) -> (e: Vec<Effect>)
    ensures
        fetches_radio(*old(p), *final(p), id@, e@),
        transport_only(*old(p), *final(p)),
        final(p).queue == old(p).queue,
{
    p.error = None;
    p.resume_position = None;
    p.loading = true;
    p.status = PlayStatus::Loading;
    p.radio_request = Some(TrackId(id.0.clone()));
    vec![Effect::Api(ApiRequest::FetchRadio(id))]
}

/// The effect that prepares the track after the current one.
fn prefetch_next(q: &Queue) -> (e: Vec<Effect>)
    requires
        q@.wf(),
    ensures
        prepares_next(e@, q@),
{
    vec![Effect::Player(PlayerCommand::PrepareNext(q.peek_next()))]
}

/// The id of `t`.
fn id_of(t: &Track) -> (r: TrackId)
    ensures
        r@ == t@.id,
{
    TrackId(t.id.0.clone())
}

/// Loads what a skip or a track end gives; with nothing, a radio from
/// the track that was playing when autoplay is on, else a stop.
fn finish_advance(p: &mut PlaybackState, previous: Option<TrackId>, next: Option<Track>) -> (e: Vec<Effect>)
    ensures
        transport_only(*old(p), *final(p)),
        final(p).queue == old(p).queue,
        match next {
            Some(t) => loads(*old(p), *final(p), t@, e@),
            None => match previous {
                Some(c) => if old(p).autoplay {
                    fetches_radio(*old(p), *final(p), c@, e@)
                } else {
                    stops(*old(p), *final(p), e@)
                },
                None => stops(*old(p), *final(p), e@),
            },
        },
{
    match next {
        Some(track) => load_track(p, track),
        None => match previous {
            Some(id) => if p.autoplay {
                start_radio_fetch(p, id)
            } else {
                stop_playback(p)
            },
            None => stop_playback(p),
        },
    }
}

/// Whether `x` lies below `bound` (anything does, with no bound).
pub open spec fn below(x: usize, bound: Option<usize>) -> bool {
    match bound {
        Some(b) => x < b,
        None => true,
    }
}

/// The largest element of `v` below `bound`.
fn largest_below(v: &Vec<usize>, bound: Option<usize>) -> (r: Option<usize>)
    ensures
        match r {
            Some(x) => v@.contains(x) && below(x, bound) && forall|k: int|
                0 <= k < v@.len() && below(#[trigger] v@[k], bound) ==> v@[k] <= x,
            None => forall|k: int| 0 <= k < v@.len() ==> !below(#[trigger] v@[k], bound),
        },
{
    let mut best: Option<usize> = None;
    let mut i: usize = 0;
    while i < v.len()
        invariant
            i <= v@.len(),
            match best {
                Some(x) => v@.contains(x) && below(x, bound) && forall|k: int|
                    0 <= k < i && below(#[trigger] v@[k], bound) ==> v@[k] <= x,
                None => forall|k: int| 0 <= k < i ==> !below(#[trigger] v@[k], bound),
            },
        decreases v@.len() - i,
    {
        let x = v[i];
        let fits = match bound {
            Some(b) => x < b,
            None => true,
        };
        if fits {
            match best {
                Some(y) => if x > y {
                    best = Some(x);
                },
                None => best = Some(x),
            }
        }
        i = i + 1;
    }
    best
}

/// The distinct elements of `v`, from the highest down.
fn descending_unique(v: &Vec<usize>) -> (r: Vec<usize>)
    ensures
        strictly_descending(r@),
        forall|x: usize| r@.contains(x) <==> v@.contains(x),
{
    let mut r: Vec<usize> = Vec::new();
    let mut bound: Option<usize> = None;
    loop
        invariant
            strictly_descending(r@),
            forall|x: usize| r@.contains(x) ==> v@.contains(x),
            r@.len() == 0 <==> bound is None,
            bound matches Some(b) ==> r@.len() > 0 && r@.last() == b,
            forall|k: int| 0 <= k < v@.len() && !below(#[trigger] v@[k], bound) ==> r@.contains(v@[k]),
        ensures
            strictly_descending(r@),
            forall|x: usize| r@.contains(x) <==> v@.contains(x),
        decreases match bound {
            Some(b) => b as int,
            None => usize::MAX as int + 1,
        },
    {
        match largest_below(v, bound) {
            None => {
                proof {
                    assert forall|x: usize| v@.contains(x) implies r@.contains(x) by {
                        let k = choose|k: int| 0 <= k < v@.len() && v@[k] == x;
                        assert(!below(v@[k], bound));
                    }
                }
                return r;
            },
            Some(x) => {
                let ghost r0 = r@;
                let ghost b0 = bound;
                r.push(x);
                bound = Some(x);
                proof {
                    assert forall|a: int, b: int| 0 <= a < b < r@.len() implies r@[a] > r@[b] by {
                        if b == r@.len() - 1 && a < r0.len() {
                            assert(r0[a] >= r0.last());
                            if a < r0.len() - 1 {
                                assert(r0[a] > r0[r0.len() - 1]);
                            }
                        }
                    }
                    assert forall|y: usize| r@.contains(y) implies v@.contains(y) by {
                        if y != x {
                            let k = choose|k: int| 0 <= k < r@.len() && r@[k] == y;
                            assert(r0[k] == y);
                        }
                    }
                    assert forall|k: int| 0 <= k < v@.len() && !below(#[trigger] v@[k], bound) implies r@.contains(
                        v@[k],
                    ) by {
                        if !below(v@[k], b0) {
                            let j = choose|j: int| 0 <= j < r0.len() && r0[j] == v@[k];
                            assert(r@[j] == v@[k]);
                        } else {
                            assert(v@[k] <= x);
                            assert(v@[k] == x);
                            assert(r@[r@.len() - 1] == x);
                        }
                    }
                }
            },
        }
    }
}

/// A list that is to be fetched: never asked for, or failed.
pub open spec fn wanted<T>(l: Loadable<T>) -> bool {
    l is NotAsked || l is Failed
}

/// The requests that filling in the library asks for: the playlists
/// and the liked songs where wanted, then the cached copies of both.
pub open spec fn library_requests(l: LibraryState) -> Seq<Effect> {
    (if wanted(l.playlists) {
        seq![Effect::Api(ApiRequest::FetchPlaylists)]
    } else {
        Seq::empty()
    }) + (if wanted(l.liked) {
        seq![Effect::Api(ApiRequest::FetchLiked)]
    } else {
        Seq::empty()
    }) + (if wanted(l.playlists) || wanted(l.liked) {
        seq![Effect::LoadLibraryCache]
    } else {
        Seq::empty()
    })
}

/// The library after filling in what is missing: each wanted list
/// loading, the liked list starting from no pages.
pub open spec fn library_filled(l0: LibraryState, l1: LibraryState) -> bool {
    &&& l1 == LibraryState {
        playlists: l1.playlists,
        liked: l1.liked,
        liked_loading_more: l1.liked_loading_more,
        incoming_liked: l1.incoming_liked,
        ..l0
    }
    &&& if wanted(l0.playlists) {
        l1.playlists is Loading
    } else {
        l1.playlists == l0.playlists
    }
    &&& if wanted(l0.liked) {
        &&& l1.liked is Loading
        &&& !l1.liked_loading_more
        &&& l1.incoming_liked@.len() == 0
    } else {
        &&& l1.liked == l0.liked
        &&& l1.liked_loading_more == l0.liked_loading_more
        &&& l1.incoming_liked == l0.incoming_liked
    }
}

/// Asks for the parts of the library never loaded or failed.
pub(crate) fn fetch_missing_library(l: &mut LibraryState) -> (e: Vec<Effect>)
    ensures
        library_filled(*old(l), *final(l)),
        e@ == library_requests(*old(l)),
{
    let mut e: Vec<Effect> = Vec::new();
    let mut needs_cache = false;
    let playlists_wanted = match &l.playlists {
        Loadable::NotAsked | Loadable::Failed(_) => true,
        _ => false,
    };
    if playlists_wanted {
        l.playlists = Loadable::Loading;
        e.push(Effect::Api(ApiRequest::FetchPlaylists));
        needs_cache = true;
    }
    let liked_wanted = match &l.liked {
        Loadable::NotAsked | Loadable::Failed(_) => true,
        _ => false,
    };
    if liked_wanted {
        l.liked = Loadable::Loading;
        l.liked_loading_more = false;
        l.incoming_liked = Vec::new();
        e.push(Effect::Api(ApiRequest::FetchLiked));
        needs_cache = true;
    }
    if needs_cache {
        e.push(Effect::LoadLibraryCache);
    }
    proof {
        assert(e@ =~= library_requests(*old(l)));
    }
    e
}

/// The effect of an optional request.
pub open spec fn request_effects(r: Option<ApiRequest>) -> Seq<Effect> {
    match r {
        Some(q) => seq![Effect::Api(q)],
        None => Seq::empty(),
    }
}

/// The jump to the home page: no way back, the library filled in, and
/// the home feed asked for unless it has loaded.
pub open spec fn goes_home(s0: State, s1: State, e: Seq<Effect>) -> bool {
    &&& s1 == State {
        history: s1.history,
        page: s1.page,
        library: s1.library,
        discovery: s1.discovery,
        ..s0
    }
    &&& s1.history@.len() == 0
    &&& s1.page is Home
    &&& library_filled(s0.library, s1.library)
    &&& s1.discovery == Discovery { home: s1.discovery.home, ..s0.discovery }
    &&& if s0.discovery.home.loaded {
        &&& s1.discovery.home == s0.discovery.home
        &&& e == library_requests(s0.library)
    } else {
        exists|t: Target, r: Option<ApiRequest>|
            t@ == home_view() && #[trigger] feed_requested(s0.discovery.home, t, false, s1.discovery.home, r)
                && e == library_requests(s0.library) + request_effects(r)
    }
}

/// A sidebar jump to the home page.
pub(crate) fn navigate_home(state: &mut State) -> (e: Vec<Effect>)
    ensures
        goes_home(*old(state), *final(state), e@),
{
    state.history = Vec::new();
    let mut e = fetch_missing_library(&mut state.library);
    if !state.discovery.home.loaded {
        let target = Target::home();
        let ghost t = target;
        let ghost h0 = state.discovery.home;
        let ghost e0 = e@;
        let r = state.discovery.home.request(target, false);
        let ghost rr = r;
        match r {
            Some(q) => e.push(Effect::Api(q)),
            None => {},
        }
        proof {
            assert(e@ =~= e0 + request_effects(rr));
            assert(feed_requested(h0, t, false, state.discovery.home, rr));
        }
    }
    state.page = Page::Home;
    e
}

/// The sign-in part of `s`, as values.
pub open spec fn session_of(s: State) -> SessionView {
    SessionView {
        auth: auth_view(s.auth),
        saved_account: s.sign_in.saved_account,
        client_id_draft: s.sign_in.client_id_draft@,
        client_secret_draft: s.sign_in.client_secret_draft@,
        oauth_url: opt_str(s.sign_in.oauth_url),
        session_generation: s.session_generation,
    }
}

/// The sign-in part of `s0` stepped by `a` gives `mid` and the
/// effects `e1`; a successful check then goes on to the home page,
/// giving `s1` and `e`.
pub open spec fn auth_through(s0: State, a: AuthActionView, mid: State, e1: Seq<Effect>, s1: State, e: Seq<Effect>) -> bool {
    let step = auth_step(session_of(s0), a);
    &&& mid == State {
        auth: mid.auth,
        sign_in: mid.sign_in,
        session_generation: mid.session_generation,
        ..s0
    }
    &&& session_of(mid) == step.session
    &&& e1.map_values(|x: Effect| auth_effect_view(x)) == step.effects
    &&& if step.go_home {
        exists|e2: Seq<Effect>| #[trigger] goes_home(mid, s1, e2) && e == e1 + e2
    } else {
        s1 == mid && e == e1
    }
}

/// What a sign-in action does to the whole state: its sign-in part
/// steps as `auth_step` says, and a successful check goes on to the
/// home page.
pub open spec fn auth_outcome(s0: State, a: AuthActionView, s1: State, e: Seq<Effect>) -> bool {
    exists|mid: State, e1: Seq<Effect>| #[trigger] auth_through(s0, a, mid, e1, s1, e)
}

/// Applies a sign-in action to the state.
fn apply_auth(state: &mut State, action: AuthAction) -> (e: Vec<Effect>)
    requires
        old(state).session_generation < u64::MAX,
    ensures
        auth_outcome(*old(state), action@, *final(state), e@),
{
    let ghost a = action@;
    let ghost s0 = *state;
    let mut session = AuthSession {
        auth: AuthState::SignedOut,
        sign_in: SignInState {
            saved_account: false,
            client_id_draft: String::new(),
            client_secret_draft: String::new(),
            oauth_url: None,
        },
        session_generation: state.session_generation,
    };
    std::mem::swap(&mut session.auth, &mut state.auth);
    std::mem::swap(&mut session.sign_in, &mut state.sign_in);
    let (mut e, home) = session.apply(action);
    std::mem::swap(&mut session.auth, &mut state.auth);
    std::mem::swap(&mut session.sign_in, &mut state.sign_in);
    state.session_generation = session.session_generation;
    let ghost mid = *state;
    let ghost e1 = e@;
    proof {
        assert(mid == State {
            auth: mid.auth,
            sign_in: mid.sign_in,
            session_generation: mid.session_generation,
            ..s0
        });
    }
    if home {
        let mut more = navigate_home(state);
        let ghost e2 = more@;
        e.append(&mut more);
        proof {
            assert(e@ =~= e1 + e2);
            assert(goes_home(mid, *state, e2));
        }
    }
    proof {
        assert(auth_through(s0, a, mid, e1, *state, e@));
    }
    e
}

/// A skip-like step of the queue from `s0`: only playback changes, and
/// only its queue and transport fields, as `advances` says.
pub open spec fn steps_playback(s0: State, s1: State, step: (QueueView, Option<TrackView>), e: Seq<Effect>) -> bool {
    &&& playback_only(s0, s1)
    &&& transport_only(s0.playback, s1.playback)
    &&& advances(s0.playback, s1.playback, step, e)
}

/// A step back or a jump from `s0`: the queue's step, then its track
/// loaded or playback stopped.
pub open spec fn moves_to(s0: State, s1: State, step: (QueueView, Option<TrackView>), e: Seq<Effect>) -> bool {
    &&& playback_only(s0, s1)
    &&& transport_only(s0.playback, s1.playback)
    &&& s1.playback.queue@ == step.0
    &&& load_or_stop(s0.playback, s1.playback, step.1, e)
}

/// What a player report does: a track's end moves the queue on as a
/// skip does (repeat-one replays); the other reports as
/// `player_reported` says.
pub open spec fn event_outcome(s0: State, event: PlayerEvent, s1: State, e: Seq<Effect>) -> bool {
    match event {
        PlayerEvent::TrackEnded => steps_playback(s0, s1, s0.playback.queue@.on_track_end(), e),
        _ => playback_only(s0, s1) && player_reported(s0.playback, event, s1.playback, e),
    }
}

/// Applies a player report.
fn apply_event<R: RandomBelow>(state: &mut State, event: PlayerEvent) -> (e: Vec<Effect>)
    requires
        state_wf(*old(state)),
    ensures
        event_outcome(*old(state), event, *final(state), e@),
        state_wf(*final(state)),
{
    match event {
        PlayerEvent::TrackEnded => advance::<R>(state, true),
        other => apply_report(&mut state.playback, other),
    }
}

/// What one action does, before the reducer's common rules: the next
/// state `s1`, the effects `e`, and, from the random source's record
/// `d0`, the record `d1` afterwards.
pub open spec fn inner_outcome(
    s0: State,
    action: Action,
    s1: State,
    e: Seq<Effect>,
    d0: (Seq<usize>, Seq<usize>),
    d1: (Seq<usize>, Seq<usize>),
) -> bool
    decreases action,
{
    let q0 = s0.playback.queue@;
    let p0 = s0.playback;
    &&& s1.playback_generation == s0.playback_generation
    &&& lyrics_request_kept(s0, s1)
    &&& state_wf(s1)
    &&& match action {
        Action::ShuffleToggled => true,
        Action::ContextPlayed { .. } => true,
        Action::RadioStarted { .. } => true,
        Action::ForSession { .. } => true,
        Action::LikedShuffleRequested => true,
        _ => d1 == d0,
    }
    &&& match action {
        Action::Auth(a) => auth_outcome(s0, a@, s1, e),
        Action::SignOutRequested => sign_out_outcome(s0, s1, e),
        Action::Player(event) => event_outcome(s0, event, s1, e),
        Action::ForPlayback { generation, event } => if generation != s0.playback_generation {
            s1 == s0 && e.len() == 0
        } else {
            event_outcome(s0, event, s1, e)
        },
        Action::ForSession { generation, action: inner } => if generation != s0.session_generation {
            s1 == s0 && e.len() == 0 && d1 == d0
        } else {
            inner_outcome(s0, *inner, s1, e, d0, d1)
        },
        Action::NoticeDismissed(index) => dismissed(s0, index, s1) && e.len() == 0,
        Action::NoticePosted(message) => posts(s0, message@, s1) && e.len() == 0,
        Action::Skin(a) => skin_outcome(s0, a, s1, e),
        Action::NavigatedTo(page) => navigated(s0, page, s1, e),
        Action::SearchInputChanged(input) => s1 == State {
            search: crate::state::SearchState { input, ..s0.search },
            ..s0
        } && e.len() == 0,
        Action::SearchSubmitted => search_submitted(s0, s1, e),
        Action::SearchLoaded(request_id, result) => search_loaded(s0, request_id, result, s1) && e.len() == 0,
        Action::ArtistOpened(id) => artist_opened(s0, id, s1, e),
        Action::AlbumOpened(id) => album_opened(s0, id, s1, e),
        Action::ArtistSearchRequested(name) => name_searched(s0, name@, s1, e),
        Action::NowPlayingOpened => now_playing_opened(s0, s1) && e.len() == 0,
        Action::PlayToggled => playback_only(s0, s1) && toggles_play(p0, s1.playback, e),
        Action::PlaybackRetryRequested => if p0.error is Some {
            playback_only(s0, s1) && restarts_current(p0, s1.playback, e)
        } else {
            s1 == s0 && e.len() == 0
        },
        Action::SeekRequested(position) => playback_only(s0, s1) && seeks(p0, position, s1.playback, e),
        Action::ContextPlayed { tracks, start } => playback_only(s0, s1) && context_played(
            p0,
            crate::model::track_views(tracks@),
            start,
            s1.playback,
            e,
            d0,
            d1,
        ),
        Action::TrackHovered(track) => playback_only(s0, s1) && hovered(p0, track, s1.playback, e),
        Action::RadioStartCancelled => s1 == State {
            discovery: Discovery {
                radio_loading: false,
                radio_request_id: next_request_id(s0.discovery.radio_request_id),
                ..s0.discovery
            },
            ..s0
        } && e.len() == 0,
        Action::RadioStartRequested(seed) => radio_requested(s0, seed, s1, e),
        Action::RadioStarted { request_id, playback_generation, seed, result } => radio_started(
            s0,
            request_id,
            playback_generation,
            seed,
            result,
            s1,
            e,
            d0,
            d1,
        ),
        Action::NextPressed => steps_playback(s0, s1, q0.next(), e),
        Action::PreviousPressed => previous_outcome(s0, s1, e),
        Action::QueueRemoved(i) => edits_queue(s0, s1, q0.remove_upcoming(i), e),
        Action::TrackPlayNext(t) => edits_queue(s0, s1, q0.play_next(t@), e),
        Action::TrackQueued(t) => edits_queue(s0, s1, q0.queue_track(t@), e),
        Action::QueueJumped(i) => jump_outcome(s0, i, s1, e),
        Action::QueueSelectionRemoved(indices) => selection_removed(s0, indices@, s1, e),
        Action::QueueSelectionMoved { selected, before } => edits_queue(
            s0,
            s1,
            q0.move_upcoming(selected@, before),
            e,
        ),
        Action::QueueCleared => edits_queue(s0, s1, q0.clear_user_queue(), e),
        Action::ShuffleToggled => shuffle_outcome(s0, s1, e, d0, d1),
        Action::RepeatCycled => edits_queue(s0, s1, QueueView { repeat: q0.repeat.spec_cycled(), ..q0 }, e),
        Action::AutoplayToggled => {
            &&& s1 == State { playback: PlaybackState { autoplay: !s0.playback.autoplay, ..s0.playback }, ..s0 }
            &&& e.len() == 0
        },
        Action::QueuePanelToggled => s1 == State { queue_open: !s0.queue_open, ..s0 } && e.len() == 0,
        Action::LyricsToggled => lyrics_toggled(s0, s1, e),
        Action::LyricsReloadRequested => s1 == State {
            lyrics: LyricsState { content: Loadable::NotAsked, ..s0.lyrics },
            ..s0
        } && e.len() == 0,
        Action::LyricsLoaded { request_id, track, result } => lyrics_loaded(s0, request_id, track, result, s1)
            && e.len() == 0,
        Action::HistoryRequested { more } => history_asked(s0, more, s1, e),
        Action::HistoryLoaded { request_id, result } => {
            &&& s1 == State { listening_history: s1.listening_history, ..s0 }
            &&& history_applied(s0.listening_history, request_id, result, s1.listening_history)
            &&& e.len() == 0
        },
        Action::LibraryRefreshRequested => library_refreshed(s0, s1, e),
        Action::DiscoveryCacheLoaded(page) => discovery_cache_loaded(s0, page, s1) && e.len() == 0,
        Action::PlaylistOpened(id) => playlist_opened(s0, id, s1, e),
        Action::ArtistLinkOpened(artist) => artist_link_opened(s0, artist, s1, e),
        Action::DiscoveryShelfOpened(shelf) => shelf_opened(s0, shelf, s1) && e.len() == 0,
        Action::BackPressed => went_back(s0, s1, e),
        Action::PlaylistsLoaded(result) => playlists_loaded(s0, result, s1, e),
        Action::PlaylistCoversLoaded(covers) => covers_loaded(s0, covers@, s1, e),
        Action::LikedLoaded(result) => liked_loaded(s0, result, s1, e),
        Action::PlaylistTracksLoaded(id, result) => playlist_tracks_loaded(s0, id, result, s1, e),
        Action::AlbumLoaded(id, result) => album_loaded(s0, id, result, s1) && e.len() == 0,
        Action::LikedPageLoaded { tracks, finished } => liked_page_loaded(s0, tracks, finished, s1, e),
        Action::PlaylistTracksPageLoaded { id, tracks, finished } => playlist_page_loaded(
            s0,
            id,
            tracks,
            finished,
            s1,
            e,
        ),
        Action::LibraryCacheLoaded { playlists, liked } => library_cache_loaded(s0, playlists, liked, s1)
            && e.len() == 0,
        Action::PlaylistTracksCacheLoaded(id, tracks) => playlist_cache_loaded(s0, id, tracks, s1) && e.len() == 0,
        Action::TrackLikeToggled(track) => like_toggled(s0, track, s1, e),
        Action::TrackAddedToPlaylist { playlist, track } => track_added(s0, playlist, track, s1, e),
        Action::TrackRemovedFromPlaylist { playlist, item_id } => track_removed(s0, playlist, item_id, s1, e),
        Action::PlaylistCreateRequested(title) => create_requested(s0, title@, s1, e),
        Action::CreatePlaylistDialogOpened(then_add) => dialog_opened(s0, then_add, s1) && e.len() == 0,
        Action::CreatePlaylistDraftChanged(draft) => draft_changed(s0, draft, s1) && e.len() == 0,
        Action::DialogDismissed => s1 == State { dialog: None, ..s0 } && e.len() == 0,
        Action::PlaylistItemAdded { playlist, track, result } => item_added(s0, playlist, track, result, s1)
            && e.len() == 0,
        Action::PlaylistCreated(request_id, result) => playlist_created(s0, request_id, result, s1, e),
        Action::LibraryWriteFinished { what, result } => write_finished(s0, what, result, s1, e),
        Action::ArtistLoaded(id, result) => crate::navigation::artist_loaded(s0, id, result, s1, e),
        Action::LikedShuffleRequested => liked_shuffled(s0, s1, e, d0, d1),
        Action::RadioLoaded(id, result) => radio_loaded(s0, id, result, s1, e),
        Action::DiscoveryOpened(entry) => crate::discovery_flow::discovery_opened(s0, entry, s1, e),
        Action::DiscoveryRequested { more } => crate::discovery_flow::discovery_requested(s0, more, s1, e),
        Action::DiscoveryLoaded { request_id, target, result } => crate::discovery_flow::discovery_loaded(
            s0,
            request_id,
            target,
            result,
            s1,
            e,
        ),
    }
}

/// The lyrics request id after an action's own work: never ahead of
/// the one before, but for a close of the panel off the now-playing
/// page, which moves it one on and leaves nothing loading.
pub open spec fn lyrics_request_kept(s0: State, s1: State) -> bool {
    ||| s1.lyrics.request_id <= s0.lyrics.request_id
    ||| {
        &&& s1.lyrics.request_id == s0.lyrics.request_id + 1
        &&& !s1.lyrics.open
        &&& !(s1.page is NowPlaying)
        &&& !(s1.lyrics.content is Loading)
    }
}

/// Skips, or ends the track, with `next` as the queue's step: the
/// track it gives loaded; with none, a radio or a stop.
fn advance<R: RandomBelow>(state: &mut State, on_end: bool) -> (e: Vec<Effect>)
    requires
        state_wf(*old(state)),
    ensures
        steps_playback(
            *old(state),
            *final(state),
            if on_end {
                old(state).playback.queue@.on_track_end()
            } else {
                old(state).playback.queue@.next()
            },
            e@,
        ),
        state_wf(*final(state)),
{
    let previous = match state.playback.queue.current() {
        Some(t) => Some(id_of(t)),
        None => None,
    };
    let ghost p0 = state.playback;
    let next = if on_end {
        state.playback.queue.on_track_end()
    } else {
        state.playback.queue.next()
    };
    let ghost p_mid = state.playback;
    proof {
        assert(p_mid == PlaybackState { queue: p_mid.queue, ..p0 });
    }
    finish_advance(&mut state.playback, previous, next)
}

/// Loads what a queue step gives, or stops.
fn load_or_stop_with(p: &mut PlaybackState, next: Option<Track>) -> (e: Vec<Effect>)
    ensures
        transport_only(*old(p), *final(p)),
        final(p).queue == old(p).queue,
        load_or_stop(*old(p), *final(p), opt_track(next), e@),
{
    match next {
        Some(t) => load_track(p, t),
        None => stop_playback(p),
    }
}

/// Previous: back to the start when the track has played three
/// seconds or more; otherwise the queue's step back.
pub open spec fn previous_outcome(s0: State, s1: State, e: Seq<Effect>) -> bool {
    if s0.playback.position.secs >= RESTART_SECS {
        &&& s1 == State { playback: PlaybackState { position: zero_span(), ..s0.playback }, ..s0 }
        &&& e == seq![Effect::Player(PlayerCommand::Seek(zero_span()))]
    } else {
        moves_to(s0, s1, s0.playback.queue@.previous(), e)
    }
}

fn previous_pressed(state: &mut State) -> (e: Vec<Effect>)
    requires
        state_wf(*old(state)),
    ensures
        previous_outcome(*old(state), *final(state), e@),
        state_wf(*final(state)),
{
    if state.playback.position.secs >= RESTART_SECS {
        state.playback.position = Span { secs: 0, nanos: 0 };
        let e = vec![Effect::Player(PlayerCommand::Seek(Span { secs: 0, nanos: 0 }))];
        assert(e@ =~= seq![Effect::Player(PlayerCommand::Seek(zero_span()))]);
        return e;
    }
    let next = state.playback.queue.previous();
    load_or_stop_with(&mut state.playback, next)
}

/// A jump to the upcoming row `index`: nothing past the list's end.
pub open spec fn jump_outcome(s0: State, index: usize, s1: State, e: Seq<Effect>) -> bool {
    if index >= s0.playback.queue@.upcoming().len() {
        s1 == s0 && e.len() == 0
    } else {
        moves_to(s0, s1, s0.playback.queue@.jump_to(index), e)
    }
}

fn queue_jumped(state: &mut State, index: usize) -> (e: Vec<Effect>)
    requires
        state_wf(*old(state)),
    ensures
        jump_outcome(*old(state), index, *final(state), e@),
        state_wf(*final(state)),
{
    let count = state.playback.queue.upcoming().len();
    if index >= count {
        return Vec::new();
    }
    let next = state.playback.queue.jump_to(index);
    load_or_stop_with(&mut state.playback, next)
}

/// Removing the selected upcoming rows, from the highest index down so
/// each index still names the row the user selected.
pub open spec fn selection_removed(s0: State, indices: Seq<usize>, s1: State, e: Seq<Effect>) -> bool {
    exists|r: Seq<usize>|
        {
            &&& strictly_descending(r)
            &&& (forall|x: usize| r.contains(x) <==> indices.contains(x))
            &&& #[trigger] edits_queue(s0, s1, removed_each(s0.playback.queue@, r), e)
        }
}

fn remove_selection(state: &mut State, indices: Vec<usize>) -> (e: Vec<Effect>)
    requires
        state_wf(*old(state)),
    ensures
        selection_removed(*old(state), indices@, *final(state), e@),
        state_wf(*final(state)),
{
    let ghost s0 = *state;
    let order = descending_unique(&indices);
    let ghost q0 = state.playback.queue@;
    let mut k: usize = 0;
    while k < order.len()
        invariant
            k <= order@.len(),
            state.playback.queue@.wf(),
            state.playback.queue@ == removed_each_prefix(q0, order@, k as int),
            *state == (State { playback: PlaybackState { queue: state.playback.queue, ..s0.playback }, ..s0 }),
        decreases order@.len() - k,
    {
        proof {
            lemma_removed_each_step(q0, order@, k as int);
        }
        state.playback.queue.remove_upcoming(order[k]);
        k = k + 1;
    }
    proof {
        lemma_removed_each_whole(q0, order@);
    }
    let e = prefetch_next(&state.playback.queue);
    proof {
        assert(edits_queue(s0, *state, removed_each(q0, order@), e@));
    }
    e
}

/// A toggle of shuffle: the order rebuilt around the current track, and
/// the track after it prepared.
pub open spec fn shuffle_outcome(
    s0: State,
    s1: State,
    e: Seq<Effect>,
    d0: (Seq<usize>, Seq<usize>),
    d1: (Seq<usize>, Seq<usize>),
) -> bool {
    let q0 = s0.playback.queue@;
    let q1 = s1.playback.queue@;
    &&& playback_only(s0, s1)
    &&& s1.playback == PlaybackState { queue: s1.playback.queue, ..s0.playback }
    &&& q0.shuffled(q1, !q0.shuffle)
    &&& prepares_next(e, q1)
    &&& (q0.cursor is None || q0.shuffle ==> d1 == d0)
    &&& (!q0.shuffle ==> (q0.cursor matches Some(c) ==> {
        &&& crate::queue::shuffle_draws(d0.0, d1.0, q0.context.len())
        &&& crate::queue::shuffle_asks(d0.1, d1.1, q0.context.len())
        &&& q1.order == crate::queue::shuffle_order(
            q0.context.len(),
            q0.order[c as int],
            d1.0.skip(d0.0.len() as int),
        )
    }))
}

fn shuffle_toggled<R: RandomBelow>(state: &mut State, random_below: &mut R) -> (e: Vec<Effect>)
    requires
        state_wf(*old(state)),
    ensures
        shuffle_outcome(*old(state), *final(state), e@, record(*old(random_below)), record(*final(random_below))),
        state_wf(*final(state)),
{
    let on = !state.playback.queue.shuffle_on();
    state.playback.queue.set_shuffle(on, random_below);
    prefetch_next(&state.playback.queue)
}

/// Removes one upcoming row.
fn remove_one(state: &mut State, index: usize) -> (e: Vec<Effect>)
    requires
        state_wf(*old(state)),
    ensures
        edits_queue(*old(state), *final(state), old(state).playback.queue@.remove_upcoming(index), e@),
        state_wf(*final(state)),
{
    state.playback.queue.remove_upcoming(index);
    prefetch_next(&state.playback.queue)
}

fn play_next_track(state: &mut State, track: Track) -> (e: Vec<Effect>)
    requires
        state_wf(*old(state)),
        old(state).playback.queue@.user_queue.len() < usize::MAX,
    ensures
        edits_queue(*old(state), *final(state), old(state).playback.queue@.play_next(track@), e@),
        state_wf(*final(state)),
{
    state.playback.queue.play_next(track);
    prefetch_next(&state.playback.queue)
}

fn queue_one(state: &mut State, track: Track) -> (e: Vec<Effect>)
    requires
        state_wf(*old(state)),
        old(state).playback.queue@.user_queue.len() < usize::MAX,
    ensures
        edits_queue(*old(state), *final(state), old(state).playback.queue@.queue_track(track@), e@),
        state_wf(*final(state)),
{
    state.playback.queue.queue_track(track);
    prefetch_next(&state.playback.queue)
}

fn move_selection(state: &mut State, selected: Vec<usize>, before: usize) -> (e: Vec<Effect>)
    requires
        state_wf(*old(state)),
    ensures
        edits_queue(*old(state), *final(state), old(state).playback.queue@.move_upcoming(selected@, before), e@),
        state_wf(*final(state)),
{
    state.playback.queue.move_upcoming(selected.as_slice(), before);
    prefetch_next(&state.playback.queue)
}

fn clear_queued(state: &mut State) -> (e: Vec<Effect>)
    requires
        state_wf(*old(state)),
    ensures
        edits_queue(*old(state), *final(state), old(state).playback.queue@.clear_user_queue(), e@),
        state_wf(*final(state)),
{
    state.playback.queue.clear_user_queue();
    prefetch_next(&state.playback.queue)
}

fn cycle_repeat(state: &mut State) -> (e: Vec<Effect>)
    requires
        state_wf(*old(state)),
    ensures
        edits_queue(
            *old(state),
            *final(state),
            QueueView { repeat: old(state).playback.queue@.repeat.spec_cycled(), ..old(state).playback.queue@ },
            e@,
        ),
        state_wf(*final(state)),
{
    let mode = state.playback.queue.repeat_mode().cycled();
    state.playback.queue.set_repeat(mode);
    prefetch_next(&state.playback.queue)
}

/// One action's own work, as `inner_outcome` says. A report for an
/// earlier playback generation, or a result for an earlier session,
/// changes nothing.
#[verifier::rlimit(60)]
pub fn update_inner<R: RandomBelow>(state: &mut State, action: Action, random_below: &mut R) -> (e: Vec<Effect>)
    requires
        state_wf(*old(state)),
        old(state).session_generation < u64::MAX,
        old(state).playback.queue@.user_queue.len() < usize::MAX,
        old(state).search.request_id < u64::MAX,
        old(state).playlist_request_id < u64::MAX,
        counts_within(old(state).library.playlists),
        action_fits(action),
        radio_fits(*old(state), action),
    ensures
        inner_outcome(*old(state), action, *final(state), e@, record(*old(random_below)), record(*final(random_below))),
    decreases action,
{
    match action {
        Action::Auth(a) => apply_auth(state, a),
        Action::SignOutRequested => sign_out(state),
        Action::Player(event) => apply_event::<R>(state, event),
        Action::ForPlayback { generation, event } => {
            if generation != state.playback_generation {
                return Vec::new();
            }
            apply_event::<R>(state, event)
        },
        Action::ForSession { generation, action } => {
            if generation != state.session_generation {
                return Vec::new();
            }
            update_inner(state, *action, random_below)
        },
        Action::NoticeDismissed(index) => {
            dismiss_notice(state, index);
            Vec::new()
        },
        Action::NoticePosted(message) => {
            post_notice(state, message);
            Vec::new()
        },
        Action::Skin(a) => apply_skin(state, a),
        Action::NavigatedTo(page) => crate::navigation::navigate(state, page),
        Action::SearchInputChanged(input) => {
            state.search.input = input;
            Vec::new()
        },
        Action::SearchSubmitted => crate::navigation::submit_search(state),
        Action::SearchLoaded(request_id, result) => {
            crate::navigation::load_search(state, request_id, result);
            Vec::new()
        },
        Action::ArtistOpened(id) => crate::navigation::open_artist(state, id),
        Action::AlbumOpened(id) => crate::navigation::open_album(state, id),
        Action::ArtistSearchRequested(name) => crate::navigation::search_by_artist_name(state, name),
        Action::NowPlayingOpened => {
            crate::navigation::open_now_playing(state);
            Vec::new()
        },
        Action::PlayToggled => toggle_play(&mut state.playback),
        Action::PlaybackRetryRequested => {
            if state.playback.error.is_some() {
                restart_current(&mut state.playback)
            } else {
                Vec::new()
            }
        },
        Action::SeekRequested(position) => seek(&mut state.playback, position),
        Action::ContextPlayed { tracks, start } => play_context(&mut state.playback, tracks, start, random_below),
        Action::TrackHovered(track) => hover(&mut state.playback, track),
        Action::RadioStartCancelled => {
            state.discovery.radio_loading = false;
            state.discovery.radio_request_id = state.discovery.radio_request_id.wrapping_add(1);
            Vec::new()
        },
        Action::RadioStartRequested(seed) => request_radio(state, seed),
        Action::RadioStarted { request_id, playback_generation, seed, result } => start_radio(
            state,
            request_id,
            playback_generation,
            seed,
            result,
            random_below,
        ),
        Action::NextPressed => advance::<R>(state, false),
        Action::PreviousPressed => previous_pressed(state),
        Action::QueueRemoved(index) => remove_one(state, index),
        Action::TrackPlayNext(track) => play_next_track(state, track),
        Action::TrackQueued(track) => queue_one(state, track),
        Action::QueueJumped(index) => queue_jumped(state, index),
        Action::QueueSelectionRemoved(indices) => remove_selection(state, indices),
        Action::QueueSelectionMoved { selected, before } => move_selection(state, selected, before),
        Action::QueueCleared => clear_queued(state),
        Action::ShuffleToggled => shuffle_toggled(state, random_below),
        Action::RepeatCycled => cycle_repeat(state),
        Action::AutoplayToggled => {
            state.playback.autoplay = !state.playback.autoplay;
            Vec::new()
        },
        Action::QueuePanelToggled => {
            state.queue_open = !state.queue_open;
            Vec::new()
        },
        Action::LyricsToggled => toggle_lyrics(state),
        Action::LyricsReloadRequested => {
            state.lyrics.content = Loadable::NotAsked;
            Vec::new()
        },
        Action::LyricsLoaded { request_id, track, result } => {
            load_lyrics(state, request_id, track, result);
            Vec::new()
        },
        Action::HistoryRequested { more } => ask_history(state, more),
        Action::HistoryLoaded { request_id, result } => {
            state.listening_history.apply(request_id, result);
            Vec::new()
        },
        Action::LibraryRefreshRequested => refresh_library(state),
        Action::DiscoveryCacheLoaded(page) => {
            load_discovery_cache(state, page);
            Vec::new()
        },
        Action::PlaylistOpened(id) => open_playlist(state, id),
        Action::ArtistLinkOpened(artist) => open_artist_link(state, artist),
        Action::DiscoveryShelfOpened(shelf) => {
            open_shelf(state, shelf);
            Vec::new()
        },
        Action::BackPressed => go_back(state),
        Action::PlaylistsLoaded(result) => finish_playlists_load(state, result),
        Action::PlaylistCoversLoaded(covers) => finish_playlist_covers_load(state, covers),
        Action::LikedLoaded(result) => finish_liked_load(state, result),
        Action::PlaylistTracksLoaded(id, result) => finish_playlist_load(state, id, result),
        Action::AlbumLoaded(id, result) => {
            finish_album_load(state, id, result);
            Vec::new()
        },
        Action::LikedPageLoaded { tracks, finished } => finish_liked_page(state, tracks, finished),
        Action::PlaylistTracksPageLoaded { id, tracks, finished } => finish_playlist_tracks_page(
            state,
            id,
            tracks,
            finished,
        ),
        Action::LibraryCacheLoaded { playlists, liked } => {
            apply_library_cache(state, playlists, liked);
            Vec::new()
        },
        Action::PlaylistTracksCacheLoaded(id, tracks) => {
            apply_playlist_tracks_cache(state, id, tracks);
            Vec::new()
        },
        Action::TrackLikeToggled(track) => toggle_track_like(state, track),
        Action::TrackAddedToPlaylist { playlist, track } => {
            proof {
                lemma_counts_fit(state.library.playlists, playlist);
            }
            add_track_to_playlist(state, playlist, track)
        },
        Action::TrackRemovedFromPlaylist { playlist, item_id } => {
            proof {
                lemma_counts_fit(state.library.playlists, playlist);
            }
            remove_track_from_playlist(state, playlist, item_id)
        },
        Action::PlaylistCreateRequested(title) => request_playlist_create(state, title),
        Action::CreatePlaylistDialogOpened(then_add) => {
            open_create_dialog(state, then_add);
            Vec::new()
        },
        Action::CreatePlaylistDraftChanged(draft) => {
            set_create_playlist_draft(state, draft);
            Vec::new()
        },
        Action::DialogDismissed => {
            state.dialog = None;
            Vec::new()
        },
        Action::PlaylistItemAdded { playlist, track, result } => {
            proof {
                lemma_counts_fit(state.library.playlists, playlist);
            }
            finish_playlist_item_add(state, playlist, track, result);
            Vec::new()
        },
        Action::PlaylistCreated(request_id, result) => {
            proof {
                if result is Ok {
                    lemma_counts_fit(state.library.playlists, result->Ok_0.id);
                }
            }
            finish_playlist_create(state, request_id, result)
        },
        Action::LibraryWriteFinished { what, result } => finish_library_write(state, what, result),
        Action::ArtistLoaded(id, result) => crate::navigation::finish_artist_load(state, id, result),
        Action::LikedShuffleRequested => shuffle_liked(state, random_below),
        Action::RadioLoaded(id, result) => finish_radio_load(state, id, result),
        Action::DiscoveryOpened(entry) => crate::discovery_flow::open_discovery_entry(state, entry),
        Action::DiscoveryRequested { more } => crate::discovery_flow::request_discovery_page(state, more),
        Action::DiscoveryLoaded { request_id, target, result } => crate::discovery_flow::load_discovery_page(
            state,
            request_id,
            target,
            result,
        ),
    }
}

/// The queue after removing the first `k` entries of `r`, one by one.
pub open spec fn removed_each_prefix(q: QueueView, r: Seq<usize>, k: int) -> QueueView
    decreases k,
{
    if k <= 0 {
        q
    } else {
        removed_each_prefix(q, r, k - 1).remove_upcoming(r[k - 1])
    }
}

proof fn lemma_removed_each_step(q: QueueView, r: Seq<usize>, k: int)
    requires
        0 <= k < r.len(),
    ensures
        removed_each_prefix(q, r, k + 1) == removed_each_prefix(q, r, k).remove_upcoming(r[k]),
{
}

/// Removing the entries of `r` one by one, counted from the front, is
/// the whole of `removed_each`.
proof fn lemma_removed_each_whole(q: QueueView, r: Seq<usize>)
    ensures
        removed_each_prefix(q, r, r.len() as int) == removed_each(q, r),
    decreases r.len(),
{
    if r.len() > 0 {
        lemma_removed_each_shift(q, r, r.len() as int);
        lemma_removed_each_whole(q.remove_upcoming(r[0]), r.drop_first());
    }
}

/// Removing the first `k` entries of `r` is removing its first entry,
/// then the next `k - 1`.
proof fn lemma_removed_each_shift(q: QueueView, r: Seq<usize>, k: int)
    requires
        1 <= k <= r.len(),
    ensures
        removed_each_prefix(q, r, k) == removed_each_prefix(q.remove_upcoming(r[0]), r.drop_first(), k - 1),
    decreases k,
{
    let q1 = q.remove_upcoming(r[0]);
    let t = r.drop_first();
    if k > 1 {
        lemma_removed_each_shift(q, r, k - 1);
        assert(t[k - 2] == r[k - 1]);
        assert(removed_each_prefix(q, r, k) == removed_each_prefix(q, r, k - 1).remove_upcoming(r[k - 1]));
        assert(removed_each_prefix(q1, t, k - 1) == removed_each_prefix(q1, t, k - 2).remove_upcoming(t[k - 2]));
    } else {
        assert(removed_each_prefix(q, r, 0) == q);
        assert(removed_each_prefix(q, r, 1) == removed_each_prefix(q, r, 0).remove_upcoming(r[0]));
        assert(removed_each_prefix(q1, t, 0) == q1);
    }
}

/// The lyrics panel kept in step with playback: a closed panel off
/// the now-playing page drops a request in flight; an open one asks
/// for the current track's lyrics whenever that track changed or none
/// were asked for yet.
pub open spec fn lyrics_synced(s0: State, s1: State, e: Seq<Effect>) -> bool {
    let l0 = s0.lyrics;
    let cur = current_id(s0.playback.queue@);
    if !l0.open && !(s0.page is NowPlaying) {
        if l0.content is Loading {
            &&& s1 == State {
                lyrics: LyricsState {
                    request_id: next_request_id(l0.request_id),
                    content: Loadable::NotAsked,
                    ..l0
                },
                ..s0
            }
            &&& e == seq![Effect::FetchLyrics(None)]
        } else {
            s1 == s0 && e.len() == 0
        }
    } else if (cur == opt_id(l0.track) && !(l0.content is NotAsked)) || (cur is None && l0.track is None) {
        s1 == s0 && e.len() == 0
    } else {
        let rid = next_request_id(l0.request_id);
        &&& s1 == State {
            lyrics: LyricsState {
                request_id: rid,
                track: s1.lyrics.track,
                content: if cur is Some {
                    Loadable::Loading
                } else {
                    Loadable::NotAsked
                },
                ..l0
            },
            ..s0
        }
        &&& opt_id(s1.lyrics.track) == cur
        &&& e.len() == 1
        &&& match cur {
            Some(id) => e[0] matches Effect::FetchLyrics(Some((r, t))) && r == rid && t@ == id,
            None => e[0] == Effect::FetchLyrics(None),
        }
    }
}

/// Whether two optional ids name the same track.
fn same_id(a: &Option<TrackId>, b: &Option<TrackId>) -> (r: bool)
    ensures
        r == (opt_id(*a) == opt_id(*b)),
{
    match (a, b) {
        (Some(x), Some(y)) => x.same(y),
        (None, None) => true,
        _ => false,
    }
}

/// Keeps the lyrics panel in step with playback.
fn sync_lyrics(state: &mut State) -> (e: Vec<Effect>)
    ensures
        lyrics_synced(*old(state), *final(state), e@),
{
    let now_playing = match state.page {
        Page::NowPlaying => true,
        _ => false,
    };
    if !state.lyrics.open && !now_playing {
        let loading = match state.lyrics.content {
            Loadable::Loading => true,
            _ => false,
        };
        if loading {
            state.lyrics.request_id = state.lyrics.request_id.wrapping_add(1);
            state.lyrics.content = Loadable::NotAsked;
            let e = vec![Effect::FetchLyrics(None)];
            assert(e@ =~= seq![Effect::FetchLyrics(None)]);
            return e;
        }
        return Vec::new();
    }
    let track = match state.playback.queue.current() {
        Some(t) => Some(id_of(t)),
        None => None,
    };
    let not_asked = match state.lyrics.content {
        Loadable::NotAsked => true,
        _ => false,
    };
    if same_id(&track, &state.lyrics.track) && !not_asked {
        return Vec::new();
    }
    if track.is_none() && state.lyrics.track.is_none() {
        return Vec::new();
    }
    state.lyrics.request_id = state.lyrics.request_id.wrapping_add(1);
    match track {
        Some(id) => {
            state.lyrics.track = Some(TrackId(id.0.clone()));
            state.lyrics.content = Loadable::Loading;
            vec![Effect::FetchLyrics(Some((state.lyrics.request_id, id)))]
        },
        None => {
            state.lyrics.track = None;
            state.lyrics.content = Loadable::NotAsked;
            vec![Effect::FetchLyrics(None)]
        },
    }
}

/// An effect that starts or stops what the player plays.
pub open spec fn restarts(e: Effect) -> bool {
    e matches Effect::Player(PlayerCommand::Load(_)) || e == Effect::Player(PlayerCommand::Stop)
}

/// Some effect of `e` starts or stops what the player plays.
pub open spec fn has_restart(e: Seq<Effect>) -> bool {
    exists|k: int| 0 <= k < e.len() && #[trigger] restarts(e[k])
}

/// Whether some effect of `e` starts or stops what the player plays.
fn any_restart(e: &Vec<Effect>) -> (r: bool)
    ensures
        r == has_restart(e@),
{
    let mut i: usize = 0;
    while i < e.len()
        invariant
            i <= e@.len(),
            forall|k: int| 0 <= k < i ==> !restarts(#[trigger] e@[k]),
        decreases e@.len() - i,
    {
        let hit = match &e[i] {
            Effect::Player(PlayerCommand::Load(_)) => true,
            Effect::Player(PlayerCommand::Stop) => true,
            _ => false,
        };
        if hit {
            assert(restarts(e@[i as int]));
            return true;
        }
        i = i + 1;
    }
    false
}

/// Whether `e` already asks to close the lyrics.
fn closes_lyrics(e: &Vec<Effect>) -> (r: bool)
    ensures
        r == e@.contains(Effect::FetchLyrics(None)),
{
    let mut i: usize = 0;
    while i < e.len()
        invariant
            i <= e@.len(),
            forall|k: int| 0 <= k < i ==> e@[k] != Effect::FetchLyrics(None),
        decreases e@.len() - i,
    {
        let hit = match &e[i] {
            Effect::FetchLyrics(None) => true,
            _ => false,
        };
        if hit {
            assert(e@[i as int] == Effect::FetchLyrics(None));
            return true;
        }
        i = i + 1;
    }
    false
}

/// The reducer's common rules after an action's own work `s1`, `e1`
/// from `s0`: a new playback generation when the player restarts, the
/// lyrics request id never behind the one before, a close of the
/// lyrics when the panel closed off the now-playing page, and the
/// lyrics kept in step.
pub open spec fn finished(s0: State, s1: State, e1: Seq<Effect>, s2: State, e: Seq<Effect>) -> bool {
    exists|es: Seq<Effect>| #[trigger] lyrics_synced(bumped(s0, s1, e1), s2, es) && e == closed(s0, s1, e1) + es
}

/// `s1` with the playback generation moved on when `e1` restarts the
/// player, and the lyrics request id not behind `s0`'s.
pub open spec fn bumped(s0: State, s1: State, e1: Seq<Effect>) -> State {
    State {
        playback_generation: if has_restart(e1) {
            next_request_id(s0.playback_generation)
        } else {
            s1.playback_generation
        },
        lyrics: LyricsState {
            request_id: if s1.lyrics.request_id >= s0.lyrics.request_id {
                s1.lyrics.request_id
            } else {
                s0.lyrics.request_id
            },
            ..s1.lyrics
        },
        ..s1
    }
}

/// `e1`, and a close of the lyrics when the panel was open and closed
/// off the now-playing page without one.
pub open spec fn closed(s0: State, s1: State, e1: Seq<Effect>) -> Seq<Effect> {
    if s0.lyrics.open && !(s1.page is NowPlaying) && !s1.lyrics.open && !e1.contains(Effect::FetchLyrics(None)) {
        e1.push(Effect::FetchLyrics(None))
    } else {
        e1
    }
}

/// The pair of inner work and common rules that an update went through.
pub open spec fn updated_through(
    s0: State,
    action: Action,
    d0: (Seq<usize>, Seq<usize>),
    d1: (Seq<usize>, Seq<usize>),
    s1: State,
    e1: Seq<Effect>,
    s2: State,
    e: Seq<Effect>,
) -> bool {
    inner_outcome(s0, action, s1, e1, d0, d1) && finished(s0, s1, e1, s2, e)
}

/// Lyrics effects never start or stop what the player plays.
proof fn lemma_lyrics_effects_keep_restarts(e1: Seq<Effect>, extra: Seq<Effect>)
    requires
        forall|k: int| 0 <= k < extra.len() ==> #[trigger] extra[k] is FetchLyrics,
    ensures
        has_restart(e1 + extra) == has_restart(e1),
{
    let all = e1 + extra;
    if has_restart(all) {
        let k = choose|k: int| 0 <= k < all.len() && #[trigger] restarts(all[k]);
        if k >= e1.len() {
            assert(extra[k - e1.len()] is FetchLyrics);
        } else {
            assert(all[k] == e1[k]);
        }
    }
    if has_restart(e1) {
        let k = choose|k: int| 0 <= k < e1.len() && #[trigger] restarts(e1[k]);
        assert(all[k] == e1[k]);
    }
}

/// Applies one action: its own work, then the rules every action
/// keeps. A start or stop of the player moves the playback generation
/// on, so a `ForPlayback` report for the previous track changes nothing; the
/// lyrics request id never falls behind; and the lyrics panel stays in
/// step with playback.
pub fn update<R: RandomBelow>(state: &mut State, action: Action, random_below: &mut R) -> (effects: Vec<Effect>)
    requires
        state_wf(*old(state)),
        old(state).session_generation < u64::MAX,
        old(state).playback.queue@.user_queue.len() < usize::MAX,
        old(state).search.request_id < u64::MAX,
        old(state).playlist_request_id < u64::MAX,
        counts_within(old(state).library.playlists),
        action_fits(action),
        radio_fits(*old(state), action),
    ensures
        state_wf(*final(state)),
        exists|s1: State, e1: Seq<Effect>|
            #[trigger] updated_through(
                *old(state),
                action,
                record(*old(random_below)),
                record(*final(random_below)),
                s1,
                e1,
                *final(state),
                effects@,
            ),
        has_restart(effects@) ==> final(state).playback_generation == next_request_id(
            old(state).playback_generation,
        ),
        !has_restart(effects@) ==> final(state).playback_generation == old(state).playback_generation,
        old(state).lyrics.request_id < u64::MAX ==> final(state).lyrics.request_id >= old(
            state,
        ).lyrics.request_id,
{
    let ghost s0 = *state;
    let ghost a = action;
    let generation = state.playback_generation;
    let lyrics_request = state.lyrics.request_id;
    let lyrics_open = state.lyrics.open;
    let mut effects = update_inner(state, action, random_below);
    let ghost s1 = *state;
    let ghost e1 = effects@;
    if any_restart(&effects) {
        state.playback_generation = generation.wrapping_add(1);
    }
    if state.lyrics.request_id < lyrics_request {
        state.lyrics.request_id = lyrics_request;
    }
    let ghost sb = *state;
    let now_playing = match state.page {
        Page::NowPlaying => true,
        _ => false,
    };
    if lyrics_open && !now_playing && !state.lyrics.open && !closes_lyrics(&effects) {
        effects.push(Effect::FetchLyrics(None));
    }
    let ghost e2 = effects@;
    let mut more = sync_lyrics(state);
    let ghost es = more@;
    effects.append(&mut more);
    proof {
        assert(effects@ =~= e2 + es);
        assert(lyrics_synced(sb, *state, es));
        assert(sb == bumped(s0, s1, e1));
        assert(e2 =~= closed(s0, s1, e1));
        assert(finished(s0, s1, e1, *state, effects@));
        assert(updated_through(s0, a, record(*old(random_below)), record(*random_below), s1, e1, *state, effects@));
        assert forall|k: int| 0 <= k < es.len() implies #[trigger] es[k] is FetchLyrics by {}
        lemma_lyrics_effects_keep_restarts(e2, es);
        if e2.len() > e1.len() {
            assert(e2 =~= e1 + seq![Effect::FetchLyrics(None)]);
            lemma_lyrics_effects_keep_restarts(e1, seq![Effect::FetchLyrics(None)]);
        } else {
            assert(e2 =~= e1);
        }
    }
    effects
}

/// `a` is no later than `b`.
pub open spec fn span_le(a: Span, b: Span) -> bool {
    a.secs < b.secs || (a.secs == b.secs && a.nanos <= b.nanos)
}

/// A span of zero length.
pub open spec fn is_zero(a: Span) -> bool {
    a.secs == 0 && a.nanos == 0
}

/// Play on a stopped player: the current track loaded again, to
/// continue where it stopped; nothing without a current track.
pub open spec fn restarts_current(p0: PlaybackState, p1: PlaybackState, e: Seq<Effect>) -> bool {
    match p0.queue@.current_track() {
        None => p1 == p0 && e.len() == 0,
        Some(t) => {
            &&& p1 == PlaybackState {
                error: None,
                loading: true,
                status: PlayStatus::Loading,
                track_duration: t.duration,
                resume_position: if is_zero(p0.position) {
                    None
                } else {
                    Some(p0.position)
                },
                ..p0
            }
            &&& e.len() == 1
            &&& e[0] matches Effect::Player(PlayerCommand::Load(x)) && x@ == t
        },
    }
}

/// Reloads the current track, keeping the position to resume at.
fn restart_current(p: &mut PlaybackState) -> (e: Vec<Effect>)
    ensures
        restarts_current(*old(p), *final(p), e@),
{
    let track = match p.queue.current() {
        Some(t) => t.clone(),
        None => return Vec::new(),
    };
    let position = p.position;
    let e = load_track(p, track);
    p.resume_position = if position.secs == 0 && position.nanos == 0 {
        None
    } else {
        Some(position)
    };
    p.position = position;
    e
}

/// Play or pause: a playing or loading player pauses; a paused one
/// resumes (still loading, if it was); a stopped one restarts the
/// current track.
pub open spec fn toggles_play(p0: PlaybackState, p1: PlaybackState, e: Seq<Effect>) -> bool {
    match p0.status {
        PlayStatus::Playing => p1 == PlaybackState { status: PlayStatus::Paused, ..p0 } && e == seq![
            Effect::Player(PlayerCommand::Pause),
        ],
        PlayStatus::Loading => p1 == PlaybackState { status: PlayStatus::Paused, ..p0 } && e == seq![
            Effect::Player(PlayerCommand::Pause),
        ],
        PlayStatus::Paused => p1 == PlaybackState {
            status: if p0.loading {
                PlayStatus::Loading
            } else {
                PlayStatus::Playing
            },
            ..p0
        } && e == seq![Effect::Player(PlayerCommand::Resume)],
        PlayStatus::Stopped => restarts_current(p0, p1, e),
    }
}

fn toggle_play(p: &mut PlaybackState) -> (e: Vec<Effect>)
    ensures
        toggles_play(*old(p), *final(p), e@),
{
    match p.status {
        PlayStatus::Playing | PlayStatus::Loading => {
            p.status = PlayStatus::Paused;
            let e = vec![Effect::Player(PlayerCommand::Pause)];
            assert(e@ =~= seq![Effect::Player(PlayerCommand::Pause)]);
            e
        },
        PlayStatus::Paused => {
            p.status = if p.loading {
                PlayStatus::Loading
            } else {
                PlayStatus::Playing
            };
            let e = vec![Effect::Player(PlayerCommand::Resume)];
            assert(e@ =~= seq![Effect::Player(PlayerCommand::Resume)]);
            e
        },
        PlayStatus::Stopped => restart_current(p),
    }
}

/// A seek: the position moves, capped at the track's duration; while
/// the track loads or a resume waits, the position waits to be sought.
pub open spec fn seeks(p0: PlaybackState, position: Span, p1: PlaybackState, e: Seq<Effect>) -> bool {
    let to = match p0.track_duration {
        Some(d) => if span_le(position, d) {
            position
        } else {
            d
        },
        None => position,
    };
    if p0.loading || p0.resume_position is Some {
        p1 == PlaybackState { position: to, resume_position: Some(to), ..p0 } && e.len() == 0
    } else {
        p1 == PlaybackState { position: to, ..p0 } && e == seq![Effect::Player(PlayerCommand::Seek(to))]
    }
}

fn seek(p: &mut PlaybackState, position: Span) -> (e: Vec<Effect>)
    ensures
        seeks(*old(p), position, *final(p), e@),
{
    let to = match p.track_duration {
        Some(d) => if position.secs < d.secs || (position.secs == d.secs && position.nanos <= d.nanos) {
            position
        } else {
            d
        },
        None => position,
    };
    p.position = to;
    if p.loading || p.resume_position.is_some() {
        p.resume_position = Some(to);
        Vec::new()
    } else {
        let e = vec![Effect::Player(PlayerCommand::Seek(to))];
        assert(e@ =~= seq![Effect::Player(PlayerCommand::Seek(to))]);
        e
    }
}

/// Playing a list from `start`: any radio request forgotten, the queue
/// started on the list as `Queue::play_context` says (with its draws
/// from the random source), and the start track loaded.
pub open spec fn context_played(
    p0: PlaybackState,
    tracks: Seq<TrackView>,
    start: usize,
    p1: PlaybackState,
    e: Seq<Effect>,
    d0: (Seq<usize>, Seq<usize>),
    d1: (Seq<usize>, Seq<usize>),
) -> bool {
    let q0 = p0.queue@;
    let q1 = p1.queue@;
    if start >= tracks.len() {
        &&& p1 == PlaybackState { radio_request: None, queue: p1.queue, ..p0 }
        &&& q1 == q0
        &&& e.len() == 0
        &&& d1 == d0
    } else {
        &&& q0.played_context(q1, tracks, start)
        &&& transport_only(p0, p1)
        &&& p1.radio_request is None
        &&& p1.error is None
        &&& p1.resume_position is None
        &&& p1.loading
        &&& p1.status == PlayStatus::Loading
        &&& p1.position == zero_span()
        &&& p1.track_duration == tracks[start as int].duration
        &&& e.len() == 1
        &&& e[0] matches Effect::Player(PlayerCommand::Load(x)) && x@ == tracks[start as int]
        &&& if q0.shuffle {
            &&& crate::queue::shuffle_draws(d0.0, d1.0, tracks.len())
            &&& crate::queue::shuffle_asks(d0.1, d1.1, tracks.len())
            &&& q1.order == crate::queue::shuffle_order(tracks.len(), start, d1.0.skip(d0.0.len() as int))
        } else {
            d1 == d0
        }
    }
}

fn play_context<R: RandomBelow>(p: &mut PlaybackState, tracks: Vec<Track>, start: usize, random_below: &mut R) -> (e: Vec<Effect>)
    requires
        old(p).queue@.wf(),
    ensures
        context_played(*old(p), crate::model::track_views(tracks@), start, *final(p), e@, record(*old(random_below)), record(*final(random_below))),
        final(p).queue@.wf(),
{
    p.radio_request = None;
    proof {
        if start < tracks@.len() {
            assert(crate::model::track_views(tracks@)[start as int] == tracks@[start as int]@);
        }
    }
    let started = p.queue.play_context(tracks, start, random_below);
    match started {
        Some(t) => load_track(p, t),
        None => Vec::new(),
    }
}

/// A pointer resting on a track: its audio warmed, unless it plays now
/// or was the last one warmed this way.
pub open spec fn hovered(p0: PlaybackState, track: Track, p1: PlaybackState, e: Seq<Effect>) -> bool {
    if current_id(p0.queue@) != Some(track@.id) && opt_id(p0.last_hover_prefetch) != Some(track@.id) {
        &&& p1 == PlaybackState { last_hover_prefetch: p1.last_hover_prefetch, ..p0 }
        &&& opt_id(p1.last_hover_prefetch) == Some(track@.id)
        &&& e.len() == 1
        &&& e[0] matches Effect::Player(PlayerCommand::Prefetch(x)) && x == track
    } else {
        p1 == p0 && e.len() == 0
    }
}

fn hover(p: &mut PlaybackState, track: Track) -> (e: Vec<Effect>)
    ensures
        hovered(*old(p), track, *final(p), e@),
{
    let current = match p.queue.current() {
        Some(t) => Some(id_of(t)),
        None => None,
    };
    let go = crate::library::should_hover_prefetch(current.as_ref(), p.last_hover_prefetch.as_ref(), &track.id);
    if !go {
        return Vec::new();
    }
    p.last_hover_prefetch = Some(id_of(&track));
    vec![Effect::Player(PlayerCommand::Prefetch(track))]
}

/// The notice for a radio that found no songs.
pub const NO_RADIO: &'static str = "No radio is available for this song.";

/// The start of the notice for a radio that failed.
pub const RADIO_FAILED: &'static str = "Couldn’t start radio: ";

/// `t` when it is not the track `id`.
pub open spec fn other_than(id: Seq<char>) -> spec_fn(TrackView) -> Option<TrackView> {
    |t: TrackView| if t.id != id {
        Some(t)
    } else {
        None
    }
}

/// The tracks of `tracks` that are not the track `id`, in order.
fn without_id(tracks: Vec<Track>, id: &TrackId) -> (r: Vec<Track>)
    ensures
        crate::model::track_views(r@) == crate::model::track_views(tracks@).filter_map(other_than(id@)),
{
    let ghost tv = crate::model::track_views(tracks@);
    let mut out: Vec<Track> = Vec::new();
    let mut rest = tracks;
    let mut k: usize = 0;
    let ghost all = rest@;
    while k < rest.len()
        invariant
            rest@ == all,
            tv == crate::model::track_views(all),
            k <= all.len(),
            crate::model::track_views(out@) == tv.take(k as int).filter_map(other_than(id@)),
        decreases all.len() - k,
    {
        proof {
            tv.lemma_filter_map_take_succ(other_than(id@), k as int);
            assert(tv[k as int] == all[k as int]@);
        }
        if !rest[k].id.same(id) {
            let t = rest[k].clone();
            let ghost before = out@;
            out.push(t);
            proof {
                crate::model::lemma_track_views_push(before, t);
            }
        }
        k = k + 1;
    }
    proof {
        assert(tv.take(all.len() as int) =~= tv);
    }
    out
}

/// A request for a radio from `seed`: none for a local file; otherwise
/// the request tagged with a fresh id and the playback generation.
pub open spec fn radio_requested(s0: State, seed: Track, s1: State, e: Seq<Effect>) -> bool {
    let d = s0.discovery;
    if seed@.is_local() {
        s1 == s0 && e.len() == 0
    } else {
        &&& s1 == State {
            discovery: Discovery {
                radio_loading: true,
                radio_request_id: next_request_id(d.radio_request_id),
                ..d
            },
            ..s0
        }
        &&& e.len() == 1
        &&& e[0] == Effect::Api(
            ApiRequest::StartRadio {
                request_id: s1.discovery.radio_request_id,
                playback_generation: s0.playback_generation,
                seed,
            },
        )
    }
}

fn request_radio(state: &mut State, seed: Track) -> (e: Vec<Effect>)
    ensures
        radio_requested(*old(state), seed, *final(state), e@),
{
    if seed.is_local() {
        return Vec::new();
    }
    state.discovery.radio_loading = true;
    state.discovery.radio_request_id = state.discovery.radio_request_id.wrapping_add(1);
    let e = vec![Effect::Api(ApiRequest::StartRadio {
        request_id: state.discovery.radio_request_id,
        playback_generation: state.playback_generation,
        seed,
    })];
    e
}

/// A radio result: a local seed only stops the waiting; a result for
/// another request changes nothing; one for an earlier playback only
/// stops the waiting. Otherwise the request id moves on, and the seed
/// plays first, followed by the radio's other songs; an empty radio or
/// a failure posts a notice.
pub open spec fn radio_started(
    s0: State,
    request_id: u64,
    generation: u64,
    seed: Track,
    result: Result<Vec<Track>, String>,
    s1: State,
    e: Seq<Effect>,
    d0: (Seq<usize>, Seq<usize>),
    d1: (Seq<usize>, Seq<usize>),
) -> bool {
    let d = s0.discovery;
    let stopped_waiting = State { discovery: Discovery { radio_loading: false, ..d }, ..s0 };
    if seed@.is_local() {
        s1 == stopped_waiting && e.len() == 0 && d1 == d0
    } else if request_id != d.radio_request_id {
        s1 == s0 && e.len() == 0 && d1 == d0
    } else if generation != s0.playback_generation {
        s1 == stopped_waiting && e.len() == 0 && d1 == d0
    } else {
        let mid = State {
            discovery: Discovery {
                radio_loading: false,
                radio_request_id: next_request_id(d.radio_request_id),
                ..d
            },
            ..s0
        };
        match result {
            Ok(tracks) => if tracks@.len() > 0 {
                &&& playback_only(mid, s1)
                &&& context_played(
                    mid.playback,
                    seq![seed@] + crate::model::track_views(tracks@).filter_map(other_than(seed@.id)),
                    0,
                    s1.playback,
                    e,
                    d0,
                    d1,
                )
            } else {
                posts(mid, NO_RADIO@, s1) && e.len() == 0 && d1 == d0
            },
            Err(m) => posts(mid, RADIO_FAILED@ + m@, s1) && e.len() == 0 && d1 == d0,
        }
    }
}

fn start_radio<R: RandomBelow>(
    state: &mut State,
    request_id: u64,
    generation: u64,
    seed: Track,
    result: Result<Vec<Track>, String>,
    random_below: &mut R,
) -> (e: Vec<Effect>)
    requires
        state_wf(*old(state)),
    ensures
        radio_started(
            *old(state),
            request_id,
            generation,
            seed,
            result,
            *final(state),
            e@,
            record(*old(random_below)),
            record(*final(random_below)),
        ),
        state_wf(*final(state)),
{
    if seed.is_local() {
        state.discovery.radio_loading = false;
        return Vec::new();
    }
    if request_id != state.discovery.radio_request_id {
        return Vec::new();
    }
    state.discovery.radio_loading = false;
    if generation != state.playback_generation {
        return Vec::new();
    }
    state.discovery.radio_request_id = state.discovery.radio_request_id.wrapping_add(1);
    match result {
        Ok(tracks) => {
            if tracks.len() == 0 {
                post_notice(state, NO_RADIO.to_owned());
                return Vec::new();
            }
            let ghost sv = seed@;
            let ghost tv = tracks@;
            let ghost mid = *state;
            let seed_id = id_of(&seed);
            let others = without_id(tracks, &seed_id);
            let ghost ov = others@;
            let mut list: Vec<Track> = vec![seed];
            let ghost l0 = list@;
            let mut others = others;
            list.append(&mut others);
            proof {
                crate::model::lemma_track_views_add(l0, list@.skip(1));
                assert(list@ =~= l0 + list@.skip(1));
                assert(crate::model::track_views(l0) =~= seq![sv]);
                assert(list@.skip(1) =~= ov);
                assert(crate::model::track_views(list@) == seq![sv] + crate::model::track_views(tv).filter_map(
                    other_than(sv.id),
                ));
            }
            let e = play_context(&mut state.playback, list, 0, random_below);
            proof {
                assert(playback_only(mid, *state));
            }
            e
        },
        Err(message) => {
            let mut text = RADIO_FAILED.to_owned();
            text.append(message.as_str());
            post_notice(state, text);
            Vec::new()
        },
    }
}

/// The liked list as shown, or nothing.
pub open spec fn shown_liked(s: State) -> Seq<TrackView> {
    match s.library.liked.shown() {
        Some(v) => crate::model::track_views(v@),
        None => Seq::empty(),
    }
}

/// Shuffle play of the liked songs: nothing with none shown; otherwise
/// a random start among them, shuffle turned on, and the liked list
/// played from that start. `d0` and `d1` are the random source's record
/// before and after.
pub open spec fn liked_shuffled(
    s0: State,
    s1: State,
    e: Seq<Effect>,
    d0: (Seq<usize>, Seq<usize>),
    d1: (Seq<usize>, Seq<usize>),
) -> bool {
    let liked = shown_liked(s0);
    let p0 = s0.playback;
    if liked.len() == 0 {
        s1 == s0 && e.len() == 0 && d1 == d0
    } else {
        exists|start: usize, pm: PlaybackState, dm: (Seq<usize>, Seq<usize>)|
            {
                &&& start < liked.len()
                &&& s1 == State { playback: s1.playback, ..s0 }
                &&& pm == PlaybackState { queue: pm.queue, ..p0 }
                &&& p0.queue@.shuffled(pm.queue@, true)
                &&& pm.queue@.wf()
                &&& if p0.queue@.cursor matches Some(c) {
                    &&& crate::queue::shuffle_draws(d0.0.push(start), dm.0, p0.queue@.context.len())
                    &&& crate::queue::shuffle_asks(d0.1.push(liked.len() as usize), dm.1, p0.queue@.context.len())
                } else {
                    dm == (d0.0.push(start), d0.1.push(liked.len() as usize))
                }
                &&& #[trigger] context_played(pm, liked, start, s1.playback, e, dm, d1)
            }
    }
}

/// Plays the liked songs shuffled, from a random start.
fn shuffle_liked<R: RandomBelow>(state: &mut State, random_below: &mut R) -> (e: Vec<Effect>)
    requires
        state_wf(*old(state)),
    ensures
        liked_shuffled(*old(state), *final(state), e@, record(*old(random_below)), record(*final(random_below))),
        state_wf(*final(state)),
{
    let tracks = match state.library.liked.loaded() {
        Some(v) => crate::model::clone_tracks(v),
        None => Vec::new(),
    };
    if tracks.len() == 0 {
        return Vec::new();
    }
    let ghost s0 = *state;
    let ghost d0 = record(*random_below);
    let start = random_below.random_below(tracks.len());
    state.playback.queue.set_shuffle(true, random_below);
    let ghost pm = state.playback;
    let ghost dm = record(*random_below);
    let e = play_context(&mut state.playback, tracks, start, random_below);
    proof {
        assert(context_played(pm, shown_liked(s0), start, state.playback, e@, dm, record(*random_below)));
    }
    e
}

/// A radio that autoplay asked for at the queue's end: taken only for
/// the track it was asked for. Its tracks not in the queue yet join the
/// context and the next of them plays; with none new, or on a failure
/// (a notice), playback stops.
pub open spec fn radio_loaded(s0: State, id: TrackId, result: Result<Vec<Track>, String>, s1: State, e: Seq<Effect>) -> bool {
    let p0 = s0.playback;
    if opt_id(p0.radio_request) != Some(id@) {
        s1 == s0 && e.len() == 0
    } else {
        let mid = State { playback: PlaybackState { radio_request: None, ..p0 }, ..s0 };
        let pm = mid.playback;
        match result {
            Err(m) => {
                &&& s1 == State { playback: s1.playback, notices: s1.notices, ..mid }
                &&& posts(mid, m@, State { notices: s1.notices, ..mid })
                &&& stops(pm, s1.playback, e)
                &&& transport_only(pm, s1.playback)
                &&& s1.playback.queue == pm.queue
            },
            Ok(tracks) => {
                let fresh = crate::library::not_in_context(p0.queue@, crate::model::track_views(tracks@));
                if fresh.len() == 0 {
                    &&& playback_only(mid, s1)
                    &&& stops(pm, s1.playback, e)
                    &&& transport_only(pm, s1.playback)
                    &&& s1.playback.queue == pm.queue
                } else {
                    let step = p0.queue@.extend_context(fresh).next();
                    &&& playback_only(mid, s1)
                    &&& transport_only(pm, s1.playback)
                    &&& s1.playback.queue@ == step.0
                    &&& load_or_stop(pm, s1.playback, step.1, e)
                }
            },
        }
    }
}

/// A result for a radio of `tracks`, within the machine's index range.
pub open spec fn radio_fits(s: State, a: Action) -> bool
    decreases a,
{
    match a {
        Action::RadioLoaded(_, Ok(tracks)) => s.playback.queue@.context.len() + tracks@.len() <= usize::MAX,
        Action::ForSession { action, .. } => radio_fits(s, *action),
        _ => true,
    }
}

/// Takes a radio that autoplay asked for.
fn finish_radio_load(state: &mut State, id: TrackId, result: Result<Vec<Track>, String>) -> (e: Vec<Effect>)
    requires
        state_wf(*old(state)),
        result matches Ok(tracks) ==> old(state).playback.queue@.context.len() + tracks@.len() <= usize::MAX,
    ensures
        radio_loaded(*old(state), id, result, *final(state), e@),
        state_wf(*final(state)),
{
    let asked = match &state.playback.radio_request {
        Some(r) => r.same(&id),
        None => false,
    };
    if !asked {
        return Vec::new();
    }
    state.playback.radio_request = None;
    let ghost mid = *state;
    match result {
        Err(message) => {
            post_notice(state, message);
            stop_playback(&mut state.playback)
        },
        Ok(tracks) => {
            let ghost tv = crate::model::track_views(tracks@);
            let fresh = crate::library::tracks_not_in(&state.playback.queue, tracks);
            if fresh.len() == 0 {
                return stop_playback(&mut state.playback);
            }
            proof {
                lemma_not_in_context_len(mid.playback.queue@, tv);
            }
            state.playback.queue.extend_context(fresh);
            let next = state.playback.queue.next();
            let ghost p_next = state.playback;
            proof {
                assert(p_next == PlaybackState { queue: p_next.queue, ..mid.playback });
            }
            load_or_stop_with(&mut state.playback, next)
        },
    }
}

/// Dropping tracks never lengthens a list.
proof fn lemma_not_in_context_len(q: QueueView, tracks: Seq<TrackView>)
    ensures
        crate::library::not_in_context(q, tracks).len() <= tracks.len(),
    decreases tracks.len(),
{
    if tracks.len() > 0 {
        lemma_not_in_context_len(q, tracks.drop_last());
    }
}

/// "Play next" puts the track at the head of what comes next, ahead of
/// everything that was to come in its order, and keeps the current
/// track; the player is told to prepare it, unless repeat-one makes the
/// current track the one that plays next.
pub proof fn law_play_next_action_heads_upcoming(
    s0: State,
    t: Track,
    s1: State,
    e: Seq<Effect>,
    d0: (Seq<usize>, Seq<usize>),
    d1: (Seq<usize>, Seq<usize>),
)
    requires
        state_wf(s0),
        s0.playback.queue@.bounded(),
        inner_outcome(s0, Action::TrackPlayNext(t), s1, e, d0, d1),
    ensures
        s1.playback.queue@.upcoming() == seq![t@] + s0.playback.queue@.upcoming(),
        s1.playback.queue@.current_track() == s0.playback.queue@.current_track(),
        e.len() == 1,
        s0.playback.queue@.repeat != crate::queue_view::RepeatMode::One ==> (e[0] matches Effect::Player(
            PlayerCommand::PrepareNext(Some(x)),
        ) && x@ == t@),
{
    let q = s0.playback.queue@;
    crate::queue_laws::law_play_next_heads_upcoming(q, t@);
    let q1 = q.play_next(t@);
    if q.repeat != crate::queue_view::RepeatMode::One {
        if !q1.manual_empty() {
            assert(q1.manual_order->0[0] == crate::queue_view::UpcomingEntry::User(0));
        }
        assert(q1.peek_next() == Some(t@));
    }
}

/// "Add to queue" puts the track right after the last track queued by
/// hand among those to come (at their front when none was), keeps the
/// rest in order and keeps the current track.
pub proof fn law_queue_action_follows_queued_rows(
    s0: State,
    t: Track,
    s1: State,
    e: Seq<Effect>,
    d0: (Seq<usize>, Seq<usize>),
    d1: (Seq<usize>, Seq<usize>),
)
    requires
        state_wf(s0),
        s0.playback.queue@.bounded(),
        s0.playback.queue@.user_queue.len() < usize::MAX,
        inner_outcome(s0, Action::TrackQueued(t), s1, e, d0, d1),
    ensures
        ({
            let u = s0.playback.queue@.upcoming();
            let j = crate::queue_view::last_user_pos(s0.playback.queue@.entries()) + 1;
            &&& 0 <= j <= u.len()
            &&& s1.playback.queue@.upcoming() == u.take(j) + seq![t@] + u.skip(j)
        }),
        s1.playback.queue@.current_track() == s0.playback.queue@.current_track(),
{
    crate::queue_laws::law_queue_track_after_queued_rows(s0.playback.queue@, t@);
}

} // verus!
