//! The reducer's rules for changes the user makes to the library:
//! likes, playlist rows, new playlists, and the server's answers.
use vstd::prelude::*;
use crate::app_state::State;
use crate::effect::{ApiRequest, Effect, LibraryCacheWrite};
use crate::library::{begin_refresh, dialog_then_add, is_liked, liked_spec, with_count_delta, with_delta, without_item, without_item_spec};
use crate::model::{clone_playlists, playlist_views, track_views, MediaSource, Playlist, PlaylistId, PlaylistView, Track, TrackId, TrackView};
use crate::reducer::distinct_keys;
use crate::reply::LibraryWrite;
use crate::state::{Dialog, LibraryState, Loadable, Page};
use crate::text::{trim, trim_str};

verus! {

/// What waits under key `k` among the pairs of `p`.
pub open spec fn pending_lookup(p: Seq<(u64, Option<Track>)>, k: u64) -> Option<Option<Track>> {
    if exists|i: int| 0 <= i < p.len() && p[i].0 == k {
        Some(p[choose|i: int| 0 <= i < p.len() && p[i].0 == k].1)
    } else {
        None
    }
}

/// With distinct keys, the pair at `i` is what its key finds.
pub proof fn lemma_pending_at(p: Seq<(u64, Option<Track>)>, i: int)
    requires
        distinct_keys(p),
        0 <= i < p.len(),
    ensures
        pending_lookup(p, p[i].0) == Some(p[i].1),
{
    let k = p[i].0;
    assert(exists|j: int| 0 <= j < p.len() && p[j].0 == k);
    let j = choose|j: int| 0 <= j < p.len() && p[j].0 == k;
    if j < i {
        assert(p[j].0 != p[i].0);
    } else if i < j {
        assert(p[i].0 != p[j].0);
    }
}

/// `p1` is `p0` with `k` now finding `v` and every other key finding
/// what it found before.
pub open spec fn pending_put(p0: Seq<(u64, Option<Track>)>, k: u64, v: Option<Track>, p1: Seq<(u64, Option<Track>)>) -> bool {
    &&& distinct_keys(p1)
    &&& pending_lookup(p1, k) == Some(v)
    &&& forall|k2: u64| k2 != k ==> #[trigger] pending_lookup(p1, k2) == pending_lookup(p0, k2)
}

/// `p1` is `p0` with `k` finding nothing and every other key finding
/// what it found before.
pub open spec fn pending_taken(p0: Seq<(u64, Option<Track>)>, k: u64, p1: Seq<(u64, Option<Track>)>) -> bool {
    &&& distinct_keys(p1)
    &&& pending_lookup(p1, k) is None
    &&& forall|k2: u64| k2 != k ==> #[trigger] pending_lookup(p1, k2) == pending_lookup(p0, k2)
}

/// The position of the pair with key `k`, if any.
fn find_pending(p: &Vec<(u64, Option<Track>)>, k: u64) -> (r: Option<usize>)
    ensures
        match r {
            Some(i) => i < p@.len() && p@[i as int].0 == k,
            None => forall|j: int| 0 <= j < p@.len() ==> #[trigger] p@[j].0 != k,
        },
{
    let mut i: usize = 0;
    while i < p.len()
        invariant
            i <= p@.len(),
            forall|j: int| 0 <= j < i ==> #[trigger] p@[j].0 != k,
        decreases p@.len() - i,
    {
        if p[i].0 == k {
            return Some(i);
        }
        i = i + 1;
    }
    None
}

/// Puts `v` under `k`, in place of what waited there.
fn put_pending(p: &mut Vec<(u64, Option<Track>)>, k: u64, v: Option<Track>)
    requires
        distinct_keys(old(p)@),
    ensures
        pending_put(old(p)@, k, v, final(p)@),
{
    let ghost p0 = p@;
    match find_pending(p, k) {
        Some(i) => {
            p.set(i, (k, v));
            proof {
                let p1 = p@;
                assert forall|a: int, b: int| 0 <= a < b < p1.len() implies #[trigger] p1[a].0 != #[trigger] p1[b].0 by {
                    assert(p0[a].0 != p0[b].0);
                }
                lemma_pending_at(p1, i as int);
                assert forall|k2: u64| k2 != k implies #[trigger] pending_lookup(p1, k2) == pending_lookup(p0, k2) by {
                    if exists|j: int| 0 <= j < p0.len() && p0[j].0 == k2 {
                        let j = choose|j: int| 0 <= j < p0.len() && p0[j].0 == k2;
                        lemma_pending_at(p0, j);
                        assert(p1[j] == p0[j]);
                        lemma_pending_at(p1, j);
                    } else {
                        assert forall|j: int| 0 <= j < p1.len() implies p1[j].0 != k2 by {
                            if j != i {
                                assert(p1[j] == p0[j]);
                            }
                        }
                    }
                }
            }
        },
        None => {
            p.push((k, v));
            proof {
                let p1 = p@;
                assert forall|a: int, b: int| 0 <= a < b < p1.len() implies #[trigger] p1[a].0 != #[trigger] p1[b].0 by {
                    if b < p0.len() {
                        assert(p0[a].0 != p0[b].0);
                    } else {
                        assert(p1[a] == p0[a]);
                    }
                }
                lemma_pending_at(p1, p0.len() as int);
                assert forall|k2: u64| k2 != k implies #[trigger] pending_lookup(p1, k2) == pending_lookup(p0, k2) by {
                    if exists|j: int| 0 <= j < p0.len() && p0[j].0 == k2 {
                        let j = choose|j: int| 0 <= j < p0.len() && p0[j].0 == k2;
                        lemma_pending_at(p0, j);
                        assert(p1[j] == p0[j]);
                        lemma_pending_at(p1, j);
                    } else {
                        assert forall|j: int| 0 <= j < p1.len() implies p1[j].0 != k2 by {
                            if j < p0.len() {
                                assert(p1[j] == p0[j]);
                            }
                        }
                    }
                }
            }
        },
    }
}

/// Takes what waits under `k`, if anything.
fn take_pending(p: &mut Vec<(u64, Option<Track>)>, k: u64) -> (r: Option<Option<Track>>)
    requires
        distinct_keys(old(p)@),
    ensures
        r == pending_lookup(old(p)@, k),
        pending_taken(old(p)@, k, final(p)@),
{
    let ghost p0 = p@;
    match find_pending(p, k) {
        Some(i) => {
            proof {
                lemma_pending_at(p0, i as int);
            }
            let (_, v) = p.remove(i);
            proof {
                let p1 = p@;
                assert forall|j: int| 0 <= j < p1.len() implies #[trigger] p1[j] == p0[if j < i { j } else { j + 1 }] by {}
                assert forall|a: int, b: int| 0 <= a < b < p1.len() implies #[trigger] p1[a].0 != #[trigger] p1[b].0 by {
                    let a0 = if a < i { a } else { a + 1 };
                    let b0 = if b < i { b } else { b + 1 };
                    assert(p1[a] == p0[a0]);
                    assert(p1[b] == p0[b0]);
                    assert(p0[a0].0 != p0[b0].0);
                }
                assert forall|j: int| 0 <= j < p1.len() implies p1[j].0 != k by {
                    let j0 = if j < i { j } else { j + 1 };
                    assert(p1[j] == p0[j0]);
                    assert(p0[j0].0 != p0[i as int].0);
                }
                assert forall|k2: u64| k2 != k implies #[trigger] pending_lookup(p1, k2) == pending_lookup(p0, k2) by {
                    if exists|j: int| 0 <= j < p0.len() && p0[j].0 == k2 {
                        let j = choose|j: int| 0 <= j < p0.len() && p0[j].0 == k2;
                        lemma_pending_at(p0, j);
                        let j1 = if j < i { j } else { j - 1 };
                        assert(j != i);
                        assert(p1[j1] == p0[j]);
                        lemma_pending_at(p1, j1);
                    } else {
                        assert forall|j: int| 0 <= j < p1.len() implies p1[j].0 != k2 by {
                            let j0 = if j < i { j } else { j + 1 };
                            assert(p1[j] == p0[j0]);
                        }
                    }
                }
            }
            Some(v)
        },
        None => None,
    }
}

/// `ts` without the tracks named `id`.
pub open spec fn without_id(ts: Seq<TrackView>, id: Seq<char>) -> Seq<TrackView>
    decreases ts.len(),
{
    if ts.len() == 0 {
        Seq::empty()
    } else if ts.last().id == id {
        without_id(ts.drop_last(), id)
    } else {
        without_id(ts.drop_last(), id).push(ts.last())
    }
}

/// `tracks` without the tracks named `id`.
fn without_track(tracks: Vec<Track>, id: &TrackId) -> (r: Vec<Track>)
    ensures
        track_views(r@) == without_id(track_views(tracks@), id@),
{
    let mut out: Vec<Track> = Vec::new();
    let mut i: usize = 0;
    while i < tracks.len()
        invariant
            i <= tracks@.len(),
            track_views(out@) == without_id(track_views(tracks@.take(i as int)), id@),
        decreases tracks@.len() - i,
    {
        proof {
            assert(track_views(tracks@.take(i + 1)).drop_last() =~= track_views(tracks@.take(i as int)));
            assert(track_views(tracks@.take(i + 1)).last() == tracks@[i as int]@);
        }
        if !tracks[i].id.same(id) {
            let ghost before = out@;
            out.push(tracks[i].clone());
            proof {
                assert(track_views(out@) =~= track_views(before).push(tracks@[i as int]@));
            }
        }
        i = i + 1;
    }
    proof {
        assert(tracks@.take(tracks@.len() as int) =~= tracks@);
    }
    out
}

/// A slot's list changed by `f` where it shows one, cached or fresh;
/// a slot with nothing to show stays as it is.
pub open spec fn shown_changed(
    slot0: Loadable<Vec<Track>>,
    slot1: Loadable<Vec<Track>>,
    f: spec_fn(Seq<TrackView>) -> Seq<TrackView>,
) -> bool {
    match slot0 {
        Loadable::Loaded(v) => slot1 matches Loadable::Loaded(w) && track_views(w@) == f(track_views(v@)),
        Loadable::Refreshing(v) => slot1 matches Loadable::Refreshing(w) && track_views(w@) == f(
            track_views(v@),
        ),
        _ => slot1 == slot0,
    }
}

/// The playlists shown with the count of `id` moved by `delta`.
pub open spec fn counts_moved(slot0: Loadable<Vec<Playlist>>, id: PlaylistId, delta: i64, slot1: Loadable<Vec<Playlist>>) -> bool {
    let f = |p: PlaylistView| with_delta(p, id@, delta);
    match slot0 {
        Loadable::Loaded(v) => slot1 matches Loadable::Loaded(w) && playlist_views(w@) == playlist_views(
            v@,
        ).map_values(f),
        Loadable::Refreshing(v) => slot1 matches Loadable::Refreshing(w) && playlist_views(w@)
            == playlist_views(v@).map_values(f),
        _ => slot1 == slot0,
    }
}

/// Moving the count of `id` by `delta` stays within the machine's
/// signed range for every playlist shown.
pub open spec fn counts_fit(slot: Loadable<Vec<Playlist>>, id: PlaylistId, delta: i64) -> bool {
    match slot.shown() {
        Some(v) => forall|i: int|
            0 <= i < v@.len() && #[trigger] v@[i].id@ == id@ && v@[i].track_count is Some ==> v@[i].track_count->0
                <= i64::MAX && i64::MIN <= v@[i].track_count->0 + delta <= i64::MAX,
        None => true,
    }
}

/// Moves the shown count of the playlist `id` by `delta`.
fn adjust_playlist_count(library: &mut LibraryState, id: &PlaylistId, delta: i64)
    requires
        counts_fit(old(library).playlists, *id, delta),
    ensures
        *final(library) == (LibraryState { playlists: final(library).playlists, ..*old(library) }),
        counts_moved(old(library).playlists, *id, delta, final(library).playlists),
{
    let mut taken: Loadable<Vec<Playlist>> = Loadable::NotAsked;
    std::mem::swap(&mut taken, &mut library.playlists);
    let ghost f = |p: PlaylistView| with_delta(p, id@, delta);
    library.playlists = match taken {
        Loadable::Loaded(ps) => {
            let ghost before = ps@;
            let moved = with_count_delta(ps, id, delta);
            proof {
                assert(playlist_views(moved@) =~= playlist_views(before).map_values(f));
            }
            Loadable::Loaded(moved)
        },
        Loadable::Refreshing(ps) => {
            let ghost before = ps@;
            let moved = with_count_delta(ps, id, delta);
            proof {
                assert(playlist_views(moved@) =~= playlist_views(before).map_values(f));
            }
            Loadable::Refreshing(moved)
        },
        other => other,
    };
}

/// A like or unlike: the liked list shown changes at once (a like
/// puts the track first, an unlike drops it) and the server is told.
/// A local file has no like.
pub open spec fn like_toggled(s0: State, track: Track, s1: State, e: Seq<Effect>) -> bool {
    let liked = liked_spec(s0.library.liked, track.id@);
    if track@.is_local() {
        s1 == s0 && e.len() == 0
    } else {
        &&& s1 == State { library: LibraryState { liked: s1.library.liked, ..s0.library }, ..s0 }
        &&& shown_changed(
            s0.library.liked,
            s1.library.liked,
            |ts: Seq<TrackView>|
                if liked {
                    without_id(ts, track.id@)
                } else {
                    seq![track@] + ts
                },
        )
        &&& e.len() == 1
        &&& e[0] == Effect::Api(ApiRequest::RateTrack { id: track.id, liked: !liked })
    }
}

/// Likes or unlikes a track.
pub fn toggle_track_like(state: &mut State, track: Track) -> (e: Vec<Effect>)
    ensures
        like_toggled(*old(state), track, *final(state), e@),
{
    if track.is_local() {
        return Vec::new();
    }
    let liked = is_liked(&state.library.liked, &track.id);
    let mut taken: Loadable<Vec<Track>> = Loadable::NotAsked;
    std::mem::swap(&mut taken, &mut state.library.liked);
    state.library.liked = match taken {
        Loadable::Loaded(ts) => Loadable::Loaded(liked_changed(ts, &track, liked)),
        Loadable::Refreshing(ts) => Loadable::Refreshing(liked_changed(ts, &track, liked)),
        other => other,
    };
    vec![Effect::Api(ApiRequest::RateTrack { id: track.id, liked: !liked })]
}

/// The liked list after a like (`liked` false) or an unlike of `track`.
fn liked_changed(ts: Vec<Track>, track: &Track, liked: bool) -> (r: Vec<Track>)
    ensures
        track_views(r@) == if liked {
            without_id(track_views(ts@), track.id@)
        } else {
            seq![track@] + track_views(ts@)
        },
{
    if liked {
        without_track(ts, &track.id)
    } else {
        let mut ts = ts;
        let ghost before = ts@;
        ts.insert(0, track.clone());
        proof {
            assert(track_views(ts@) =~= seq![track@] + track_views(before));
        }
        ts
    }
}

/// Adding a track to a playlist: its shown count rises and the server
/// is asked. A local file cannot join a playlist.
pub open spec fn track_added(s0: State, playlist: PlaylistId, track: Track, s1: State, e: Seq<Effect>) -> bool {
    if track@.is_local() {
        s1 == s0 && e.len() == 0
    } else {
        &&& s1 == State { library: LibraryState { playlists: s1.library.playlists, ..s0.library }, ..s0 }
        &&& counts_moved(s0.library.playlists, playlist, 1, s1.library.playlists)
        &&& e.len() == 1
        &&& e[0] matches Effect::Api(ApiRequest::AddToPlaylist { playlist: p, track: t }) && p@ == playlist@ && t
            == track
    }
}

/// Adds a track to a playlist.
pub fn add_track_to_playlist(state: &mut State, playlist: PlaylistId, track: Track) -> (e: Vec<Effect>)
    requires
        counts_fit(old(state).library.playlists, playlist, 1),
    ensures
        track_added(*old(state), playlist, track, *final(state), e@),
{
    if track.is_local() {
        return Vec::new();
    }
    adjust_playlist_count(&mut state.library, &playlist, 1);
    vec![Effect::Api(ApiRequest::AddToPlaylist { playlist, track })]
}

/// Removing a row from a playlist: the row leaves the open playlist,
/// the shown count falls, and the server is asked.
pub open spec fn track_removed(s0: State, playlist: PlaylistId, item_id: String, s1: State, e: Seq<Effect>) -> bool {
    &&& s1 == State {
        library: LibraryState {
            open_playlist: s1.library.open_playlist,
            playlists: s1.library.playlists,
            ..s0.library
        },
        ..s0
    }
    &&& shown_changed(
        s0.library.open_playlist,
        s1.library.open_playlist,
        |ts: Seq<TrackView>| without_item_spec(ts, item_id@),
    )
    &&& counts_moved(s0.library.playlists, playlist, -1i64, s1.library.playlists)
    &&& e.len() == 1
    &&& e[0] == Effect::Api(ApiRequest::RemoveFromPlaylist { playlist, item_id })
}

/// Removes a row from a playlist.
pub fn remove_track_from_playlist(state: &mut State, playlist: PlaylistId, item_id: String) -> (e: Vec<Effect>)
    requires
        counts_fit(old(state).library.playlists, playlist, -1i64),
    ensures
        track_removed(*old(state), playlist, item_id, *final(state), e@),
{
    let mut taken: Loadable<Vec<Track>> = Loadable::NotAsked;
    std::mem::swap(&mut taken, &mut state.library.open_playlist);
    state.library.open_playlist = match taken {
        Loadable::Loaded(ts) => Loadable::Loaded(without_item(ts, item_id.as_str())),
        Loadable::Refreshing(ts) => Loadable::Refreshing(without_item(ts, item_id.as_str())),
        other => other,
    };
    adjust_playlist_count(&mut state.library, &playlist, -1);
    vec![Effect::Api(ApiRequest::RemoveFromPlaylist { playlist, item_id })]
}

/// The dialog's Create: an empty title (after trimming) does nothing;
/// otherwise a new request id, the dialog closed, its remembered track
/// waiting under that id, and the create asked for.
pub open spec fn create_requested(s0: State, title: Seq<char>, s1: State, e: Seq<Effect>) -> bool {
    let t = trim(title);
    if t.len() == 0 {
        s1 == s0 && e.len() == 0
    } else {
        let id = (s0.playlist_request_id + 1) as u64;
        &&& s1 == State {
            playlist_request_id: id,
            dialog: None,
            pending_playlist_tracks: s1.pending_playlist_tracks,
            ..s0
        }
        &&& pending_put(s0.pending_playlist_tracks@, id, remembered(s0.dialog), s1.pending_playlist_tracks@)
        &&& e.len() == 1
        &&& e[0] matches Effect::Api(ApiRequest::CreatePlaylist(r, name)) && r == id && name@ == t
    }
}

/// The track an open "New playlist" dialog remembers, if any.
pub open spec fn remembered(dialog: Option<Dialog>) -> Option<Track> {
    match dialog {
        Some(Dialog::CreatePlaylist { then_add, .. }) => then_add,
        None => None,
    }
}

/// Asks for a new playlist.
pub fn request_playlist_create(state: &mut State, title: String) -> (e: Vec<Effect>)
    requires
        old(state).playlist_request_id < u64::MAX,
        distinct_keys(old(state).pending_playlist_tracks@),
    ensures
        create_requested(*old(state), title@, *final(state), e@),
{
    let name = trim_str(title.as_str());
    if name.unicode_len() == 0 {
        return Vec::new();
    }
    let name = name.to_owned();
    state.playlist_request_id = state.playlist_request_id + 1;
    let id = state.playlist_request_id;
    let mut dialog: Option<Dialog> = None;
    std::mem::swap(&mut dialog, &mut state.dialog);
    let then_add = dialog_then_add(dialog);
    put_pending(&mut state.pending_playlist_tracks, id, then_add);
    vec![Effect::Api(ApiRequest::CreatePlaylist(id, name))]
}

/// Opening the "New playlist" dialog, remembering the track that asked
/// for it; a local file cannot join a playlist.
pub open spec fn dialog_opened(s0: State, then_add: Option<Track>, s1: State) -> bool {
    if then_add matches Some(t) && t@.is_local() {
        s1 == s0
    } else {
        &&& s1 == State { dialog: s1.dialog, ..s0 }
        &&& s1.dialog matches Some(Dialog::CreatePlaylist { title_draft, then_add: a }) && title_draft@.len() == 0
            && a == then_add
    }
}

/// Opens the "New playlist" dialog.
pub fn open_create_dialog(state: &mut State, then_add: Option<Track>)
    ensures
        dialog_opened(*old(state), then_add, *final(state)),
{
    let local = match &then_add {
        Some(t) => t.is_local(),
        None => false,
    };
    if local {
        return ;
    }
    state.dialog = Some(Dialog::CreatePlaylist { title_draft: String::new(), then_add });
}

/// Typing in the dialog: its draft follows, when the dialog is open.
pub open spec fn draft_changed(s0: State, draft: String, s1: State) -> bool {
    match s0.dialog {
        Some(Dialog::CreatePlaylist { then_add, .. }) => s1 == State {
            dialog: Some(Dialog::CreatePlaylist { title_draft: draft, then_add }),
            ..s0
        },
        None => s1 == s0,
    }
}

/// Takes the dialog's draft.
pub fn set_create_playlist_draft(state: &mut State, draft: String)
    ensures
        draft_changed(*old(state), draft, *final(state)),
{
    let mut dialog: Option<Dialog> = None;
    std::mem::swap(&mut dialog, &mut state.dialog);
    state.dialog = match dialog {
        Some(Dialog::CreatePlaylist { then_add, .. }) => Some(Dialog::CreatePlaylist { title_draft: draft, then_add }),
        None => None,
    };
}

/// `track` as a confirmed row of a playlist: a row of the online
/// catalog, with the item id the server gave it.
pub open spec fn confirmed_row(track: Track, item_id: String) -> TrackView {
    TrackView {
        source: crate::model::MediaSourceView::YouTube,
        playlist_item_id: Some(item_id@),
        ..track@
    }
}

/// The server's answer to an add: a confirmed row joins the open
/// playlist when that playlist still shows; a failure lowers the count
/// again and becomes a notice.
pub open spec fn item_added(
    s0: State,
    playlist: PlaylistId,
    track: Track,
    result: Result<String, String>,
    s1: State,
) -> bool {
    match result {
        Ok(item_id) => if s0.page matches Page::Playlist(x) && x@ == playlist@ {
            &&& s1 == State {
                library: LibraryState { open_playlist: s1.library.open_playlist, ..s0.library },
                ..s0
            }
            &&& shown_changed(
                s0.library.open_playlist,
                s1.library.open_playlist,
                |ts: Seq<TrackView>| ts.push(confirmed_row(track, item_id)),
            )
        } else {
            s1 == s0
        },
        Err(m) => {
            &&& s1 == State {
                library: LibraryState { playlists: s1.library.playlists, ..s0.library },
                notices: s1.notices,
                ..s0
            }
            &&& counts_moved(s0.library.playlists, playlist, -1i64, s1.library.playlists)
            &&& s1.notices@ == s0.notices@.push(m)
        },
    }
}

/// `track` with the item id the server gave it.
fn as_confirmed(track: Track, item_id: String) -> (r: Track)
    ensures
        r@ == confirmed_row(track, item_id),
{
    let mut t = track;
    t.source = MediaSource::default();
    t.playlist_item_id = Some(item_id);
    t
}

/// Takes the server's answer to an add.
pub fn finish_playlist_item_add(state: &mut State, playlist: PlaylistId, track: Track, result: Result<String, String>)
    requires
        counts_fit(old(state).library.playlists, playlist, -1i64),
    ensures
        item_added(*old(state), playlist, track, result, *final(state)),
{
    match result {
        Ok(item_id) => {
            let showing = match &state.page {
                Page::Playlist(x) => x.same(&playlist),
                _ => false,
            };
            if !showing {
                return ;
            }
            let row = as_confirmed(track, item_id);
            let mut taken: Loadable<Vec<Track>> = Loadable::NotAsked;
            std::mem::swap(&mut taken, &mut state.library.open_playlist);
            state.library.open_playlist = match taken {
                Loadable::Loaded(mut ts) => {
                    let ghost before = ts@;
                    ts.push(row);
                    proof {
                        assert(track_views(ts@) =~= track_views(before).push(row@));
                    }
                    Loadable::Loaded(ts)
                },
                Loadable::Refreshing(mut ts) => {
                    let ghost before = ts@;
                    ts.push(row);
                    proof {
                        assert(track_views(ts@) =~= track_views(before).push(row@));
                    }
                    Loadable::Refreshing(ts)
                },
                other => other,
            };
        },
        Err(message) => {
            adjust_playlist_count(&mut state.library, &playlist, -1);
            state.notices.push(message);
        },
    }
}

/// The playlists slot with `playlist` first: put before the list it
/// shows, or alone in a slot with none.
pub open spec fn playlist_inserted(slot0: Loadable<Vec<Playlist>>, playlist: Playlist, slot1: Loadable<Vec<Playlist>>) -> bool {
    match slot0 {
        Loadable::Loaded(v) => slot1 matches Loadable::Loaded(w) && w@ == seq![playlist] + v@,
        Loadable::Refreshing(v) => slot1 matches Loadable::Refreshing(w) && w@ == seq![playlist] + v@,
        _ => slot1 matches Loadable::Loaded(w) && w@ == seq![playlist],
    }
}

/// Puts `playlist` first in the playlists slot.
fn insert_playlist(library: &mut LibraryState, playlist: Playlist)
    ensures
        *final(library) == (LibraryState { playlists: final(library).playlists, ..*old(library) }),
        playlist_inserted(old(library).playlists, playlist, final(library).playlists),
{
    let mut taken: Loadable<Vec<Playlist>> = Loadable::NotAsked;
    std::mem::swap(&mut taken, &mut library.playlists);
    library.playlists = match taken {
        Loadable::Loaded(mut ps) => {
            let ghost before = ps@;
            ps.insert(0, playlist);
            proof {
                assert(ps@ =~= seq![playlist] + before);
            }
            Loadable::Loaded(ps)
        },
        Loadable::Refreshing(mut ps) => {
            let ghost before = ps@;
            ps.insert(0, playlist);
            proof {
                assert(ps@ =~= seq![playlist] + before);
            }
            Loadable::Refreshing(ps)
        },
        _ => {
            let ps = vec![playlist];
            proof {
                assert(ps@ =~= seq![playlist]);
            }
            Loadable::Loaded(ps)
        },
    };
}

/// The views of the playlists a slot shows, or none.
pub open spec fn shown_views(slot: Loadable<Vec<Playlist>>) -> Seq<PlaylistView> {
    match slot.shown() {
        Some(v) => playlist_views(v@),
        None => Seq::empty(),
    }
}

/// The server's answer to a create: nothing for a request no longer
/// waited for; otherwise the request stops waiting, and a new playlist
/// goes first in the list, which is written to the cache, and receives
/// the track the dialog remembered, as a row's "Add to playlist" would;
/// a failure becomes a notice.
pub open spec fn playlist_created(
    s0: State,
    request_id: u64,
    result: Result<Playlist, String>,
    s1: State,
    e: Seq<Effect>,
) -> bool {
    match pending_lookup(s0.pending_playlist_tracks@, request_id) {
        None => s1 == s0 && e.len() == 0,
        Some(then_add) => match result {
            Err(m) => {
                &&& s1 == State { pending_playlist_tracks: s1.pending_playlist_tracks, notices: s1.notices, ..s0 }
                &&& pending_taken(s0.pending_playlist_tracks@, request_id, s1.pending_playlist_tracks@)
                &&& s1.notices@ == s0.notices@.push(m)
                &&& e.len() == 0
            },
            Ok(playlist) => exists|ins: State|
                {
                    &&& ins == State {
                        library: LibraryState { playlists: ins.library.playlists, ..s0.library },
                        pending_playlist_tracks: ins.pending_playlist_tracks,
                        ..s0
                    }
                    &&& pending_taken(s0.pending_playlist_tracks@, request_id, ins.pending_playlist_tracks@)
                    &&& #[trigger] playlist_inserted(s0.library.playlists, playlist, ins.library.playlists)
                    &&& e.len() >= 1
                    &&& e[0] matches Effect::SaveLibraryCache(LibraryCacheWrite::Playlists(c)) && playlist_views(c@)
                        == shown_views(ins.library.playlists)
                    &&& match then_add {
                        None => s1 == ins && e.len() == 1,
                        Some(t) => track_added(ins, playlist.id, t, s1, e.skip(1)),
                    }
                },
        },
    }
}

/// The playlists a slot shows, copied, or none.
fn playlists_snapshot(slot: &Loadable<Vec<Playlist>>) -> (r: Vec<Playlist>)
    ensures
        playlist_views(r@) == shown_views(*slot),
{
    match slot.loaded() {
        Some(ps) => clone_playlists(ps),
        None => {
            let r: Vec<Playlist> = Vec::new();
            assert(playlist_views(r@) =~= Seq::empty());
            r
        },
    }
}

/// Takes the server's answer to a create.
pub fn finish_playlist_create(state: &mut State, request_id: u64, result: Result<Playlist, String>) -> (e: Vec<
    Effect,
>)
    requires
        distinct_keys(old(state).pending_playlist_tracks@),
        match result {
            Ok(p) => counts_fit(old(state).library.playlists, p.id, 1) && (p.track_count matches Some(c) ==> c
                < i64::MAX),
            Err(_) => true,
        },
    ensures
        playlist_created(*old(state), request_id, result, *final(state), e@),
{
    if find_pending(&state.pending_playlist_tracks, request_id).is_none() {
        return Vec::new();
    }
    let then_add = match take_pending(&mut state.pending_playlist_tracks, request_id) {
        Some(t) => t,
        None => return Vec::new(),
    };
    let playlist = match result {
        Err(message) => {
            state.notices.push(message);
            return Vec::new();
        },
        Ok(p) => p,
    };
    let id = playlist.id.clone();
    insert_playlist(&mut state.library, playlist);
    let ghost ins = *state;
    let snapshot = playlists_snapshot(&state.library.playlists);
    let mut e = vec![Effect::SaveLibraryCache(LibraryCacheWrite::Playlists(snapshot))];
    match then_add {
        None => {},
        Some(track) => {
            proof {
                assert(counts_fit(ins.library.playlists, id, 1)) by {
                    let v = ins.library.playlists.shown()->0;
                    assert forall|i: int|
                        0 <= i < v@.len() && #[trigger] v@[i].id@ == id@ && v@[i].track_count is Some implies v@[i].track_count->0
                            <= i64::MAX && i64::MIN <= v@[i].track_count->0 + 1 <= i64::MAX by {
                        if i > 0 {
                            assert(v@[i] == old(state).library.playlists.shown()->0@[i - 1]);
                        }
                    }
                }
            }
            let mut more = add_track_to_playlist(state, id, track);
            let ghost added = more@;
            e.append(&mut more);
            proof {
                assert(e@.skip(1) =~= added);
            }
        },
    }
    e
}

/// The server's answer to a like or a playlist-row write: a success
/// needs nothing; a failure becomes a notice and the list it touched
/// is fetched afresh behind what shows.
pub open spec fn write_finished(s0: State, what: LibraryWrite, result: Result<(), String>, s1: State, e: Seq<Effect>) -> bool {
    match result {
        Ok(_) => s1 == s0 && e.len() == 0,
        Err(m) => {
            let l0 = s0.library;
            let l1 = s1.library;
            &&& s1 == State { library: l1, notices: s1.notices, ..s0 }
            &&& s1.notices@ == s0.notices@.push(m)
            &&& match what {
                LibraryWrite::Liked => {
                    &&& l1 == LibraryState {
                        liked: l1.liked,
                        liked_loading_more: false,
                        incoming_liked: l1.incoming_liked,
                        ..l0
                    }
                    &&& l1.incoming_liked@.len() == 0
                    &&& l1.liked == match l0.liked.shown() {
                        Some(v) => Loadable::Refreshing(v),
                        None => l0.liked,
                    }
                    &&& e.len() == 1
                    &&& e[0] == Effect::Api(ApiRequest::FetchLiked)
                },
                LibraryWrite::Playlist(id) => {
                    &&& l1 == LibraryState {
                        open_playlist: l1.open_playlist,
                        open_playlist_loading_more: false,
                        incoming_playlist: l1.incoming_playlist,
                        ..l0
                    }
                    &&& l1.incoming_playlist@.len() == 0
                    &&& l1.open_playlist == match l0.open_playlist.shown() {
                        Some(v) => Loadable::Refreshing(v),
                        None => l0.open_playlist,
                    }
                    &&& e.len() == 2
                    &&& e[0] == Effect::Api(ApiRequest::FetchPlaylistTracks(id))
                    &&& e[1] == Effect::Api(ApiRequest::FetchPlaylists)
                },
            }
        },
    }
}

/// Takes the server's answer to a library write.
pub fn finish_library_write(state: &mut State, what: LibraryWrite, result: Result<(), String>) -> (e: Vec<Effect>)
    ensures
        write_finished(*old(state), what, result, *final(state), e@),
{
    let message = match result {
        Ok(_) => return Vec::new(),
        Err(m) => m,
    };
    state.notices.push(message);
    match what {
        LibraryWrite::Liked => {
            begin_refresh(
                &mut state.library.liked,
                &mut state.library.liked_loading_more,
                &mut state.library.incoming_liked,
            );
            vec![Effect::Api(ApiRequest::FetchLiked)]
        },
        LibraryWrite::Playlist(id) => {
            begin_refresh(
                &mut state.library.open_playlist,
                &mut state.library.open_playlist_loading_more,
                &mut state.library.incoming_playlist,
            );
            vec![Effect::Api(ApiRequest::FetchPlaylistTracks(id)), Effect::Api(ApiRequest::FetchPlaylists)]
        },
    }
}

} // verus!
