//! The library's state rules: playlist covers, paged track lists,
//! load failures and cache hits, likes, counts, and the playback
//! decisions the reducer takes around them.
//!
//! Each rule is a function of the values it reads, so it holds the
//! same wherever the reducer applies it.
use vstd::prelude::*;
use crate::discovery::has_track_id;
use crate::model::{
    clone_opt_str, clone_playlists, clone_tracks, opt_str, playlist_views, track_views, Playlist,
    PlaylistId, PlaylistView, Track, TrackId, TrackView,
};
use crate::queue::Queue;
use crate::state::{Dialog, Loadable};
use crate::text::{contains_seq, contains_str, str_eq, trim, trim_str};

verus! {

/// The view of an optional string slice.
pub open spec fn opt_str_ref(o: Option<&str>) -> Option<Seq<char>> {
    match o {
        Some(s) => Some(s@),
        None => None,
    }
}

/// A cover url from the anonymous playlist page, rather than the Data
/// API's generic per-video thumbnail.
pub open spec fn custom_cover(url: Option<Seq<char>>) -> bool {
    url is Some && contains_seq(url->0, "googleusercontent.com"@)
}

/// A playlist cover url from the anonymous InnerTube playlist page,
/// rather than the Data API's generic per-video thumbnail.
pub fn is_custom_cover(url: Option<&str>) -> (r: bool)
    ensures
        r == custom_cover(opt_str_ref(url)),
{
    match url {
        Some(u) => contains_str(u, "googleusercontent.com"),
        None => false,
    }
}

/// The index of the first playlist of `ps` with the id `id`.
pub open spec fn first_with_id(ps: Seq<PlaylistView>, id: Seq<char>) -> Option<int>
    decreases ps.len(),
{
    if ps.len() == 0 {
        None
    } else {
        match first_with_id(ps.drop_last(), id) {
            Some(k) => Some(k),
            None => if ps.last().id == id {
                Some(ps.len() - 1)
            } else {
                None
            },
        }
    }
}

/// `id`'s custom cover in `ps`, when its first entry has one.
pub open spec fn cover_of(ps: Seq<PlaylistView>, id: Seq<char>) -> Option<Seq<char>> {
    match first_with_id(ps, id) {
        Some(k) => if custom_cover(ps[k].thumbnail_url) {
            ps[k].thumbnail_url
        } else {
            None
        },
        None => None,
    }
}

/// The index of the first playlist of `playlists` with the id `id`.
pub fn find_playlist(playlists: &[Playlist], id: &PlaylistId) -> (r: Option<usize>)
    ensures
        match r {
            Some(k) => first_with_id(playlist_views(playlists@), id@) == Some(k as int),
            None => first_with_id(playlist_views(playlists@), id@) is None,
        },
{
    let mut i: usize = 0;
    while i < playlists.len()
        invariant
            i <= playlists@.len(),
            first_with_id(playlist_views(playlists@.take(i as int)), id@) is None,
        decreases playlists@.len() - i,
    {
        proof {
            assert(playlist_views(playlists@.take(i + 1)).drop_last() =~= playlist_views(
                playlists@.take(i as int),
            ));
        }
        if playlists[i].id.same(id) {
            proof {
                lemma_first_with_id_extends(playlist_views(playlists@), id@, i + 1);
                assert(playlist_views(playlists@).take(i + 1) =~= playlist_views(playlists@.take(i + 1)));
            }
            return Some(i);
        }
        i = i + 1;
    }
    proof {
        assert(playlists@.take(playlists@.len() as int) =~= playlists@);
    }
    None
}

/// Once a prefix holds the id, longer prefixes find it at the same place.
pub proof fn lemma_first_with_id_extends(ps: Seq<PlaylistView>, id: Seq<char>, k: int)
    requires
        0 <= k <= ps.len(),
        first_with_id(ps.take(k), id) is Some,
    ensures
        first_with_id(ps, id) == first_with_id(ps.take(k), id),
    decreases ps.len() - k,
{
    if k < ps.len() {
        assert(ps.take(k + 1).drop_last() =~= ps.take(k));
        lemma_first_with_id_extends(ps, id, k + 1);
    } else {
        assert(ps.take(k) =~= ps);
    }
}

/// The index `first_with_id` finds holds the id.
pub proof fn lemma_first_with_id_holds(ps: Seq<PlaylistView>, id: Seq<char>)
    ensures
        match first_with_id(ps, id) {
            Some(k) => 0 <= k < ps.len() && ps[k].id == id,
            None => forall|k: int| 0 <= k < ps.len() ==> #[trigger] ps[k].id != id,
        },
    decreases ps.len(),
{
    if ps.len() > 0 {
        lemma_first_with_id_holds(ps.drop_last(), id);
        if first_with_id(ps.drop_last(), id) is None {
            assert forall|k: int| 0 <= k < ps.len() - 1 implies #[trigger] ps[k].id != id by {
                assert(ps.drop_last()[k] == ps[k]);
            }
        }
    }
}

/// `id`'s custom cover in `playlists`, when it has one.
pub fn custom_cover_of(playlists: &[Playlist], id: &PlaylistId) -> (r: Option<String>)
    ensures
        opt_str(r) == cover_of(playlist_views(playlists@), id@),
{
    let k = match find_playlist(playlists, id) {
        Some(k) => k,
        None => {
            return None;
        },
    };
    proof {
        lemma_first_with_id_holds(playlist_views(playlists@), id@);
    }
    let thumbnail = &playlists[k].thumbnail_url;
    let custom = match thumbnail {
        Some(url) => is_custom_cover(Some(url.as_str())),
        None => false,
    };
    if custom {
        clone_opt_str(thumbnail)
    } else {
        None
    }
}

/// A playlist after a refresh: its previous custom cover, where the
/// fresh data lacks one.
pub open spec fn with_kept_cover(p: PlaylistView, previous: Seq<PlaylistView>) -> PlaylistView {
    match cover_of(previous, p.id) {
        Some(cover) => if !custom_cover(p.thumbnail_url) {
            PlaylistView { thumbnail_url: Some(cover), ..p }
        } else {
            p
        },
        None => p,
    }
}

/// `fresh`, with each playlist's cover kept from `previous` where
/// `previous` already held a custom cover and `fresh` does not. A
/// refresh can never downgrade a playlist from its custom cover back
/// to the Data API's generic thumbnail.
pub fn merge_covers(fresh: Vec<Playlist>, previous: &[Playlist]) -> (r: Vec<Playlist>)
    ensures
        r@.len() == fresh@.len(),
        forall|i: int|
            0 <= i < fresh@.len() ==> #[trigger] r@[i]@ == with_kept_cover(
                fresh@[i]@,
                playlist_views(previous@),
            ),
{
    let mut out: Vec<Playlist> = Vec::new();
    let mut i: usize = 0;
    while i < fresh.len()
        invariant
            i <= fresh@.len(),
            out@.len() == i,
            forall|k: int|
                0 <= k < i ==> #[trigger] out@[k]@ == with_kept_cover(
                    fresh@[k]@,
                    playlist_views(previous@),
                ),
        decreases fresh@.len() - i,
    {
        let playlist = &fresh[i];
        let mut merged = playlist.clone();
        match custom_cover_of(previous, &playlist.id) {
            Some(cover) => {
                let fresh_custom = match &playlist.thumbnail_url {
                    Some(url) => is_custom_cover(Some(url.as_str())),
                    None => false,
                };
                if !fresh_custom {
                    merged.thumbnail_url = Some(cover);
                }
            },
            None => {},
        }
        out.push(merged);
        i = i + 1;
    }
    out
}

/// The ids of the playlists of `ps` that carry no custom cover.
pub open spec fn lacking_cover(ps: Seq<PlaylistView>) -> Seq<Seq<char>>
    decreases ps.len(),
{
    if ps.len() == 0 {
        Seq::empty()
    } else if custom_cover(ps.last().thumbnail_url) {
        lacking_cover(ps.drop_last())
    } else {
        lacking_cover(ps.drop_last()).push(ps.last().id)
    }
}

/// The views of a sequence of playlist ids.
pub open spec fn id_views(ids: Seq<PlaylistId>) -> Seq<Seq<char>> {
    ids.map_values(|id: PlaylistId| id@)
}

/// The playlists in `playlists` that carry no custom cover, by id.
pub fn ids_without_cover(playlists: &[Playlist]) -> (r: Vec<PlaylistId>)
    ensures
        id_views(r@) == lacking_cover(playlist_views(playlists@)),
{
    let mut ids: Vec<PlaylistId> = Vec::new();
    let mut i: usize = 0;
    while i < playlists.len()
        invariant
            i <= playlists@.len(),
            id_views(ids@) == lacking_cover(playlist_views(playlists@.take(i as int))),
        decreases playlists@.len() - i,
    {
        proof {
            assert(playlist_views(playlists@.take(i + 1)).drop_last() =~= playlist_views(
                playlists@.take(i as int),
            ));
        }
        let custom = match &playlists[i].thumbnail_url {
            Some(url) => is_custom_cover(Some(url.as_str())),
            None => false,
        };
        if !custom {
            let ghost before = ids@;
            ids.push(playlists[i].id.clone());
            proof {
                assert(id_views(ids@) =~= id_views(before).push(playlists@[i as int].id@));
            }
        }
        i = i + 1;
    }
    proof {
        assert(playlists@.take(playlists@.len() as int) =~= playlists@);
    }
    ids
}

/// The cover that `covers` carries for `id`: its first entry's.
pub open spec fn cover_for(covers: Seq<(PlaylistId, String)>, id: Seq<char>) -> Option<Seq<char>>
    decreases covers.len(),
{
    if covers.len() == 0 {
        None
    } else if covers[0].0@ == id {
        Some(covers[0].1@)
    } else {
        cover_for(covers.drop_first(), id)
    }
}

/// A playlist with the cover `covers` carries for it, if any.
pub open spec fn with_cover(p: PlaylistView, covers: Seq<(PlaylistId, String)>) -> PlaylistView {
    match cover_for(covers, p.id) {
        Some(url) => PlaylistView { thumbnail_url: Some(url), ..p },
        None => p,
    }
}

/// `playlists`, with each playlist's thumbnail replaced by its cover
/// in `covers`, when `covers` carries one for that playlist's id.
pub fn apply_covers(playlists: Vec<Playlist>, covers: &[(PlaylistId, String)]) -> (r: Vec<Playlist>)
    ensures
        r@.len() == playlists@.len(),
        forall|i: int|
            0 <= i < playlists@.len() ==> #[trigger] r@[i]@ == with_cover(playlists@[i]@, covers@),
{
    let mut out: Vec<Playlist> = Vec::new();
    let mut i: usize = 0;
    while i < playlists.len()
        invariant
            i <= playlists@.len(),
            out@.len() == i,
            forall|k: int| 0 <= k < i ==> #[trigger] out@[k]@ == with_cover(playlists@[k]@, covers@),
        decreases playlists@.len() - i,
    {
        let mut playlist = playlists[i].clone();
        let mut j: usize = 0;
        let mut found: Option<String> = None;
        assert(covers@.skip(0) =~= covers@);
        while j < covers.len()
            invariant
                j <= covers@.len(),
                playlist@ == playlists@[i as int]@,
                found is None ==> cover_for(covers@, playlist@.id) == cover_for(covers@.skip(j as int), playlist@.id),
                found is Some ==> cover_for(covers@, playlist@.id) == opt_str(found),
            decreases covers@.len() - j,
        {
            proof {
                assert(covers@.skip(j as int).drop_first() =~= covers@.skip(j + 1));
                assert(covers@.skip(j as int)[0] == covers@[j as int]);
            }
            if found.is_none() && covers[j].0.same(&playlist.id) {
                found = Some(covers[j].1.clone());
            }
            j = j + 1;
        }
        proof {
            assert(covers@.skip(covers@.len() as int) =~= Seq::<(PlaylistId, String)>::empty());
        }
        if let Some(url) = found {
            playlist.thumbnail_url = Some(url);
        }
        out.push(playlist);
        i = i + 1;
    }
    out
}

/// The playlist list a prior load left in `slot`, or an empty list
/// when there was none. Read before a fresh list overwrites `slot`,
/// so a fresh load can carry forward a cover the fresh data lacks.
pub fn previous_playlists(slot: &Loadable<Vec<Playlist>>) -> (r: Vec<Playlist>)
    ensures
        playlist_views(r@) == match slot.shown() {
            Some(v) => playlist_views(v@),
            None => Seq::empty(),
        },
{
    match slot.loaded() {
        Some(playlists) => clone_playlists(playlists),
        None => {
            let r: Vec<Playlist> = Vec::new();
            assert(playlist_views(r@) =~= Seq::empty());
            r
        },
    }
}

/// One page of a streamed track list applied to a slot, as
/// `apply_list_page` does it: `r` is the full list once the stream
/// finished.
pub open spec fn list_page_applied(
    slot0: Loadable<Vec<Track>>,
    more0: bool,
    incoming0: Seq<Track>,
    tracks: Seq<Track>,
    finished: bool,
    slot1: Loadable<Vec<Track>>,
    more1: bool,
    incoming1: Seq<Track>,
    r: Option<Vec<Track>>,
) -> bool {
    &&& r is Some <==> finished
    &&& match slot0 {
        Loadable::Refreshing(_) => {
            let all = incoming0 + tracks;
            &&& more1 == more0
            &&& if finished {
                &&& incoming1.len() == 0
                &&& slot1 matches Loadable::Loaded(v) && track_views(v@) == track_views(all)
                &&& r matches Some(v) && track_views(v@) == track_views(all)
            } else {
                &&& incoming1 == all
                &&& slot1 == slot0
            }
        },
        _ => {
            let before = match slot0 {
                Loadable::Loaded(v) => v@,
                _ => Seq::empty(),
            };
            &&& incoming1 == incoming0
            &&& slot1 matches Loadable::Loaded(v) && v@ == before + tracks
            &&& more1 == !finished
            &&& finished ==> (r matches Some(v) && track_views(v@) == track_views(before + tracks))
        },
    }
}

/// Applies one page of a streaming track list to `slot`. A page while
/// `slot` shows no cached value starts or grows the visible list at
/// once, with `loading_more` as the spinner flag. A page while `slot`
/// shows a cached refresh buffers into `incoming` instead, so the
/// cached list stays on screen until the stream finishes. Returns the
/// full list once `finished` is true, so the caller can cache it; a
/// partial list is never returned, and so never reaches the cache.
pub fn apply_list_page(
    slot: &mut Loadable<Vec<Track>>,
    loading_more: &mut bool,
    incoming: &mut Vec<Track>,
    tracks: Vec<Track>,
    finished: bool,
) -> (r: Option<Vec<Track>>)
    ensures
        list_page_applied(
            *old(slot),
            *old(loading_more),
            old(incoming)@,
            tracks@,
            finished,
            *final(slot),
            *final(loading_more),
            final(incoming)@,
            r,
        ),
{
    let mut tracks = tracks;
    if let Loadable::Refreshing(_) = slot {
        incoming.append(&mut tracks);
        if !finished {
            return None;
        }
        let mut all: Vec<Track> = Vec::new();
        std::mem::swap(&mut all, incoming);
        let copy = clone_tracks(&all);
        *slot = Loadable::Loaded(all);
        return Some(copy);
    }
    let mut taken: Loadable<Vec<Track>> = Loadable::NotAsked;
    std::mem::swap(&mut taken, slot);
    let mut existing = match taken {
        Loadable::Loaded(v) => v,
        _ => Vec::new(),
    };
    existing.append(&mut tracks);
    *loading_more = !finished;
    let result = if finished {
        Some(clone_tracks(&existing))
    } else {
        None
    };
    *slot = Loadable::Loaded(existing);
    result
}

/// Applies a network failure to a library slot. A slot that already
/// shows data, cached or from pages the stream already delivered,
/// keeps it on screen: the failure becomes a notice instead of an
/// error page. An empty slot shows the failure itself.
pub fn apply_load_failure<T>(slot: &mut Loadable<T>, message: String, notices: &mut Vec<String>)
    ensures
        match old(slot).shown() {
            Some(v) => {
                &&& *final(slot) == Loadable::<T>::Loaded(v)
                &&& final(notices)@ == old(notices)@.push(message)
            },
            None => {
                &&& *final(slot) == Loadable::<T>::Failed(message)
                &&& final(notices)@ == old(notices)@
            },
        },
{
    let mut taken: Loadable<T> = Loadable::NotAsked;
    std::mem::swap(&mut taken, slot);
    match taken {
        Loadable::Refreshing(shown) => {
            *slot = Loadable::Loaded(shown);
            notices.push(message);
        },
        Loadable::Loaded(shown) => {
            *slot = Loadable::Loaded(shown);
            notices.push(message);
        },
        _ => {
            *slot = Loadable::Failed(message);
        },
    }
}

/// Puts `cached` into `slot` as a silent refresh, but only while
/// `slot` is still loading. A slot that already holds fresh or
/// failed data keeps it, so a late cache hit can never overwrite a
/// network result.
pub fn apply_cached_if_loading<T>(slot: &mut Loadable<T>, cached: Option<T>)
    ensures
        match cached {
            Some(v) => if *old(slot) is Loading {
                *final(slot) == Loadable::<T>::Refreshing(v)
            } else {
                *final(slot) == *old(slot)
            },
            None => *final(slot) == *old(slot),
        },
{
    let value = match cached {
        Some(v) => v,
        None => {
            return ;
        },
    };
    if let Loadable::Loading = slot {
        *slot = Loadable::Refreshing(value);
    }
}

/// Prepares a loaded list for a streamed refetch. The pages of a
/// refetch buffer behind a `Refreshing` slot and replace the list at
/// the end. On a `Loaded` slot they would append, and the list would
/// double.
pub fn begin_refresh(slot: &mut Loadable<Vec<Track>>, loading_more: &mut bool, incoming: &mut Vec<Track>)
    ensures
        match old(slot).shown() {
            Some(v) => *final(slot) == Loadable::<Vec<Track>>::Refreshing(v),
            None => *final(slot) == *old(slot),
        },
        !*final(loading_more),
        final(incoming)@.len() == 0,
{
    let mut taken: Loadable<Vec<Track>> = Loadable::NotAsked;
    std::mem::swap(&mut taken, slot);
    *slot = match taken {
        Loadable::Loaded(tracks) => Loadable::Refreshing(tracks),
        Loadable::Refreshing(tracks) => Loadable::Refreshing(tracks),
        other => other,
    };
    *loading_more = false;
    incoming.clear();
}

/// Puts a network result into `slot`: the value, or the failure.
pub fn set_loadable<T>(slot: &mut Loadable<T>, result: Result<T, String>)
    ensures
        *final(slot) == match result {
            Ok(v) => Loadable::<T>::Loaded(v),
            Err(m) => Loadable::<T>::Failed(m),
        },
{
    *slot = match result {
        Ok(value) => Loadable::Loaded(value),
        Err(message) => Loadable::Failed(message),
    };
}

/// Whether the value `slot` shows, cached or fresh, passes `holds`;
/// a slot that shows nothing holds nothing.
pub fn slot_holds<T, F: Fn(&T) -> bool>(slot: &Loadable<T>, holds: F) -> (r: bool)
    requires
        match slot.shown() {
            Some(v) => call_requires(holds, (&v,)),
            None => true,
        },
    ensures
        match slot.shown() {
            Some(v) => call_ensures(holds, (&v,), r),
            None => !r,
        },
{
    match slot {
        Loadable::Loaded(value) => holds(value),
        Loadable::Refreshing(value) => holds(value),
        _ => false,
    }
}

/// `id` is a member of the liked-songs list on screen, cached or fresh.
pub open spec fn liked_spec(liked: Loadable<Vec<Track>>, id: Seq<char>) -> bool {
    match liked.shown() {
        Some(v) => has_track_id(track_views(v@), id),
        None => false,
    }
}

/// Whether `id` is a member of the liked-songs list, cached or fresh.
/// The row and player-bar views use it too, so the like button and
/// the row's context menu agree with the reducer about what "liked"
/// means.
pub fn is_liked(liked: &Loadable<Vec<Track>>, id: &TrackId) -> (r: bool)
    ensures
        r == liked_spec(*liked, id@),
{
    let tracks = match liked.loaded() {
        Some(t) => t,
        None => {
            return false;
        },
    };
    let mut i: usize = 0;
    while i < tracks.len()
        invariant
            i <= tracks@.len(),
            liked.shown() == Some(*tracks),
            forall|k: int| 0 <= k < i ==> #[trigger] tracks@[k].id@ != id@,
        decreases tracks@.len() - i,
    {
        if tracks[i].id.same(id) {
            proof {
                assert(track_views(tracks@)[i as int].id == id@);
                assert(has_track_id(track_views(tracks@), id@));
                assert(liked.shown() == Some(*tracks));
            }
            return true;
        }
        i = i + 1;
    }
    proof {
        assert forall|k: int| 0 <= k < track_views(tracks@).len() implies #[trigger] track_views(
            tracks@,
        )[k].id != id@ by {
            assert(tracks@[k].id@ != id@);
        }
    }
    false
}

/// A track count moved by `delta`, never below zero.
pub open spec fn moved_count(count: usize, delta: i64) -> usize {
    if count + delta < 0 {
        0
    } else {
        (count + delta) as usize
    }
}

/// A playlist with its known track count moved by `delta` when its id
/// is `id`; an unknown count stays unknown.
pub open spec fn with_delta(p: PlaylistView, id: Seq<char>, delta: i64) -> PlaylistView {
    if p.id == id && p.track_count is Some {
        PlaylistView { track_count: Some(moved_count(p.track_count->0, delta)), ..p }
    } else {
        p
    }
}

/// `playlists`, with the playlist named `id` having its track count
/// raised or lowered by `delta`. A playlist with no known count stays
/// unknown: there is nothing to adjust. The count never drops below
/// zero.
pub fn with_count_delta(playlists: Vec<Playlist>, id: &PlaylistId, delta: i64) -> (r: Vec<Playlist>)
    requires
        forall|i: int|
            0 <= i < playlists@.len() && #[trigger] playlists@[i].id@ == id@
                && playlists@[i].track_count is Some ==> playlists@[i].track_count->0 <= i64::MAX
                && i64::MIN <= playlists@[i].track_count->0 + delta <= i64::MAX,
    ensures
        r@.len() == playlists@.len(),
        forall|i: int|
            0 <= i < playlists@.len() ==> #[trigger] r@[i]@ == with_delta(playlists@[i]@, id@, delta),
{
    let mut out: Vec<Playlist> = Vec::new();
    let mut i: usize = 0;
    while i < playlists.len()
        invariant
            i <= playlists@.len(),
            out@.len() == i,
            forall|j: int|
                0 <= j < playlists@.len() && #[trigger] playlists@[j].id@ == id@
                    && playlists@[j].track_count is Some ==> playlists@[j].track_count->0 <= i64::MAX
                    && i64::MIN <= playlists@[j].track_count->0 + delta <= i64::MAX,
            forall|k: int|
                0 <= k < i ==> #[trigger] out@[k]@ == with_delta(playlists@[k]@, id@, delta),
        decreases playlists@.len() - i,
    {
        let mut playlist = playlists[i].clone();
        if playlist.id.same(id) {
            if let Some(count) = playlist.track_count {
                assert(playlists@[i as int].id@ == id@);
                let moved = count as i64 + delta;
                playlist.track_count = Some(
                    if moved < 0 {
                        0
                    } else {
                        moved as usize
                    },
                );
            }
        }
        out.push(playlist);
        i = i + 1;
    }
    out
}

/// `tracks` without the rows whose playlist item id is `item_id`.
pub open spec fn without_item_spec(tracks: Seq<TrackView>, item_id: Seq<char>) -> Seq<TrackView>
    decreases tracks.len(),
{
    if tracks.len() == 0 {
        Seq::empty()
    } else if tracks.last().playlist_item_id == Some(item_id) {
        without_item_spec(tracks.drop_last(), item_id)
    } else {
        without_item_spec(tracks.drop_last(), item_id).push(tracks.last())
    }
}

/// `tracks`, with the row whose playlist item id is `item_id` dropped.
pub fn without_item(tracks: Vec<Track>, item_id: &str) -> (r: Vec<Track>)
    ensures
        track_views(r@) == without_item_spec(track_views(tracks@), item_id@),
{
    let mut out: Vec<Track> = Vec::new();
    let mut i: usize = 0;
    while i < tracks.len()
        invariant
            i <= tracks@.len(),
            track_views(out@) == without_item_spec(track_views(tracks@.take(i as int)), item_id@),
        decreases tracks@.len() - i,
    {
        proof {
            assert(track_views(tracks@.take(i + 1)).drop_last() =~= track_views(tracks@.take(i as int)));
            assert(track_views(tracks@.take(i + 1)).last() == tracks@[i as int]@);
        }
        let drop = match &tracks[i].playlist_item_id {
            Some(item) => str_eq(item.as_str(), item_id),
            None => false,
        };
        if !drop {
            let ghost before = out@;
            out.push(tracks[i].clone());
            proof {
                assert(track_views(out@) =~= track_views(before).push(tracks@[i as int]@));
            }
        }
        i = i + 1;
    }
    proof {
        assert(tracks@.take(tracks@.len() as int) =~= tracks@);
    }
    out
}

/// The track a "New playlist" dialog was opened to add, if any.
pub fn dialog_then_add(dialog: Option<Dialog>) -> (r: Option<Track>)
    ensures
        r == match dialog {
            Some(Dialog::CreatePlaylist { then_add, .. }) => then_add,
            None => None,
        },
{
    match dialog {
        Some(Dialog::CreatePlaylist { then_add, .. }) => then_add,
        None => None,
    }
}

/// What comes after the current track.
#[derive(Debug, PartialEq)]
pub enum NextStep {
    Load(Track),
    FetchRadio(TrackId),
    Stop,
}

/// Chooses the next step from the queue's answer, the autoplay
/// setting, and the track that was playing: the queue's next track
/// when it has one, else a radio from the track that was playing when
/// autoplay is on, else a stop.
pub fn decide_next_step(next: Option<Track>, autoplay: bool, current: Option<&Track>) -> (r: NextStep)
    ensures
        match next {
            Some(t) => r == NextStep::Load(t),
            None => match current {
                Some(c) => if autoplay {
                    r is FetchRadio && r->FetchRadio_0@ == c.id@
                } else {
                    r is Stop
                },
                None => r is Stop,
            },
        },
{
    match next {
        Some(track) => NextStep::Load(track),
        None => match current {
            Some(c) => if autoplay {
                NextStep::FetchRadio(c.id.clone())
            } else {
                NextStep::Stop
            },
            None => NextStep::Stop,
        },
    }
}

/// `tracks` without the ones whose id the queue's context holds.
pub open spec fn not_in_context(q: crate::queue_view::QueueView, tracks: Seq<TrackView>) -> Seq<TrackView>
    decreases tracks.len(),
{
    if tracks.len() == 0 {
        Seq::empty()
    } else if q.contains(tracks.last().id) {
        not_in_context(q, tracks.drop_last())
    } else {
        not_in_context(q, tracks.drop_last()).push(tracks.last())
    }
}

/// The tracks not already present in `queue`, in their given order.
pub fn tracks_not_in(queue: &Queue, tracks: Vec<Track>) -> (r: Vec<Track>)
    ensures
        track_views(r@) == not_in_context(queue@, track_views(tracks@)),
{
    let mut out: Vec<Track> = Vec::new();
    let mut i: usize = 0;
    while i < tracks.len()
        invariant
            i <= tracks@.len(),
            track_views(out@) == not_in_context(queue@, track_views(tracks@.take(i as int))),
        decreases tracks@.len() - i,
    {
        proof {
            assert(track_views(tracks@.take(i + 1)).drop_last() =~= track_views(tracks@.take(i as int)));
            assert(track_views(tracks@.take(i + 1)).last() == tracks@[i as int]@);
        }
        if !queue.contains(&tracks[i].id) {
            let ghost before = out@;
            out.push(tracks[i].clone());
            proof {
                assert(track_views(out@) =~= track_views(before).push(tracks@[i as int]@));
            }
        }
        i = i + 1;
    }
    proof {
        assert(tracks@.take(tracks@.len() as int) =~= tracks@);
    }
    out
}

/// The view of an optional track id reference.
pub open spec fn opt_id_ref(o: Option<&TrackId>) -> Option<Seq<char>> {
    match o {
        Some(t) => Some(t@),
        None => None,
    }
}

/// Whether a hover on `hovered` should start a prefetch: not the
/// track already playing, and not a repeat of the last hover
/// prefetch.
pub fn should_hover_prefetch(
    current: Option<&TrackId>,
    last_hover_prefetch: Option<&TrackId>,
    hovered: &TrackId,
) -> (r: bool)
    ensures
        r == (opt_id_ref(current) != Some(hovered@) && opt_id_ref(last_hover_prefetch) != Some(
            hovered@,
        )),
{
    let playing = match current {
        Some(c) => c.same(hovered),
        None => false,
    };
    let repeated = match last_hover_prefetch {
        Some(l) => l.same(hovered),
        None => false,
    };
    !playing && !repeated
}

/// The account index for the X-Goog-AuthUser header: "0" when the
/// field stays empty.
pub open spec fn normalized_authuser_spec(draft: Seq<char>) -> Seq<char> {
    if trim(draft).len() == 0 {
        "0"@
    } else {
        trim(draft)
    }
}

/// The account index for the X-Goog-AuthUser header: "0" when the
/// field stays empty.
pub fn normalized_authuser(draft: &str) -> (r: String)
    ensures
        r@ == normalized_authuser_spec(draft@),
{
    let trimmed = trim_str(draft);
    if trimmed.is_empty() {
        return "0".to_owned();
    }
    trimmed.to_owned()
}

/// A refresh never downgrades a playlist from its custom cover: after
/// `merge_covers`, every playlist that had a custom cover before holds
/// a custom cover, and one the fresh data already gives keeps that one.
pub proof fn law_refresh_keeps_custom_covers(p: PlaylistView, previous: Seq<PlaylistView>)
    ensures
        cover_of(previous, p.id) is Some ==> custom_cover(with_kept_cover(p, previous).thumbnail_url),
        custom_cover(p.thumbnail_url) ==> with_kept_cover(p, previous) == p,
        with_kept_cover(p, previous).id == p.id,
{
}

} // verus!
