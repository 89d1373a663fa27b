//! The reducer's rules for library results: whole lists, streamed
//! pages, playlist covers, album pages and cache hits.
use vstd::prelude::*;
use crate::app_state::State;
use crate::effect::{ApiRequest, Effect, LibraryCacheWrite};
use crate::library::{
    apply_cached_if_loading, apply_covers, apply_list_page, apply_load_failure, id_views, ids_without_cover,
    lacking_cover, list_page_applied, merge_covers, previous_playlists, set_loadable, with_cover,
    with_kept_cover,
};
use crate::model::{
    clone_playlists, clone_tracks, playlist_views, track_views, AlbumId, AlbumPage, Playlist, PlaylistId,
    PlaylistView, Track,
};
use crate::state::{BrowseState, LibraryState, Loadable, Page};

verus! {

/// A failure put into a slot: a slot that shows data keeps it and the
/// message joins the notices; an empty slot shows the failure.
pub open spec fn failure_applied<T>(
    slot0: Loadable<T>,
    message: String,
    slot1: Loadable<T>,
    n0: Seq<String>,
    n1: Seq<String>,
) -> bool {
    match slot0.shown() {
        Some(v) => slot1 == Loadable::<T>::Loaded(v) && n1 == n0.push(message),
        None => slot1 == Loadable::<T>::Failed(message) && n1 == n0,
    }
}

/// A cache hit put into a slot: taken only while the slot loads.
pub open spec fn cache_applied<T>(slot0: Loadable<T>, cached: Option<T>, slot1: Loadable<T>) -> bool {
    match cached {
        Some(v) => if slot0 is Loading {
            slot1 == Loadable::<T>::Refreshing(v)
        } else {
            slot1 == slot0
        },
        None => slot1 == slot0,
    }
}

/// The page on screen is the playlist `id`.
pub open spec fn shows_playlist(s: State, id: PlaylistId) -> bool {
    s.page matches Page::Playlist(x) && x@ == id@
}

fn showing_playlist(state: &State, id: &PlaylistId) -> (r: bool)
    ensures
        r == shows_playlist(*state, *id),
{
    match &state.page {
        Page::Playlist(x) => x.same(id),
        _ => false,
    }
}

/// A fresh liked list: shown and written to the cache; a failure keeps
/// what shows, with a notice, or shows itself.
pub open spec fn liked_loaded(s0: State, result: Result<Vec<Track>, String>, s1: State, e: Seq<Effect>) -> bool {
    let l0 = s0.library;
    let l1 = s1.library;
    &&& s1 == State { library: l1, notices: s1.notices, ..s0 }
    &&& l1 == LibraryState { liked: l1.liked, liked_loading_more: false, ..l0 }
    &&& match result {
        Err(m) => failure_applied(l0.liked, m, l1.liked, s0.notices@, s1.notices@) && e.len() == 0,
        Ok(tracks) => {
            &&& s1.notices == s0.notices
            &&& l1.liked == Loadable::Loaded(tracks)
            &&& e.len() == 1
            &&& e[0] matches Effect::SaveLibraryCache(LibraryCacheWrite::Liked(c)) && track_views(c@)
                == track_views(tracks@)
        },
    }
}

/// Takes a fresh liked list.
pub fn finish_liked_load(state: &mut State, result: Result<Vec<Track>, String>) -> (e: Vec<Effect>)
    ensures
        liked_loaded(*old(state), result, *final(state), e@),
{
    state.library.liked_loading_more = false;
    match result {
        Err(message) => {
            apply_load_failure(&mut state.library.liked, message, &mut state.notices);
            Vec::new()
        },
        Ok(tracks) => {
            let copy = clone_tracks(&tracks);
            state.library.liked = Loadable::Loaded(tracks);
            vec![Effect::SaveLibraryCache(LibraryCacheWrite::Liked(copy))]
        },
    }
}

/// A fresh track list of the playlist `id`: taken only while that
/// playlist shows, the same way as the liked list.
pub open spec fn playlist_tracks_loaded(
    s0: State,
    id: PlaylistId,
    result: Result<Vec<Track>, String>,
    s1: State,
    e: Seq<Effect>,
) -> bool {
    let l0 = s0.library;
    let l1 = s1.library;
    if !shows_playlist(s0, id) {
        s1 == s0 && e.len() == 0
    } else {
        &&& s1 == State { library: l1, notices: s1.notices, ..s0 }
        &&& l1 == LibraryState { open_playlist: l1.open_playlist, open_playlist_loading_more: false, ..l0 }
        &&& match result {
            Err(m) => failure_applied(l0.open_playlist, m, l1.open_playlist, s0.notices@, s1.notices@) && e.len()
                == 0,
            Ok(tracks) => {
                &&& s1.notices == s0.notices
                &&& l1.open_playlist == Loadable::Loaded(tracks)
                &&& e.len() == 1
                &&& e[0] matches Effect::SaveLibraryCache(LibraryCacheWrite::PlaylistTracks(i, c)) && i@ == id@
                    && track_views(c@) == track_views(tracks@)
            },
        }
    }
}

/// Takes a fresh track list of a playlist.
pub fn finish_playlist_load(state: &mut State, id: PlaylistId, result: Result<Vec<Track>, String>) -> (e: Vec<
    Effect,
>)
    ensures
        playlist_tracks_loaded(*old(state), id, result, *final(state), e@),
{
    if !showing_playlist(state, &id) {
        return Vec::new();
    }
    state.library.open_playlist_loading_more = false;
    match result {
        Err(message) => {
            apply_load_failure(&mut state.library.open_playlist, message, &mut state.notices);
            Vec::new()
        },
        Ok(tracks) => {
            let copy = clone_tracks(&tracks);
            state.library.open_playlist = Loadable::Loaded(tracks);
            vec![Effect::SaveLibraryCache(LibraryCacheWrite::PlaylistTracks(id, copy))]
        },
    }
}

/// The cache write of a finished list, or nothing for a partial one.
pub open spec fn liked_saved(r: Option<Vec<Track>>) -> Seq<Effect> {
    match r {
        Some(all) => seq![Effect::SaveLibraryCache(LibraryCacheWrite::Liked(all))],
        None => Seq::empty(),
    }
}

/// One page of the liked list.
pub open spec fn liked_page_loaded(s0: State, tracks: Vec<Track>, finished: bool, s1: State, e: Seq<Effect>) -> bool {
    let l0 = s0.library;
    let l1 = s1.library;
    exists|r: Option<Vec<Track>>|
        {
            &&& s1 == State { library: l1, ..s0 }
            &&& l1 == LibraryState {
                liked: l1.liked,
                liked_loading_more: l1.liked_loading_more,
                incoming_liked: l1.incoming_liked,
                ..l0
            }
            &&& #[trigger] list_page_applied(
                l0.liked,
                l0.liked_loading_more,
                l0.incoming_liked@,
                tracks@,
                finished,
                l1.liked,
                l1.liked_loading_more,
                l1.incoming_liked@,
                r,
            )
            &&& e == liked_saved(r)
        }
}

/// Takes one page of the liked list.
pub fn finish_liked_page(state: &mut State, tracks: Vec<Track>, finished: bool) -> (e: Vec<Effect>)
    ensures
        liked_page_loaded(*old(state), tracks, finished, *final(state), e@),
{
    let full = apply_list_page(
        &mut state.library.liked,
        &mut state.library.liked_loading_more,
        &mut state.library.incoming_liked,
        tracks,
        finished,
    );
    let ghost r = full;
    let e = match full {
        Some(all) => vec![Effect::SaveLibraryCache(LibraryCacheWrite::Liked(all))],
        None => Vec::new(),
    };
    assert(e@ =~= liked_saved(r));
    e
}

/// The cache write of a finished playlist list, or nothing.
pub open spec fn playlist_saved(id: PlaylistId, r: Option<Vec<Track>>, e: Seq<Effect>) -> bool {
    match r {
        Some(all) => {
            &&& e.len() == 1
            &&& e[0] matches Effect::SaveLibraryCache(LibraryCacheWrite::PlaylistTracks(i, c)) && i@ == id@ && c
                == all
        },
        None => e.len() == 0,
    }
}

/// One page of the open playlist's tracks: taken only while that
/// playlist shows.
pub open spec fn playlist_page_loaded(
    s0: State,
    id: PlaylistId,
    tracks: Vec<Track>,
    finished: bool,
    s1: State,
    e: Seq<Effect>,
) -> bool {
    let l0 = s0.library;
    let l1 = s1.library;
    if !shows_playlist(s0, id) {
        s1 == s0 && e.len() == 0
    } else {
        exists|r: Option<Vec<Track>>|
            {
                &&& s1 == State { library: l1, ..s0 }
                &&& l1 == LibraryState {
                    open_playlist: l1.open_playlist,
                    open_playlist_loading_more: l1.open_playlist_loading_more,
                    incoming_playlist: l1.incoming_playlist,
                    ..l0
                }
                &&& #[trigger] list_page_applied(
                    l0.open_playlist,
                    l0.open_playlist_loading_more,
                    l0.incoming_playlist@,
                    tracks@,
                    finished,
                    l1.open_playlist,
                    l1.open_playlist_loading_more,
                    l1.incoming_playlist@,
                    r,
                )
                &&& playlist_saved(id, r, e)
            }
    }
}

/// Takes one page of a playlist's tracks.
pub fn finish_playlist_tracks_page(state: &mut State, id: PlaylistId, tracks: Vec<Track>, finished: bool) -> (e:
    Vec<Effect>)
    ensures
        playlist_page_loaded(*old(state), id, tracks, finished, *final(state), e@),
{
    if !showing_playlist(state, &id) {
        return Vec::new();
    }
    let full = apply_list_page(
        &mut state.library.open_playlist,
        &mut state.library.open_playlist_loading_more,
        &mut state.library.incoming_playlist,
        tracks,
        finished,
    );
    let ghost r = full;
    let e = match full {
        Some(all) => vec![Effect::SaveLibraryCache(LibraryCacheWrite::PlaylistTracks(id, all))],
        None => Vec::new(),
    };
    assert(playlist_saved(id, r, e@));
    e
}

/// `fresh` with the custom covers of `previous` kept.
pub open spec fn kept_covers(fresh: Seq<PlaylistView>, previous: Seq<PlaylistView>) -> Seq<PlaylistView> {
    fresh.map_values(|p: PlaylistView| with_kept_cover(p, previous))
}

/// The views of the playlists a slot shows, or none.
pub open spec fn shown_playlists(slot: Loadable<Vec<Playlist>>) -> Seq<PlaylistView> {
    match slot.shown() {
        Some(v) => playlist_views(v@),
        None => Seq::empty(),
    }
}

/// A fresh playlist list: shown with the custom covers an earlier list
/// found kept, written to the cache, and the covers still missing asked
/// for; a failure as for the liked list.
pub open spec fn playlists_loaded(s0: State, result: Result<Vec<Playlist>, String>, s1: State, e: Seq<Effect>) -> bool {
    let l0 = s0.library;
    let l1 = s1.library;
    &&& s1 == State { library: l1, notices: s1.notices, ..s0 }
    &&& l1 == LibraryState { playlists: l1.playlists, ..l0 }
    &&& match result {
        Err(m) => failure_applied(l0.playlists, m, l1.playlists, s0.notices@, s1.notices@) && e.len() == 0,
        Ok(fresh) => {
            let merged = kept_covers(playlist_views(fresh@), shown_playlists(l0.playlists));
            let missing = lacking_cover(merged);
            &&& s1.notices == s0.notices
            &&& l1.playlists matches Loadable::Loaded(v) && playlist_views(v@) == merged
            &&& e.len() == if missing.len() == 0 {
                1int
            } else {
                2int
            }
            &&& e[0] matches Effect::SaveLibraryCache(LibraryCacheWrite::Playlists(c)) && playlist_views(c@)
                == merged
            &&& missing.len() > 0 ==> (e[1] matches Effect::Api(ApiRequest::FetchPlaylistCovers(ids)) && id_views(
                ids@,
            ) == missing)
        },
    }
}

/// Takes a fresh playlist list.
pub fn finish_playlists_load(state: &mut State, result: Result<Vec<Playlist>, String>) -> (e: Vec<Effect>)
    ensures
        playlists_loaded(*old(state), result, *final(state), e@),
{
    let playlists = match result {
        Err(message) => {
            apply_load_failure(&mut state.library.playlists, message, &mut state.notices);
            return Vec::new();
        },
        Ok(playlists) => playlists,
    };
    let ghost fresh = playlists@;
    let previous = previous_playlists(&state.library.playlists);
    let merged = merge_covers(playlists, &previous);
    proof {
        assert(playlist_views(merged@) =~= kept_covers(playlist_views(fresh), playlist_views(previous@)));
    }
    let copy = clone_playlists(&merged);
    let missing = ids_without_cover(&merged);
    state.library.playlists = Loadable::Loaded(merged);
    let mut e = vec![Effect::SaveLibraryCache(LibraryCacheWrite::Playlists(copy))];
    if missing.len() > 0 {
        e.push(Effect::Api(ApiRequest::FetchPlaylistCovers(missing)));
    } else {
        assert(id_views(missing@).len() == 0);
    }
    e
}

/// `ps` with the covers of `covers` put on.
pub open spec fn covered(ps: Seq<PlaylistView>, covers: Seq<(PlaylistId, String)>) -> Seq<PlaylistView> {
    ps.map_values(|p: PlaylistView| with_cover(p, covers))
}

/// A batch of playlist covers: put on the playlists shown, fresh or
/// cached, and written to the cache. An empty batch, as a failed fetch
/// gives, changes nothing.
pub open spec fn covers_loaded(s0: State, covers: Seq<(PlaylistId, String)>, s1: State, e: Seq<Effect>) -> bool {
    let l0 = s0.library;
    let l1 = s1.library;
    match l0.playlists {
        Loadable::Loaded(ps) if covers.len() > 0 => {
            &&& s1 == State { library: LibraryState { playlists: l1.playlists, ..l0 }, ..s0 }
            &&& l1.playlists matches Loadable::Loaded(v) && playlist_views(v@) == covered(playlist_views(ps@), covers)
            &&& e.len() == 1
            &&& e[0] matches Effect::SaveLibraryCache(LibraryCacheWrite::Playlists(c)) && playlist_views(c@)
                == covered(playlist_views(ps@), covers)
        },
        Loadable::Refreshing(ps) if covers.len() > 0 => {
            &&& s1 == State { library: LibraryState { playlists: l1.playlists, ..l0 }, ..s0 }
            &&& l1.playlists matches Loadable::Refreshing(v) && playlist_views(v@) == covered(
                playlist_views(ps@),
                covers,
            )
            &&& e.len() == 1
            &&& e[0] matches Effect::SaveLibraryCache(LibraryCacheWrite::Playlists(c)) && playlist_views(c@)
                == covered(playlist_views(ps@), covers)
        },
        _ => s1 == s0 && e.len() == 0,
    }
}

/// Takes a batch of playlist covers.
pub fn finish_playlist_covers_load(state: &mut State, covers: Vec<(PlaylistId, String)>) -> (e: Vec<Effect>)
    ensures
        covers_loaded(*old(state), covers@, *final(state), e@),
{
    if covers.len() == 0 {
        return Vec::new();
    }
    let mut taken: Loadable<Vec<Playlist>> = Loadable::NotAsked;
    std::mem::swap(&mut taken, &mut state.library.playlists);
    match taken {
        Loadable::Loaded(ps) => {
            let ghost before = ps@;
            let ps = apply_covers(ps, &covers);
            proof {
                assert(playlist_views(ps@) =~= covered(playlist_views(before), covers@));
            }
            let copy = clone_playlists(&ps);
            state.library.playlists = Loadable::Loaded(ps);
            vec![Effect::SaveLibraryCache(LibraryCacheWrite::Playlists(copy))]
        },
        Loadable::Refreshing(ps) => {
            let ghost before = ps@;
            let ps = apply_covers(ps, &covers);
            proof {
                assert(playlist_views(ps@) =~= covered(playlist_views(before), covers@));
            }
            let copy = clone_playlists(&ps);
            state.library.playlists = Loadable::Refreshing(ps);
            vec![Effect::SaveLibraryCache(LibraryCacheWrite::Playlists(copy))]
        },
        other => {
            state.library.playlists = other;
            Vec::new()
        },
    }
}

/// An album page: taken only while that album shows.
pub open spec fn album_loaded(s0: State, id: AlbumId, result: Result<AlbumPage, String>, s1: State) -> bool {
    if s0.page matches Page::Album(x) && x@ == id@ {
        s1 == State {
            browse: BrowseState {
                album: match result {
                    Ok(v) => Loadable::Loaded(v),
                    Err(m) => Loadable::Failed(m),
                },
                ..s0.browse
            },
            ..s0
        }
    } else {
        s1 == s0
    }
}

/// Takes an album page.
pub fn finish_album_load(state: &mut State, id: AlbumId, result: Result<AlbumPage, String>)
    ensures
        album_loaded(*old(state), id, result, *final(state)),
{
    let showing = match &state.page {
        Page::Album(x) => x.0 == id.0,
        _ => false,
    };
    if showing {
        set_loadable(&mut state.browse.album, result);
    }
}

/// The cached library: each list taken only while it still loads.
pub open spec fn library_cache_loaded(
    s0: State,
    playlists: Option<Vec<Playlist>>,
    liked: Option<Vec<Track>>,
    s1: State,
) -> bool {
    let l0 = s0.library;
    let l1 = s1.library;
    &&& s1 == State { library: l1, ..s0 }
    &&& l1 == LibraryState { playlists: l1.playlists, liked: l1.liked, ..l0 }
    &&& cache_applied(l0.playlists, playlists, l1.playlists)
    &&& cache_applied(l0.liked, liked, l1.liked)
}

/// Takes the cached library.
pub fn apply_library_cache(state: &mut State, playlists: Option<Vec<Playlist>>, liked: Option<Vec<Track>>)
    ensures
        library_cache_loaded(*old(state), playlists, liked, *final(state)),
{
    apply_cached_if_loading(&mut state.library.playlists, playlists);
    apply_cached_if_loading(&mut state.library.liked, liked);
}

/// A playlist's cached tracks: taken only while that playlist shows and
/// still loads.
pub open spec fn playlist_cache_loaded(s0: State, id: PlaylistId, tracks: Vec<Track>, s1: State) -> bool {
    if shows_playlist(s0, id) {
        &&& s1 == State {
            library: LibraryState { open_playlist: s1.library.open_playlist, ..s0.library },
            ..s0
        }
        &&& cache_applied(s0.library.open_playlist, Some(tracks), s1.library.open_playlist)
    } else {
        s1 == s0
    }
}

/// Takes a playlist's cached tracks.
pub fn apply_playlist_tracks_cache(state: &mut State, id: PlaylistId, tracks: Vec<Track>)
    ensures
        playlist_cache_loaded(*old(state), id, tracks, *final(state)),
{
    if showing_playlist(state, &id) {
        apply_cached_if_loading(&mut state.library.open_playlist, Some(tracks));
    }
}

} // verus!
