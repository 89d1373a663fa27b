//! The reducer's rules for moving between pages and searching.
use vstd::prelude::*;
use crate::app_state::State;
use crate::effect::{ApiRequest, Effect};
use crate::listening_history::{history_requested, ListeningHistory};
use crate::discovery::{feed_requested, Discovery, Shelf, Target};
use crate::model::{AlbumId, ArtistId, ArtistRef, PlaylistId, SearchResults};
use crate::reducer::{fetch_missing_library, goes_home, library_filled, library_requests, navigate_home, request_effects};
use crate::state::{BrowseState, LibraryState, Loadable, Page, SearchState};
use crate::text::{trim, trim_str};

verus! {

/// A sidebar jump to `page`: no way back, the library filled in for the
/// home and library pages, the home feed asked for, and the listening
/// history asked for when it has not loaded.
pub open spec fn navigated(s0: State, page: Page, s1: State, e: Seq<Effect>) -> bool {
    match page {
        Page::Home => goes_home(s0, s1, e),
        Page::Library => {
            &&& s1 == State { history: s1.history, page: s1.page, library: s1.library, ..s0 }
            &&& s1.history@.len() == 0
            &&& s1.page == page
            &&& library_filled(s0.library, s1.library)
            &&& e == library_requests(s0.library)
        },
        Page::ListeningHistory => {
            &&& s1 == State {
                history: s1.history,
                page: s1.page,
                listening_history: s1.listening_history,
                ..s0
            }
            &&& s1.history@.len() == 0
            &&& s1.page == page
            &&& if s0.listening_history.loaded {
                s1.listening_history == s0.listening_history && e.len() == 0
            } else {
                exists|r: Option<ApiRequest>|
                    #[trigger] history_requested(s0.listening_history, false, s1.listening_history, r) && e
                        == request_effects(r)
            }
        },
        _ => {
            &&& s1 == State { history: s1.history, page: s1.page, ..s0 }
            &&& s1.history@.len() == 0
            &&& s1.page == page
            &&& e.len() == 0
        },
    }
}

/// Jumps to `page` from the sidebar.
pub fn navigate(state: &mut State, page: Page) -> (e: Vec<Effect>)
    ensures
        navigated(*old(state), page, *final(state), e@),
{
    match page {
        Page::Home => navigate_home(state),
        Page::Library => {
            state.history = Vec::new();
            let e = fetch_missing_library(&mut state.library);
            state.page = Page::Library;
            e
        },
        Page::ListeningHistory => {
            state.history = Vec::new();
            let mut e: Vec<Effect> = Vec::new();
            if !state.listening_history.loaded {
                let ghost h0 = state.listening_history;
                let r = state.listening_history.request(false);
                let ghost rr = r;
                match r {
                    Some(q) => e.push(Effect::Api(q)),
                    None => {},
                }
                proof {
                    assert(e@ =~= request_effects(rr));
                    assert(history_requested(h0, false, state.listening_history, rr));
                }
            }
            state.page = Page::ListeningHistory;
            e
        },
        other => {
            state.history = Vec::new();
            state.page = other;
            Vec::new()
        },
    }
}

/// A submitted search: nothing for a blank query; otherwise a new
/// request for the trimmed query, the results loading.
pub open spec fn search_submitted(s0: State, s1: State, e: Seq<Effect>) -> bool {
    let q = trim(s0.search.input@);
    if q.len() == 0 {
        s1 == s0 && e.len() == 0
    } else {
        &&& s1 == State {
            search: SearchState {
                request_id: (s0.search.request_id + 1) as u64,
                results: Loadable::Loading,
                ..s0.search
            },
            ..s0
        }
        &&& e.len() == 1
        &&& e[0] matches Effect::Api(ApiRequest::Search { request_id, query }) && request_id
            == s1.search.request_id && query@ == q
    }
}

/// Submits the search input.
pub fn submit_search(state: &mut State) -> (e: Vec<Effect>)
    requires
        old(state).search.request_id < u64::MAX,
    ensures
        search_submitted(*old(state), *final(state), e@),
{
    let query = trim_str(state.search.input.as_str());
    if query.unicode_len() == 0 {
        return Vec::new();
    }
    let query = query.to_owned();
    state.search.request_id = state.search.request_id + 1;
    state.search.results = Loadable::Loading;
    vec![Effect::Api(ApiRequest::Search { request_id: state.search.request_id, query })]
}

/// A search result: taken only for the latest request.
pub open spec fn search_loaded(
    s0: State,
    request_id: u64,
    result: Result<SearchResults, String>,
    s1: State,
) -> bool {
    if request_id != s0.search.request_id {
        s1 == s0
    } else {
        s1 == State {
            search: SearchState {
                results: match result {
                    Ok(v) => Loadable::Loaded(v),
                    Err(m) => Loadable::Failed(m),
                },
                ..s0.search
            },
            ..s0
        }
    }
}

/// Takes a search result.
pub fn load_search(state: &mut State, request_id: u64, result: Result<SearchResults, String>)
    ensures
        search_loaded(*old(state), request_id, result, *final(state)),
{
    if request_id != state.search.request_id {
        return;
    }
    crate::library::set_loadable(&mut state.search.results, result);
}

/// Leaving the page on screen for `page`: the page left joins the
/// history.
pub open spec fn left_for(s0: State, page: Page, s1: State) -> bool {
    &&& s1.history@ == s0.history@.push(s0.page)
    &&& s1.page == page
}

/// Shows `page`, keeping the page left in the history.
pub(crate) fn push_page(state: &mut State, page: Page)
    ensures
        *final(state) == (State { history: final(state).history, page: final(state).page, ..*old(state) }),
        left_for(*old(state), page, *final(state)),
{
    let mut page = page;
    std::mem::swap(&mut page, &mut state.page);
    state.history.push(page);
}

/// Opening the now-playing page: the page left joins the history,
/// unless it already shows.
pub open spec fn now_playing_opened(s0: State, s1: State) -> bool {
    if s0.page is NowPlaying {
        s1 == s0
    } else {
        &&& s1 == State { history: s1.history, page: s1.page, ..s0 }
        &&& left_for(s0, Page::NowPlaying, s1)
    }
}

/// Opens the now-playing page.
pub fn open_now_playing(state: &mut State)
    ensures
        now_playing_opened(*old(state), *final(state)),
{
    if let Page::NowPlaying = state.page {
        return;
    }
    push_page(state, Page::NowPlaying);
}

/// Opening an artist's page: nothing when it already shows; otherwise
/// the page left joins the history and the artist loads.
pub open spec fn artist_opened(s0: State, id: ArtistId, s1: State, e: Seq<Effect>) -> bool {
    if s0.page matches Page::Artist(x) && x@ == id@ {
        s1 == s0 && e.len() == 0
    } else {
        &&& s1 == State { history: s1.history, page: s1.page, browse: s1.browse, ..s0 }
        &&& s1.history@ == s0.history@.push(s0.page)
        &&& s1.page matches Page::Artist(x) && x@ == id@
        &&& s1.browse == BrowseState { artist: Loadable::Loading, ..s0.browse }
        &&& e.len() == 1
        &&& e[0] matches Effect::Api(ApiRequest::FetchArtist(x)) && x@ == id@
    }
}

/// Opens an artist's page.
pub fn open_artist(state: &mut State, id: ArtistId) -> (e: Vec<Effect>)
    ensures
        artist_opened(*old(state), id, *final(state), e@),
{
    if let Page::Artist(x) = &state.page {
        if x.0 == id.0 {
            return Vec::new();
        }
    }
    push_page(state, Page::Artist(ArtistId(id.0.clone())));
    state.browse.artist = Loadable::Loading;
    vec![Effect::Api(ApiRequest::FetchArtist(id))]
}

/// Opening an album's page, the same way as an artist's.
pub open spec fn album_opened(s0: State, id: AlbumId, s1: State, e: Seq<Effect>) -> bool {
    if s0.page matches Page::Album(x) && x@ == id@ {
        s1 == s0 && e.len() == 0
    } else {
        &&& s1 == State { history: s1.history, page: s1.page, browse: s1.browse, ..s0 }
        &&& s1.history@ == s0.history@.push(s0.page)
        &&& s1.page matches Page::Album(x) && x@ == id@
        &&& s1.browse == BrowseState { album: Loadable::Loading, ..s0.browse }
        &&& e.len() == 1
        &&& e[0] matches Effect::Api(ApiRequest::FetchAlbum(x)) && x@ == id@
    }
}

/// Opens an album's page.
pub fn open_album(state: &mut State, id: AlbumId) -> (e: Vec<Effect>)
    ensures
        album_opened(*old(state), id, *final(state), e@),
{
    if let Page::Album(x) = &state.page {
        if x.0 == id.0 {
            return Vec::new();
        }
    }
    push_page(state, Page::Album(AlbumId(id.0.clone())));
    state.browse.album = Loadable::Loading;
    vec![Effect::Api(ApiRequest::FetchAlbum(id))]
}

/// A search for an artist's name: the page left joins the history, the
/// search page shows the name, and the search runs.
pub open spec fn name_searched(s0: State, name: Seq<char>, s1: State, e: Seq<Effect>) -> bool {
    exists|mid: State|
        {
            &&& mid == State { history: mid.history, page: mid.page, search: mid.search, ..s0 }
            &&& left_for(s0, Page::Search, mid)
            &&& mid.search == SearchState { input: mid.search.input, ..s0.search }
            &&& mid.search.input@ == name
            &&& #[trigger] search_submitted(mid, s1, e)
        }
}

/// Searches for an artist by name.
pub fn search_by_artist_name(state: &mut State, name: String) -> (e: Vec<Effect>)
    requires
        old(state).search.request_id < u64::MAX,
    ensures
        name_searched(*old(state), name@, *final(state), e@),
{
    let ghost n = name@;
    push_page(state, Page::Search);
    state.search.input = name;
    let ghost mid = *state;
    let e = submit_search(state);
    assert(search_submitted(mid, *state, e@));
    e
}

/// The open playlist emptied and loading, its tracks asked for from
/// the network and the cache.
pub open spec fn playlist_load_started(l0: LibraryState, id: PlaylistId, l1: LibraryState, e: Seq<Effect>) -> bool {
    &&& l1 == LibraryState {
        open_playlist: Loadable::Loading,
        open_playlist_loading_more: false,
        incoming_playlist: l1.incoming_playlist,
        ..l0
    }
    &&& l1.incoming_playlist@.len() == 0
    &&& e.len() == 2
    &&& e[0] matches Effect::Api(ApiRequest::FetchPlaylistTracks(x)) && x@ == id@
    &&& e[1] matches Effect::LoadPlaylistTracksCache(x) && x@ == id@
}

/// Starts loading a playlist's tracks.
fn start_playlist_load(library: &mut LibraryState, id: PlaylistId) -> (e: Vec<Effect>)
    ensures
        playlist_load_started(*old(library), id, *final(library), e@),
{
    library.open_playlist = Loadable::Loading;
    library.open_playlist_loading_more = false;
    library.incoming_playlist.clear();
    let cached = id.clone();
    vec![Effect::Api(ApiRequest::FetchPlaylistTracks(id)), Effect::LoadPlaylistTracksCache(cached)]
}

/// Opening a playlist's page: nothing when it already shows; otherwise
/// the page left joins the history and the playlist loads.
pub open spec fn playlist_opened(s0: State, id: PlaylistId, s1: State, e: Seq<Effect>) -> bool {
    if s0.page matches Page::Playlist(x) && x@ == id@ {
        s1 == s0 && e.len() == 0
    } else {
        &&& s1 == State { history: s1.history, page: s1.page, library: s1.library, ..s0 }
        &&& s1.history@ == s0.history@.push(s0.page)
        &&& s1.page matches Page::Playlist(x) && x@ == id@
        &&& playlist_load_started(s0.library, id, s1.library, e)
    }
}

/// Opens a playlist's page.
pub fn open_playlist(state: &mut State, id: PlaylistId) -> (e: Vec<Effect>)
    ensures
        playlist_opened(*old(state), id, *final(state), e@),
{
    if let Page::Playlist(x) = &state.page {
        if x.same(&id) {
            return Vec::new();
        }
    }
    push_page(state, Page::Playlist(id.clone()));
    start_playlist_load(&mut state.library, id)
}

/// Following an artist link: with an id, the artist's page, keeping
/// the name to search for should the channel not be an artist; with
/// none, a search for the name.
pub open spec fn artist_link_opened(s0: State, artist: ArtistRef, s1: State, e: Seq<Effect>) -> bool {
    match artist.id {
        None => name_searched(s0, artist.name@, s1, e),
        Some(id) => if s0.page matches Page::Artist(x) && x@ == id@ {
            s1 == s0 && e.len() == 0
        } else {
            &&& s1 == State { history: s1.history, page: s1.page, browse: s1.browse, ..s0 }
            &&& s1.history@ == s0.history@.push(s0.page)
            &&& s1.page matches Page::Artist(x) && x@ == id@
            &&& s1.browse == BrowseState {
                artist: Loadable::Loading,
                artist_fallback: Some(artist.name),
                ..s0.browse
            }
            &&& e.len() == 1
            &&& e[0] matches Effect::Api(ApiRequest::FetchArtist(x)) && x@ == id@
        },
    }
}

/// Follows an artist link.
pub fn open_artist_link(state: &mut State, artist: ArtistRef) -> (e: Vec<Effect>)
    requires
        old(state).search.request_id < u64::MAX,
    ensures
        artist_link_opened(*old(state), artist, *final(state), e@),
{
    let ArtistRef { name, id } = artist;
    match id {
        None => search_by_artist_name(state, name),
        Some(id) => {
            let e = open_artist(state, id);
            if e.len() > 0 {
                state.browse.artist_fallback = Some(name);
            }
            e
        },
    }
}

/// Opening a shelf of the home feed on a page of its own.
pub open spec fn shelf_opened(s0: State, shelf: Shelf, s1: State) -> bool {
    &&& s1 == State { history: s1.history, page: s1.page, ..s0 }
    &&& left_for(s0, Page::DiscoveryShelf(Box::new(shelf)), s1)
}

/// Opens a shelf on a page of its own.
pub fn open_shelf(state: &mut State, shelf: Shelf)
    ensures
        shelf_opened(*old(state), shelf, *final(state)),
{
    push_page(state, Page::DiscoveryShelf(Box::new(shelf)));
}

/// `slot` holds a loaded (or refreshing) value that `holds` accepts.
pub open spec fn slot_holds<T>(slot: Loadable<T>, holds: spec_fn(T) -> bool) -> bool {
    match slot {
        Loadable::Loaded(v) => holds(v),
        Loadable::Refreshing(v) => holds(v),
        _ => false,
    }
}

/// Back: the page last left shows again. A collection feed is asked
/// for afresh, a playlist's tracks always load again, and an artist or
/// album page loads again unless its slot already holds that page.
/// With no page to go back to, nothing changes.
pub open spec fn went_back(s0: State, s1: State, e: Seq<Effect>) -> bool {
    let h = s0.history@;
    if h.len() == 0 {
        s1 == s0 && e.len() == 0
    } else {
        let prev = h.last();
        let mid = State { history: s1.history, page: prev, ..s0 };
        &&& s1.history@ == h.drop_last()
        &&& match prev {
            Page::Discovery(entry) => exists|t: Target, r: Option<ApiRequest>|
                {
                    &&& t@ == entry.target@
                    &&& s1 == State {
                        discovery: Discovery { collection: s1.discovery.collection, ..s0.discovery },
                        ..mid
                    }
                    &&& #[trigger] feed_requested(s0.discovery.collection, t, false, s1.discovery.collection, r)
                    &&& e == request_effects(r)
                },
            Page::Playlist(id) => s1 == State { library: s1.library, ..mid } && playlist_load_started(
                s0.library,
                id,
                s1.library,
                e,
            ),
            Page::Artist(id) => if slot_holds(s0.browse.artist, |p: crate::model::ArtistPage| p.id@ == id@) {
                s1 == mid && e.len() == 0
            } else {
                &&& s1 == State { browse: BrowseState { artist: Loadable::Loading, ..s0.browse }, ..mid }
                &&& e.len() == 1
                &&& e[0] matches Effect::Api(ApiRequest::FetchArtist(x)) && x@ == id@
            },
            Page::Album(id) => if slot_holds(s0.browse.album, |p: crate::model::AlbumPage| p.album.id@ == id@) {
                s1 == mid && e.len() == 0
            } else {
                &&& s1 == State { browse: BrowseState { album: Loadable::Loading, ..s0.browse }, ..mid }
                &&& e.len() == 1
                &&& e[0] matches Effect::Api(ApiRequest::FetchAlbum(x)) && x@ == id@
            },
            _ => s1 == mid && e.len() == 0,
        }
    }
}

/// Goes back to the page last left.
pub fn go_back(state: &mut State) -> (e: Vec<Effect>)
    ensures
        went_back(*old(state), *final(state), e@),
{
    if state.history.len() == 0 {
        return Vec::new();
    }
    let previous = match state.history.pop() {
        Some(p) => p,
        None => return Vec::new(),
    };
    match &previous {
        Page::Discovery(entry) => {
            let target = entry.target.clone();
            state.page = previous;
            let r = state.discovery.collection.request(target, false);
            let mut e: Vec<Effect> = Vec::new();
            match r {
                Some(q) => e.push(Effect::Api(q)),
                None => {},
            }
            proof {
                assert(e@ =~= request_effects(r));
            }
            e
        },
        Page::Playlist(id) => {
            let id = id.clone();
            state.page = previous;
            start_playlist_load(&mut state.library, id)
        },
        Page::Artist(id) => {
            let id = id.clone();
            state.page = previous;
            let holds = match &state.browse.artist {
                Loadable::Loaded(p) => p.id.0 == id.0,
                Loadable::Refreshing(p) => p.id.0 == id.0,
                _ => false,
            };
            if holds {
                return Vec::new();
            }
            state.browse.artist = Loadable::Loading;
            vec![Effect::Api(ApiRequest::FetchArtist(id))]
        },
        Page::Album(id) => {
            let id = id.clone();
            state.page = previous;
            let holds = match &state.browse.album {
                Loadable::Loaded(p) => p.album.id.0 == id.0,
                Loadable::Refreshing(p) => p.album.id.0 == id.0,
                _ => false,
            };
            if holds {
                return Vec::new();
            }
            state.browse.album = Loadable::Loading;
            vec![Effect::Api(ApiRequest::FetchAlbum(id))]
        },
        _ => {
            state.page = previous;
            Vec::new()
        },
    }
}

/// The notice shown when a channel has no artist page.
pub const NO_ARTIST_PAGE: &'static str = "No artist page for ";

/// The end of that notice.
pub const SHOWING_SEARCH: &'static str = ". Showing search results.";

/// An artist page: taken only while that artist shows; the name kept
/// from the link is then spent. A failure with such a name shows the
/// search for it instead, with a notice, in place of the artist page.
pub open spec fn artist_loaded(
    s0: State,
    id: ArtistId,
    result: Result<crate::model::ArtistPage, String>,
    s1: State,
    e: Seq<Effect>,
) -> bool {
    if !(s0.page matches Page::Artist(x) && x@ == id@) {
        s1 == s0 && e.len() == 0
    } else {
        match (result, s0.browse.artist_fallback) {
            (Err(_), Some(name)) => exists|mid: State|
                {
                    &&& mid == State { notices: mid.notices, browse: mid.browse, search: mid.search, page: Page::Search, ..s0 }
                    &&& mid.browse == BrowseState { artist: Loadable::NotAsked, artist_fallback: None, ..s0.browse }
                    &&& crate::domains::posts(s0, NO_ARTIST_PAGE@ + name@ + SHOWING_SEARCH@, State { notices: mid.notices, ..s0 })
                    &&& mid.search == SearchState { input: mid.search.input, ..s0.search }
                    &&& mid.search.input@ == name@
                    &&& #[trigger] search_submitted(mid, s1, e)
                },
            (r, _) => {
                &&& s1 == State {
                    browse: BrowseState {
                        artist: match r {
                            Ok(v) => Loadable::Loaded(v),
                            Err(m) => Loadable::Failed(m),
                        },
                        artist_fallback: None,
                        ..s0.browse
                    },
                    ..s0
                }
                &&& e.len() == 0
            },
        }
    }
}

/// Takes an artist page.
pub fn finish_artist_load(state: &mut State, id: ArtistId, result: Result<crate::model::ArtistPage, String>) -> (e:
    Vec<Effect>)
    requires
        old(state).search.request_id < u64::MAX,
    ensures
        artist_loaded(*old(state), id, result, *final(state), e@),
{
    let showing = match &state.page {
        Page::Artist(x) => x.0 == id.0,
        _ => false,
    };
    if !showing {
        return Vec::new();
    }
    let mut fallback: Option<String> = None;
    std::mem::swap(&mut fallback, &mut state.browse.artist_fallback);
    match (result, fallback) {
        (Err(_), Some(name)) => {
            let mut text = NO_ARTIST_PAGE.to_owned();
            text.append(name.as_str());
            text.append(SHOWING_SEARCH);
            let ghost s0 = *state;
            crate::domains::post_notice(state, text);
            let ghost posted = *state;
            state.browse.artist = Loadable::NotAsked;
            state.search.input = name;
            state.page = Page::Search;
            let ghost mid = *state;
            assert(posted == State { notices: mid.notices, ..s0 });
            let e = submit_search(state);
            assert(search_submitted(mid, *state, e@));
            e
        },
        (r, _) => {
            crate::library::set_loadable(&mut state.browse.artist, r);
            Vec::new()
        },
    }
}

} // verus!
