//! The reducer's rules for the home feed and the collection feeds:
//! asking for pages and taking them in.
use vstd::prelude::*;
use crate::app_state::State;
use crate::discovery::{
    same_opt_str, accepts_result, awaits, feed_requested, home_view, should_prefetch, Discovery, Entry, Feed, FeedPage, Shelf,
    Target, TargetView, PREFETCH_SHELVES,
};
use crate::effect::{ApiRequest, Effect, LibraryCacheWrite};
use crate::model::{artist_views, clone_opt_str, opt_id, opt_str, track_views, ArtistRef, MediaSource, Track, TrackView};
use crate::queue::opt_track;
use crate::reducer::request_effects;
use crate::state::Page;

verus! {

/// A card of a shelf, as values.
pub struct EntryView {
    pub title: Seq<char>,
    pub subtitle: Seq<char>,
    pub artwork: Option<Seq<char>>,
    pub target: TargetView,
    pub track: Option<TrackView>,
}

impl View for Entry {
    type V = EntryView;

    open spec fn view(&self) -> EntryView {
        EntryView {
            title: self.title@,
            subtitle: self.subtitle@,
            artwork: opt_str(self.artwork),
            target: self.target@,
            track: opt_track(self.track),
        }
    }
}

/// The views of a sequence of cards.
pub open spec fn entry_views(s: Seq<Entry>) -> Seq<EntryView> {
    s.map_values(|e: Entry| e@)
}

/// The views of a sequence of shelves.
pub open spec fn shelf_views(s: Seq<Shelf>) -> Seq<ShelfView> {
    s.map_values(|x: Shelf| x@)
}

/// A shelf, as values.
pub struct ShelfView {
    pub title: Seq<char>,
    pub entries: Seq<EntryView>,
}

impl View for Shelf {
    type V = ShelfView;

    open spec fn view(&self) -> ShelfView {
        ShelfView { title: self.title@, entries: entry_views(self.entries@) }
    }
}

/// A feed page, as values.
pub struct FeedPageView {
    pub shelves: Seq<ShelfView>,
    pub tracks: Seq<TrackView>,
    pub continuation: Option<Seq<char>>,
}

impl View for FeedPage {
    type V = FeedPageView;

    open spec fn view(&self) -> FeedPageView {
        FeedPageView {
            shelves: shelf_views(self.shelves@),
            tracks: track_views(self.tracks@),
            continuation: opt_str(self.continuation),
        }
    }
}

fn copy_entry(e: &Entry) -> (r: Entry)
    ensures
        r@ == e@,
{
    Entry {
        title: e.title.clone(),
        subtitle: e.subtitle.clone(),
        artwork: clone_opt_str(&e.artwork),
        target: e.target.clone(),
        track: match &e.track {
            Some(t) => Some(t.clone()),
            None => None,
        },
    }
}

fn copy_shelf(s: &Shelf) -> (r: Shelf)
    ensures
        r@ == s@,
{
    let mut entries: Vec<Entry> = Vec::new();
    let mut i: usize = 0;
    while i < s.entries.len()
        invariant
            i <= s.entries@.len(),
            entries@.len() == i,
            entry_views(entries@) == entry_views(s.entries@.take(i as int)),
        decreases s.entries@.len() - i,
    {
        let ghost before = entries@;
        let c = copy_entry(&s.entries[i]);
        entries.push(c);
        proof {
            assert forall|k: int| 0 <= k < i + 1 implies #[trigger] entries@[k]@ == s.entries@[k]@ by {
                if k < i {
                    assert(entries@[k] == before[k]);
                    assert(entry_views(before)[k] == entry_views(s.entries@.take(i as int))[k]);
                } else {
                    assert(entries@[k] == c);
                }
            }
            assert(entry_views(entries@) =~= entry_views(s.entries@.take(i + 1)));
        }
        i = i + 1;
    }
    proof {
        assert(s.entries@.take(s.entries@.len() as int) =~= s.entries@);
    }
    Shelf { title: s.title.clone(), entries }
}

/// A copy of a feed page, value for value.
pub fn copy_feed_page(p: &FeedPage) -> (r: FeedPage)
    ensures
        r@ == p@,
{
    let mut shelves: Vec<Shelf> = Vec::new();
    let mut i: usize = 0;
    while i < p.shelves.len()
        invariant
            i <= p.shelves@.len(),
            shelves@.len() == i,
            shelf_views(shelves@) == shelf_views(p.shelves@.take(i as int)),
        decreases p.shelves@.len() - i,
    {
        let ghost before = shelves@;
        let c = copy_shelf(&p.shelves[i]);
        shelves.push(c);
        proof {
            assert forall|k: int| 0 <= k < i + 1 implies #[trigger] shelves@[k]@ == p.shelves@[k]@ by {
                if k < i {
                    assert(shelves@[k] == before[k]);
                    assert(shelf_views(before)[k] == shelf_views(p.shelves@.take(i as int))[k]);
                } else {
                    assert(shelves@[k] == c);
                }
            }
            assert(shelf_views(shelves@) =~= shelf_views(p.shelves@.take(i + 1)));
        }
        i = i + 1;
    }
    proof {
        assert(p.shelves@.take(p.shelves@.len() as int) =~= p.shelves@);
    }
    FeedPage { shelves, tracks: crate::model::clone_tracks(&p.tracks), continuation: clone_opt_str(&p.continuation) }
}

/// "More" (or a first page) of the feed on screen: the open
/// collection's, or the home feed's on any other page.
pub open spec fn discovery_requested(s0: State, more: bool, s1: State, e: Seq<Effect>) -> bool {
    match s0.page {
        Page::Discovery(entry) => exists|t: Target, r: Option<ApiRequest>|
            {
                &&& t@ == entry.target@
                &&& s1 == State {
                    discovery: Discovery { collection: s1.discovery.collection, ..s0.discovery },
                    ..s0
                }
                &&& #[trigger] feed_requested(s0.discovery.collection, t, more, s1.discovery.collection, r)
                &&& e == request_effects(r)
            },
        _ => exists|t: Target, r: Option<ApiRequest>|
            {
                &&& t@ == home_view()
                &&& s1 == State { discovery: Discovery { home: s1.discovery.home, ..s0.discovery }, ..s0 }
                &&& #[trigger] feed_requested(s0.discovery.home, t, more, s1.discovery.home, r)
                &&& e == request_effects(r)
            },
    }
}

/// The effects of an optional request.
fn effects_of(r: Option<ApiRequest>) -> (e: Vec<Effect>)
    ensures
        e@ == request_effects(r),
{
    let mut e: Vec<Effect> = Vec::new();
    let ghost rr = r;
    match r {
        Some(q) => e.push(Effect::Api(q)),
        None => {},
    }
    assert(e@ =~= request_effects(rr));
    e
}

/// Asks for a page of the feed on screen.
pub fn request_discovery_page(state: &mut State, more: bool) -> (e: Vec<Effect>)
    ensures
        discovery_requested(*old(state), more, *final(state), e@),
{
    let target = match &state.page {
        Page::Discovery(entry) => Some(entry.target.clone()),
        _ => None,
    };
    match target {
        Some(t) => {
            let r = state.discovery.collection.request(t, more);
            effects_of(r)
        },
        None => {
            let r = state.discovery.home.request(Target::home(), more);
            effects_of(r)
        },
    }
}

/// What a feed becomes from a page result, as `Feed::apply` says.
pub open spec fn feed_applied(f0: Feed, request_id: u64, target: TargetView, result: Result<FeedPage, String>, f1: Feed) -> bool {
    &&& !awaits(f0, request_id, target) ==> f1 == f0
    &&& awaits(f0, request_id, target) ==> {
        &&& !f1.loading
        &&& f1.target == f0.target
        &&& f1.request_id == f0.request_id
        &&& f1.appending == f0.appending
        &&& match result {
            Ok(page) => {
                &&& f1.loaded
                &&& f1.error == f0.error
                &&& if f0.appending {
                    &&& f1.page.shelves@ == f0.page.shelves@ + page.shelves@
                    &&& track_views(f1.page.tracks@) == crate::discovery::append_new(
                        track_views(f0.page.tracks@),
                        track_views(page.tracks@),
                    )
                    &&& f1.page.continuation == if page.continuation is Some && opt_str(page.continuation)
                        == opt_str(f0.page.continuation) {
                        None
                    } else {
                        page.continuation
                    }
                } else {
                    f1.page == page
                }
            },
            Err(m) => {
                &&& f1.error == Some(m)
                &&& f1.page == f0.page
                &&& f1.loaded == f0.loaded
            },
        }
    }
}

/// The home feed, or the open collection's.
pub open spec fn feed_for(s: State, home: bool) -> Feed {
    if home {
        s.discovery.home
    } else {
        s.discovery.collection
    }
}

/// A page for the home feed (`target` home) or the open collection:
/// taken only when its feed waits for it. A page the home feed took is
/// written to the cache; while it shows fewer than six shelves and a
/// next page exists, the next page is asked for at once.
pub open spec fn discovery_loaded(
    s0: State,
    request_id: u64,
    target: Target,
    result: Result<FeedPage, String>,
    s1: State,
    e: Seq<Effect>,
) -> bool {
    let home = target@ == home_view();
    let f0 = feed_for(s0, home);
    let accepted = result is Ok && awaits(f0, request_id, target@);
    let f2 = feed_for(s1, home);
    let saved: int = if accepted && home {
        1
    } else {
        0
    };
    &&& s1 == if home {
        State { discovery: Discovery { home: f2, ..s0.discovery }, ..s0 }
    } else {
        State { discovery: Discovery { collection: f2, ..s0.discovery }, ..s0 }
    }
    &&& exists|f1: Feed|
        {
            &&& #[trigger] feed_applied(f0, request_id, target@, result, f1)
            &&& e.len() >= saved
            &&& accepted && home ==> (e[0] matches Effect::SaveLibraryCache(LibraryCacheWrite::Discovery(c)) && c@
                == f1.page@)
            &&& if accepted && !f0.appending && home && f1.loaded && !f1.loading
                && f1.page.shelves@.len() < PREFETCH_SHELVES && f1.page.continuation is Some {
                exists|t: Target, r: Option<ApiRequest>|
                    {
                        &&& t@ == home_view()
                        &&& #[trigger] feed_requested(f1, t, true, f2, r)
                        &&& e.skip(saved) == request_effects(r)
                    }
            } else {
                f2 == f1 && e.len() == saved
            }
        }
}

/// Takes a page for a feed.
#[verifier::rlimit(40)]
pub fn load_discovery_page(state: &mut State, request_id: u64, target: Target, result: Result<FeedPage, String>) -> (e:
    Vec<Effect>)
    ensures
        discovery_loaded(*old(state), request_id, target, result, *final(state), e@),
{
    let home = target.same(&Target::home());
    let ghost s0 = *state;
    let mut feed = Feed::default();
    if home {
        std::mem::swap(&mut feed, &mut state.discovery.home);
    } else {
        std::mem::swap(&mut feed, &mut state.discovery.collection);
    }
    let ghost f0 = feed;
    let ghost res = result;
    let accepted = accepts_result(&feed, request_id, &target, result.is_ok());
    let prefetch_more = accepted && !feed.appending;
    feed.apply(request_id, &target, result);
    let ghost f1 = feed;
    let mut e: Vec<Effect> = Vec::new();
    if accepted && home {
        e.push(Effect::SaveLibraryCache(LibraryCacheWrite::Discovery(copy_feed_page(&feed.page))));
    }
    let ghost e0 = e@;
    let mut r: Option<ApiRequest> = None;
    if should_prefetch(&feed, &target, prefetch_more) {
        let t = Target::home();
        let ghost tv = t;
        r = feed.request(t, true);
        let mut more = effects_of(r);
        e.append(&mut more);
        proof {
            assert(e@.skip(e0.len() as int) =~= request_effects(r));
            assert(feed_requested(f1, tv, true, feed, r));
        }
    }
    if home {
        std::mem::swap(&mut feed, &mut state.discovery.home);
    } else {
        std::mem::swap(&mut feed, &mut state.discovery.collection);
    }
    proof {
        assert(feed_applied(f0, request_id, target@, res, f1));
        assert(discovery_loaded(s0, request_id, target, res, *state, e@));
    }
    e
}

/// Whether two lists of artist credits read the same.
fn same_artists(a: &Vec<ArtistRef>, b: &Vec<ArtistRef>) -> (r: bool)
    ensures
        r == (artist_views(a@) == artist_views(b@)),
{
    if a.len() != b.len() {
        proof {
            assert(artist_views(a@).len() != artist_views(b@).len());
        }
        return false;
    }
    let mut i: usize = 0;
    while i < a.len()
        invariant
            i <= a@.len(),
            a@.len() == b@.len(),
            forall|k: int| 0 <= k < i ==> #[trigger] a@[k]@ == b@[k]@,
        decreases a@.len() - i,
    {
        let same_id = match (&a[i].id, &b[i].id) {
            (Some(x), Some(y)) => x.0 == y.0,
            (None, None) => true,
            _ => false,
        };
        if !(a[i].name == b[i].name && same_id) {
            proof {
                assert(artist_views(a@)[i as int] != artist_views(b@)[i as int]);
            }
            return false;
        }
        i = i + 1;
    }
    proof {
        assert(artist_views(a@) =~= artist_views(b@));
    }
    true
}

/// Whether two tracks read the same, field for field.
fn same_track(a: &Track, b: &Track) -> (r: bool)
    ensures
        r == (a@ == b@),
{
    let source = match (&a.source, &b.source) {
        (MediaSource::YouTube, MediaSource::YouTube) => true,
        (MediaSource::LocalFile { path: x }, MediaSource::LocalFile { path: y }) => crate::text::str_eq(
            x.as_str(),
            y.as_str(),
        ),
        _ => false,
    };
    let album_id = match (&a.album_id, &b.album_id) {
        (Some(x), Some(y)) => x.0 == y.0,
        (None, None) => true,
        _ => false,
    };
    let duration = match (&a.duration, &b.duration) {
        (Some(x), Some(y)) => x.secs == y.secs && x.nanos == y.nanos,
        (None, None) => true,
        _ => false,
    };
    let id = a.id.same(&b.id);
    let title = a.title == b.title;
    let artists = same_artists(&a.artists, &b.artists);
    let album = same_opt_str(&a.album, &b.album);
    let thumbnail = same_opt_str(&a.thumbnail_url, &b.thumbnail_url);
    let item = same_opt_str(&a.playlist_item_id, &b.playlist_item_id);
    source && id && title && artists && album && album_id && duration && thumbnail && item
}

/// Whether two cards read the same.
fn same_entry(a: &Entry, b: &Entry) -> (r: bool)
    ensures
        r == (a@ == b@),
{
    let track = match (&a.track, &b.track) {
        (Some(x), Some(y)) => same_track(x, y),
        (None, None) => true,
        _ => false,
    };
    a.title == b.title && a.subtitle == b.subtitle && same_opt_str(&a.artwork, &b.artwork) && a.target.same(
        &b.target,
    ) && track
}

/// Opening a card: the home feed's card shows home (asking for its
/// feed unless it loaded); another card shows its collection, unless
/// that collection already shows, and asks for its first page. The
/// page left joins the history.
pub open spec fn discovery_opened(s0: State, entry: Entry, s1: State, e: Seq<Effect>) -> bool {
    if entry.target@ == home_view() {
        &&& s1.history@ == s0.history@.push(s0.page)
        &&& s1.page is Home
        &&& if s0.discovery.home.loaded {
            s1 == State { history: s1.history, page: s1.page, ..s0 } && e.len() == 0
        } else {
            exists|t: Target, r: Option<ApiRequest>|
                {
                    &&& t@ == home_view()
                    &&& s1 == State {
                        history: s1.history,
                        page: s1.page,
                        discovery: Discovery { home: s1.discovery.home, ..s0.discovery },
                        ..s0
                    }
                    &&& #[trigger] feed_requested(s0.discovery.home, t, false, s1.discovery.home, r)
                    &&& e == request_effects(r)
                }
        }
    } else if s0.page matches Page::Discovery(x) && x@ == entry@ {
        s1 == s0 && e.len() == 0
    } else {
        &&& s1.history@ == s0.history@.push(s0.page)
        &&& s1.page matches Page::Discovery(x) && x@ == entry@
        &&& exists|t: Target, r: Option<ApiRequest>|
            {
                &&& t@ == entry.target@
                &&& s1 == State {
                    history: s1.history,
                    page: s1.page,
                    discovery: Discovery { collection: s1.discovery.collection, ..s0.discovery },
                    ..s0
                }
                &&& #[trigger] feed_requested(s0.discovery.collection, t, false, s1.discovery.collection, r)
                &&& e == request_effects(r)
            }
    }
}

/// Opens a card of a feed.
pub fn open_discovery_entry(state: &mut State, entry: Entry) -> (e: Vec<Effect>)
    ensures
        discovery_opened(*old(state), entry, *final(state), e@),
{
    if entry.target.same(&Target::home()) {
        crate::navigation::push_page(state, Page::Home);
        if state.discovery.home.loaded {
            return Vec::new();
        }
        let r = state.discovery.home.request(Target::home(), false);
        return effects_of(r);
    }
    let showing = match &state.page {
        Page::Discovery(x) => same_entry(x, &entry),
        _ => false,
    };
    if showing {
        return Vec::new();
    }
    let target = entry.target.clone();
    crate::navigation::push_page(state, Page::Discovery(Box::new(entry)));
    let r = state.discovery.collection.request(target, false);
    effects_of(r)
}

} // verus!
