//! Account-scoped, paginated YouTube discovery and collection navigation.
use vstd::prelude::*;
use crate::effect::ApiRequest;
use crate::model::{clone_opt_str, opt_str, track_views, Track, TrackView};
use crate::text::str_eq;

verus! {

/// What a discovery page loads: a browse id, or a watch list.
#[derive(Debug, PartialEq, Eq)]
pub enum Target {
    Browse { id: String, params: Option<String> },
    Watch { video: Option<String>, playlist: Option<String>, params: Option<String> },
}

/// A target by its characters.
pub enum TargetView {
    Browse { id: Seq<char>, params: Option<Seq<char>> },
    Watch {
        video: Option<Seq<char>>,
        playlist: Option<Seq<char>>,
        params: Option<Seq<char>>,
    },
}

impl View for Target {
    type V = TargetView;

    open spec fn view(&self) -> TargetView {
        match self {
            Target::Browse { id, params } => TargetView::Browse { id: id@, params: opt_str(*params) },
            Target::Watch { video, playlist, params } => TargetView::Watch {
                video: opt_str(*video),
                playlist: opt_str(*playlist),
                params: opt_str(*params),
            },
        }
    }
}

impl Clone for Target {
    fn clone(&self) -> (r: Self)
        ensures
            r@ == self@,
    {
        match self {
            Target::Browse { id, params } => Target::Browse {
                id: id.clone(),
                params: clone_opt_str(params),
            },
            Target::Watch { video, playlist, params } => Target::Watch {
                video: clone_opt_str(video),
                playlist: clone_opt_str(playlist),
                params: clone_opt_str(params),
            },
        }
    }
}

/// Whether two optional strings hold the same characters.
pub fn same_opt_str(a: &Option<String>, b: &Option<String>) -> (r: bool)
    ensures
        r == (opt_str(*a) == opt_str(*b)),
{
    match (a, b) {
        (Some(x), Some(y)) => str_eq(x.as_str(), y.as_str()),
        (None, None) => true,
        _ => false,
    }
}

/// The target of the home feed.
pub open spec fn home_view() -> TargetView {
    TargetView::Browse { id: "FEtopics_music"@, params: None }
}

impl Target {
    /// The home feed's target.
    pub fn home() -> (r: Self)
        ensures
            r@ == home_view(),
    {
        Target::Browse { id: "FEtopics_music".to_owned(), params: None }
    }

    /// Whether `self` and `other` name the same page.
    pub fn same(&self, other: &Target) -> (r: bool)
        ensures
            r == (self@ == other@),
    {
        match (self, other) {
            (Target::Browse { id: a, params: p }, Target::Browse { id: b, params: q }) => {
                str_eq(a.as_str(), b.as_str()) && same_opt_str(p, q)
            },
            (
                Target::Watch { video: v1, playlist: l1, params: p1 },
                Target::Watch { video: v2, playlist: l2, params: p2 },
            ) => same_opt_str(v1, v2) && same_opt_str(l1, l2) && same_opt_str(p1, p2),
            _ => false,
        }
    }
}

/// One card of a shelf.
#[derive(Clone, Debug, PartialEq)]
pub struct Entry {
    pub title: String,
    pub subtitle: String,
    pub artwork: Option<String>,
    pub target: Target,
    pub track: Option<Track>,
}

/// A titled row of cards.
#[derive(Clone, Debug, PartialEq)]
pub struct Shelf {
    pub title: String,
    pub entries: Vec<Entry>,
}

/// One page of a feed.
#[derive(Debug, PartialEq)]
pub struct FeedPage {
    pub shelves: Vec<Shelf>,
    pub tracks: Vec<Track>,
    pub continuation: Option<String>,
}

impl FeedPage {
    /// The page holds nothing yet.
    pub open spec fn is_empty_page(self) -> bool {
        self.shelves@.len() == 0 && self.tracks@.len() == 0 && self.continuation is None
    }
}

impl Default for FeedPage {
    fn default() -> (r: Self)
        ensures
            r.is_empty_page(),
    {
        FeedPage { shelves: Vec::new(), tracks: Vec::new(), continuation: None }
    }
}

/// A paginated feed and the request in flight for it.
#[derive(Debug)]
pub struct Feed {
    pub page: FeedPage,
    pub target: Option<Target>,
    pub loaded: bool,
    pub loading: bool,
    pub error: Option<String>,
    pub request_id: u64,
    pub appending: bool,
}

impl Default for Feed {
    fn default() -> (r: Self)
        ensures
            r.page.is_empty_page(),
            r.target is None,
            !r.loaded,
            !r.loading,
            r.error is None,
            r.request_id == 0,
            !r.appending,
    {
        Feed {
            page: FeedPage::default(),
            target: None,
            loaded: false,
            loading: false,
            error: None,
            request_id: 0,
            appending: false,
        }
    }
}

/// The request id after `id`, wrapping past the largest.
pub open spec fn next_request_id(id: u64) -> u64 {
    if id == u64::MAX {
        0
    } else {
        (id + 1) as u64
    }
}

/// The view of an optional target.
pub open spec fn opt_target(t: Option<Target>) -> Option<TargetView> {
    match t {
        Some(x) => Some(x@),
        None => None,
    }
}

/// Some track of `tracks` has the id `id`.
pub open spec fn has_track_id(tracks: Seq<TrackView>, id: Seq<char>) -> bool {
    exists|i: int| 0 <= i < tracks.len() && #[trigger] tracks[i].id == id
}

/// `existing` followed by each track of `incoming` whose id is not
/// there yet, in order.
pub open spec fn append_new(existing: Seq<TrackView>, incoming: Seq<TrackView>) -> Seq<TrackView>
    decreases incoming.len(),
{
    if incoming.len() == 0 {
        existing
    } else {
        let acc = append_new(existing, incoming.drop_last());
        if has_track_id(acc, incoming.last().id) {
            acc
        } else {
            acc.push(incoming.last())
        }
    }
}

/// A result for `request_id` and `target` is the one `feed` waits for.
pub open spec fn awaits(feed: Feed, request_id: u64, target: TargetView) -> bool {
    feed.loading && feed.request_id == request_id && opt_target(feed.target) == Some(target)
}

/// `f1` and `r` are what asking `f0` for `target` (with `more` for the
/// page after the last) gives: nothing for the same target while a
/// request runs or when no further page exists; otherwise a fresh
/// request id, loading, an empty page for a new target, and the
/// request with the continuation when appending.
pub open spec fn feed_requested(f0: Feed, target: Target, more: bool, f1: Feed, r: Option<ApiRequest>) -> bool
{
    let changed = opt_target(f0.target) != Some(target@);
    if !changed && (f0.loading || (more && f0.page.continuation is None)) {
        &&& r is None
        &&& f1 == f0
    } else {
        &&& if changed {
            f1.page.is_empty_page() && !f1.loaded
        } else {
            f1.page == f0.page && f1.loaded == f0.loaded
        }
        &&& opt_target(f1.target) == Some(target@)
        &&& f1.loading
        &&& f1.error is None
        &&& f1.appending == (more && !changed)
        &&& f1.request_id == next_request_id(f0.request_id)
        &&& r matches Some(ApiRequest::FetchDiscovery { request_id, target: t, continuation })
            && request_id == f1.request_id && t == target && opt_str(continuation)
            == if f1.appending {
            opt_str(f0.page.continuation)
        } else {
            None
        }
    }
}

impl Feed {
    /// Asks for the feed of `target`: its first page, or with `more`
    /// the page after the last one. A request for the same target
    /// while one is in flight, or for more when no page follows, asks
    /// nothing; a new target starts from an empty page.
    pub fn request(&mut self, target: Target, more: bool) -> (r: Option<ApiRequest>)
        ensures
            feed_requested(*old(self), target, more, *final(self), r),
    {
        let changed = match &self.target {
            Some(current) => !current.same(&target),
            None => true,
        };
        if !changed && (self.loading || (more && self.page.continuation.is_none())) {
            return None;
        }
        if changed {
            self.page = FeedPage::default();
            self.loaded = false;
        }
        self.target = Some(target.clone());
        self.loading = true;
        self.error = None;
        self.appending = more && !changed;
        self.request_id = self.request_id.wrapping_add(1);
        let continuation = if self.appending {
            clone_opt_str(&self.page.continuation)
        } else {
            None
        };
        Some(ApiRequest::FetchDiscovery { request_id: self.request_id, target, continuation })
    }

    /// Takes a page result. Only the result the feed waits for counts:
    /// a late one, for an older request or another target, changes
    /// nothing. An appended page adds its shelves, the tracks not
    /// shown yet, and its continuation unless it repeats the last one
    /// (a repeated cursor must not offer an endless "more"). A failure
    /// keeps the page on screen.
    pub fn apply(&mut self, request_id: u64, target: &Target, result: Result<FeedPage, String>)
        ensures
            !awaits(*old(self), request_id, target@) ==> *final(self) == *old(self),
            awaits(*old(self), request_id, target@) ==> {
                &&& !final(self).loading
                &&& final(self).target == old(self).target
                &&& final(self).request_id == old(self).request_id
                &&& final(self).appending == old(self).appending
                &&& match result {
                    Ok(page) => {
                        &&& final(self).loaded
                        &&& final(self).error == old(self).error
                        &&& if old(self).appending {
                            &&& final(self).page.shelves@ == old(self).page.shelves@ + page.shelves@
                            &&& track_views(final(self).page.tracks@) == append_new(
                                track_views(old(self).page.tracks@),
                                track_views(page.tracks@),
                            )
                            &&& final(self).page.continuation == if page.continuation is Some
                                && opt_str(page.continuation) == opt_str(
                                old(self).page.continuation,
                            ) {
                                None
                            } else {
                                page.continuation
                            }
                        } else {
                            final(self).page == page
                        }
                    },
                    Err(e) => {
                        &&& final(self).error == Some(e)
                        &&& final(self).page == old(self).page
                        &&& final(self).loaded == old(self).loaded
                    },
                }
            },
    {
        let waited = match &self.target {
            Some(current) => self.loading && self.request_id == request_id && current.same(target),
            None => false,
        };
        if !waited {
            return ;
        }
        self.loading = false;
        match result {
            Ok(page) => {
                if self.appending {
                    let FeedPage { shelves, tracks, continuation } = page;
                    let repeated = match &continuation {
                        Some(_) => same_opt_str(&continuation, &self.page.continuation),
                        None => false,
                    };
                    let mut shelves = shelves;
                    self.page.shelves.append(&mut shelves);
                    append_new_tracks(&mut self.page.tracks, &tracks);
                    self.page.continuation = if repeated {
                        None
                    } else {
                        continuation
                    };
                } else {
                    self.page = page;
                }
                self.loaded = true;
            },
            Err(error) => {
                self.error = Some(error);
            },
        }
    }
}

/// Adds to `existing` each track of `incoming` whose id it does not
/// hold yet, in order.
pub fn append_new_tracks(existing: &mut Vec<Track>, incoming: &Vec<Track>)
    ensures
        track_views(final(existing)@) == append_new(
            track_views(old(existing)@),
            track_views(incoming@),
        ),
{
    let ghost start = track_views(existing@);
    let mut i: usize = 0;
    while i < incoming.len()
        invariant
            i <= incoming@.len(),
            track_views(existing@) == append_new(start, track_views(incoming@.take(i as int))),
        decreases incoming@.len() - i,
    {
        proof {
            assert(track_views(incoming@.take(i + 1)).drop_last() =~= track_views(
                incoming@.take(i as int),
            ));
            assert(track_views(incoming@.take(i + 1)).last() == incoming@[i as int]@);
        }
        let mut found = false;
        let mut j: usize = 0;
        while j < existing.len()
            invariant
                j <= existing@.len(),
                found == has_track_id(track_views(existing@.take(j as int)), incoming@[i as int].id@),
                i < incoming@.len(),
            decreases existing@.len() - j,
        {
            let same = existing[j].id.same(&incoming[i].id);
            if same {
                found = true;
            }
            proof {
                let pre = track_views(existing@.take(j as int));
                let pre1 = track_views(existing@.take(j + 1));
                assert(pre1 =~= pre.push(existing@[j as int]@));
                if same {
                    assert(pre1[j as int].id == incoming@[i as int].id@);
                }
                if has_track_id(pre1, incoming@[i as int].id@) && !has_track_id(
                    pre,
                    incoming@[i as int].id@,
                ) {
                    let k = choose|k: int|
                        0 <= k < pre1.len() && #[trigger] pre1[k].id == incoming@[i as int].id@;
                    if k < j {
                        assert(pre[k].id == incoming@[i as int].id@);
                    }
                    assert(k == j);
                }
                if has_track_id(pre, incoming@[i as int].id@) {
                    let k = choose|k: int|
                        0 <= k < pre.len() && #[trigger] pre[k].id == incoming@[i as int].id@;
                    assert(pre1[k].id == incoming@[i as int].id@);
                }
            }
            j = j + 1;
        }
        proof {
            assert(existing@.take(existing@.len() as int) =~= existing@);
        }
        if !found {
            let ghost before = existing@;
            existing.push(incoming[i].clone());
            proof {
                assert(track_views(existing@) =~= track_views(before).push(incoming@[i as int]@));
            }
        }
        i = i + 1;
    }
    proof {
        assert(incoming@.take(incoming@.len() as int) =~= incoming@);
    }
}

/// The feeds of discovery: the home feed and an opened collection.
#[derive(Debug, Default)]
pub struct Discovery {
    pub radio_request_id: u64,
    pub radio_loading: bool,
    pub home: Feed,
    pub collection: Feed,
}

/// Whether a page result counts as accepted by `feed`: a success for
/// the request the feed waits for.
pub fn accepts_result(feed: &Feed, request_id: u64, target: &Target, succeeded: bool) -> (r: bool)
    ensures
        r == (succeeded && awaits(*feed, request_id, target@)),
{
    if !succeeded || !feed.loading || feed.request_id != request_id {
        return false;
    }
    match &feed.target {
        Some(current) => current.same(target),
        None => false,
    }
}

/// How many shelves the home feed gathers before it stops asking for
/// more on its own.
pub const PREFETCH_SHELVES: usize = 6;

/// Whether the home feed asks for its next page on its own: after a
/// first page for home loads, while fewer than six shelves show and a
/// next page exists.
pub fn should_prefetch(feed: &Feed, target: &Target, requested: bool) -> (r: bool)
    ensures
        r == (requested && target@ == home_view() && feed.loaded && !feed.loading
            && feed.page.shelves@.len() < PREFETCH_SHELVES && feed.page.continuation is Some),
{
    let home = Target::home();
    requested && target.same(&home) && feed.loaded && !feed.loading && feed.page.shelves.len()
        < PREFETCH_SHELVES && feed.page.continuation.is_some()
}

} // verus!
