//! The player's warm cache of audio buffers for the tracks about to
//! play: a few entries at most, one per video id, the most recently
//! used first.
use vstd::prelude::*;
use crate::text::str_eq;

verus! {

/// The most buffers the cache keeps.
pub const PREFETCH_CAPACITY: usize = 4;

/// Entry `i` of `s` is stored under `key`.
pub open spec fn key_at<B>(s: Seq<(Seq<char>, B)>, key: Seq<char>, i: int) -> bool {
    0 <= i < s.len() && s[i].0 == key
}

/// Some entry of `s` is stored under `key`.
pub open spec fn has_key<B>(s: Seq<(Seq<char>, B)>, key: Seq<char>) -> bool {
    exists|i: int| key_at(s, key, i)
}

/// The position of the entry stored under `key`, where there is one.
pub open spec fn key_index<B>(s: Seq<(Seq<char>, B)>, key: Seq<char>) -> int {
    choose|i: int| key_at(s, key, i)
}

/// `s` without the entry stored under `key`.
pub open spec fn without_key<B>(s: Seq<(Seq<char>, B)>, key: Seq<char>) -> Seq<(Seq<char>, B)> {
    if has_key(s, key) {
        s.remove(key_index(s, key))
    } else {
        s
    }
}

/// No two entries of `s` share a key.
pub open spec fn distinct_keys<B>(s: Seq<(Seq<char>, B)>) -> bool {
    forall|i: int, j: int| 0 <= i < s.len() && 0 <= j < s.len() && i != j ==> s[i].0 != s[j].0
}

/// `s` after storing `buffer` under `key`: the new entry first, any
/// older entry under that key gone, and the least recently used
/// entries past the capacity dropped.
pub open spec fn inserted<B>(s: Seq<(Seq<char>, B)>, key: Seq<char>, buffer: B) -> Seq<(Seq<char>, B)> {
    let t = seq![(key, buffer)] + without_key(s, key);
    if t.len() <= PREFETCH_CAPACITY {
        t
    } else {
        t.take(PREFETCH_CAPACITY as int)
    }
}

/// Buffers by video id, most recently used first.
pub struct PrefetchCache<B> {
    entries: Vec<(String, B)>,
}

impl<B> View for PrefetchCache<B> {
    type V = Seq<(Seq<char>, B)>;

    closed spec fn view(&self) -> Seq<(Seq<char>, B)> {
        self.entries@.map_values(|e: (String, B)| (e.0@, e.1))
    }
}

/// With distinct keys, the entry found under `key` at `i` is the one
/// that `key_index` names.
pub proof fn lemma_key_index_unique<B>(s: Seq<(Seq<char>, B)>, key: Seq<char>, i: int)
    requires
        distinct_keys(s),
        key_at(s, key, i),
    ensures
        has_key(s, key),
        key_index(s, key) == i,
{
    let j = key_index(s, key);
    assert(key_at(s, key, j));
}

/// Removing an entry keeps the keys distinct, and the removed key is
/// then absent.
pub proof fn lemma_without_key<B>(s: Seq<(Seq<char>, B)>, key: Seq<char>)
    requires
        distinct_keys(s),
    ensures
        distinct_keys(without_key(s, key)),
        !has_key(without_key(s, key), key),
        without_key(s, key).len() == if has_key(s, key) { s.len() - 1 } else { s.len() as int },
{
    let w = without_key(s, key);
    if has_key(s, key) {
        let k = key_index(s, key);
        assert(key_at(s, key, k));
        assert forall|i: int, j: int| 0 <= i < w.len() && 0 <= j < w.len() && i != j implies w[i].0
            != w[j].0 by {
            let a = if i < k { i } else { i + 1 };
            let b = if j < k { j } else { j + 1 };
            assert(w[i] == s[a]);
            assert(w[j] == s[b]);
        }
        if has_key(w, key) {
            let m = choose|m: int| key_at(w, key, m);
            let a = if m < k { m } else { m + 1 };
            assert(w[m] == s[a]);
        }
    }
}

/// A buffer just stored is the most recently used entry, and the
/// one found under its key.
pub proof fn law_stored_buffer_comes_first<B>(s: Seq<(Seq<char>, B)>, key: Seq<char>, buffer: B)
    requires
        distinct_keys(s),
    ensures
        inserted(s, key, buffer)[0] == (key, buffer),
        has_key(inserted(s, key, buffer), key),
        key_index(inserted(s, key, buffer), key) == 0,
        inserted(s, key, buffer).len() <= PREFETCH_CAPACITY,
{
    lemma_without_key(s, key);
    let t = inserted(s, key, buffer);
    let u = seq![(key, buffer)] + without_key(s, key);
    assert(t[0] == u[0]);
    assert(key_at(t, key, 0));
    assert forall|i: int, j: int| 0 <= i < t.len() && 0 <= j < t.len() && i != j implies t[i].0
        != t[j].0 by {
        assert(t[i] == u[i]);
        assert(t[j] == u[j]);
        if i > 0 {
            assert(u[i] == without_key(s, key)[i - 1]);
            if j == 0 {
                assert(!key_at(without_key(s, key), key, i - 1));
            }
        }
        if j > 0 {
            assert(u[j] == without_key(s, key)[j - 1]);
            if i == 0 {
                assert(!key_at(without_key(s, key), key, j - 1));
            }
        }
    }
    lemma_key_index_unique(t, key, 0);
}

impl<B> PrefetchCache<B> {
    /// The cache holds at most its capacity, one entry per key.
    pub open spec fn wf(&self) -> bool {
        &&& self@.len() <= PREFETCH_CAPACITY
        &&& distinct_keys(self@)
    }

    /// An empty cache.
    pub fn new() -> (r: Self)
        ensures
            r@ == Seq::<(Seq<char>, B)>::empty(),
            r.wf(),
    {
        let r = PrefetchCache { entries: Vec::new() };
        assert(r@ =~= Seq::<(Seq<char>, B)>::empty());
        r
    }

    /// The position of the entry for `video_id`, if any.
    fn find(&self, video_id: &str) -> (r: Option<usize>)
        ensures
            match r {
                Some(i) => key_at(self@, video_id@, i as int),
                None => !has_key(self@, video_id@),
            },
    {
        let mut i: usize = 0;
        while i < self.entries.len()
            invariant
                i <= self.entries.len(),
                self@.len() == self.entries.len(),
                forall|j: int| 0 <= j < i ==> !key_at(self@, video_id@, j),
            decreases self.entries.len() - i,
        {
            let found = str_eq(self.entries[i].0.as_str(), video_id);
            assert(self@[i as int] == (self.entries@[i as int].0@, self.entries@[i as int].1));
            if found {
                return Some(i);
            }
            i += 1;
        }
        None
    }

    /// Whether a buffer for `video_id` is cached.
    pub fn contains(&self, video_id: &str) -> (r: bool)
        ensures
            r == has_key(self@, video_id@),
    {
        self.find(video_id).is_some()
    }

    /// Drops the entry for `video_id`, so a buffer that failed to
    /// decode never serves a retry.
    pub fn remove(&mut self, video_id: &str)
        requires
            old(self).wf(),
        ensures
            final(self)@ == without_key(old(self)@, video_id@),
            final(self).wf(),
    {
        proof {
            lemma_without_key(self@, video_id@);
        }
        match self.find(video_id) {
            Some(i) => {
                proof {
                    lemma_key_index_unique(self@, video_id@, i as int);
                }
                let ghost before = self@;
                self.entries.remove(i);
                assert(self@ =~= before.remove(i as int));
            },
            None => {},
        }
    }

    /// The cached buffer for `video_id`, if it is present and
    /// `failed` does not hold of it; the entry then becomes the most
    /// recently used. An entry whose buffer failed is dropped, and
    /// nothing is returned for it.
    pub fn get<F: Fn(&B) -> bool>(&mut self, video_id: &str, failed: F) -> (r: Option<B>) where
        B: Clone,
        requires
            old(self).wf(),
            forall|b: &B| failed.requires((b,)),
        ensures
            final(self).wf(),
            !has_key(old(self)@, video_id@) ==> r is None && final(self)@ == old(self)@,
            has_key(old(self)@, video_id@) ==> {
                let e = old(self)@[key_index(old(self)@, video_id@)];
                ||| r is None && failed.ensures((&e.1,), true) && final(self)@ == without_key(
                    old(self)@,
                    video_id@,
                )
                ||| r matches Some(b) && failed.ensures((&e.1,), false) && cloned(e.1, b)
                    && final(self)@ == seq![e] + without_key(old(self)@, video_id@)
            },
    {
        proof {
            lemma_without_key(self@, video_id@);
        }
        let i = match self.find(video_id) {
            Some(i) => i,
            None => return None,
        };
        proof {
            lemma_key_index_unique(self@, video_id@, i as int);
        }
        let ghost before = self@;
        let entry = self.entries.remove(i);
        assert(self@ =~= before.remove(i as int));
        if failed(&entry.1) {
            return None;
        }
        let buffer = entry.1.clone();
        let ghost rest = self@;
        self.entries.insert(0, entry);
        assert(self@ =~= seq![before[i as int]] + rest);
        Some(buffer)
    }

    /// Stores `buffer` under `video_id` as the most recently used
    /// entry, in place of any older one, and drops the least recently
    /// used entry when the cache is over its capacity.
    pub fn insert(&mut self, video_id: String, buffer: B)
        requires
            old(self).wf(),
        ensures
            final(self)@ == inserted(old(self)@, video_id@, buffer),
            final(self).wf(),
    {
        proof {
            lemma_without_key(self@, video_id@);
        }
        self.remove(video_id.as_str());
        let ghost rest = self@;
        let ghost key = video_id@;
        self.entries.insert(0, (video_id, buffer));
        assert(self@ =~= seq![(key, buffer)] + rest);
        let ghost t = self@;
        self.entries.truncate(PREFETCH_CAPACITY);
        proof {
            if t.len() <= PREFETCH_CAPACITY {
                assert(self@ =~= t);
            } else {
                assert(self@ =~= t.take(PREFETCH_CAPACITY as int));
            }
        }
        assert forall|i: int, j: int|
            0 <= i < self@.len() && 0 <= j < self@.len() && i != j implies self@[i].0
            != self@[j].0 by {
            assert(self@[i] == t[i]);
            assert(self@[j] == t[j]);
            if i > 0 && j > 0 {
                assert(t[i] == rest[i - 1]);
                assert(t[j] == rest[j - 1]);
            } else if i == 0 {
                assert(t[j] == rest[j - 1]);
                assert(!key_at(rest, key, j - 1));
            } else {
                assert(t[i] == rest[i - 1]);
                assert(!key_at(rest, key, i - 1));
            }
        }
    }
}

/// The most prefetch downloads that may run at once.
pub const MAX_PREFETCH_IN_FLIGHT: usize = 2;

/// What a request to warm the cache for a track comes to.
#[derive(Debug, Clone, Copy, PartialEq, Eq, Structural)]
pub enum PrefetchStep {
    /// Nothing to do: the track is warm, being fetched, playing, or
    /// too many downloads already run.
    Skip,
    /// Hold the request until the active track's load settles, so the
    /// two never compete for bandwidth.
    Defer,
    /// A local file needs no download; only its decoder is prepared.
    PrepareLocal,
    /// Start the download.
    Start,
}

/// The rule of a prefetch request, checked in this order: a cached or
/// fetching track is skipped, as is the active one; a pending load
/// defers it; a local track goes straight to preparing; a full set of
/// downloads drops it; anything else starts.
pub open spec fn prefetch_rule(
    warm: bool,
    active: bool,
    load_pending: bool,
    is_local: bool,
    in_flight: int,
) -> PrefetchStep {
    if warm || active {
        PrefetchStep::Skip
    } else if load_pending {
        PrefetchStep::Defer
    } else if is_local {
        PrefetchStep::PrepareLocal
    } else if in_flight >= MAX_PREFETCH_IN_FLIGHT {
        PrefetchStep::Skip
    } else {
        PrefetchStep::Start
    }
}

/// Whether `current` names `video_id`.
pub open spec fn names(current: Option<&str>, video_id: Seq<char>) -> bool {
    current matches Some(c) && c@ == video_id
}

/// Decides a request to warm the cache for `video_id`, given whether a
/// download for it already runs, the active track's id, whether that
/// track is still loading, whether the requested track is a local
/// file, and how many downloads run.
pub fn prefetch_step<B>(
    cache: &PrefetchCache<B>,
    video_id: &str,
    fetching: bool,
    current: Option<&str>,
    load_pending: bool,
    is_local: bool,
    in_flight: usize,
) -> (r: PrefetchStep)
    ensures
        r == prefetch_rule(
            has_key(cache@, video_id@) || fetching,
            names(current, video_id@),
            load_pending,
            is_local,
            in_flight as int,
        ),
{
    if cache.contains(video_id) || fetching {
        return PrefetchStep::Skip;
    }
    let active = match current {
        Some(c) => str_eq(c, video_id),
        None => false,
    };
    if active {
        PrefetchStep::Skip
    } else if load_pending {
        PrefetchStep::Defer
    } else if is_local {
        PrefetchStep::PrepareLocal
    } else if in_flight >= MAX_PREFETCH_IN_FLIGHT {
        PrefetchStep::Skip
    } else {
        PrefetchStep::Start
    }
}

} // verus!
