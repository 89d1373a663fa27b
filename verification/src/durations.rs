//! Missing queue durations, resolved in bounded batches independently
//! of audio: which ids to ask the catalogue for, and which ones to
//! give up on.
use vstd::prelude::*;
use crate::model::{track_views, Track, TrackId, TrackView};

verus! {

/// How many ids one lookup asks for at most.
pub const BATCH: usize = 50;

/// How many times an id is asked for before it is given up.
pub const ATTEMPTS: u8 = 3;

/// The notice for durations the catalogue never provided.
pub const UNRESOLVED_NOTICE: &'static str =
    "YouTube could not provide some song durations after three attempts.";

/// The lookups of one signed-in session: how often each id was asked
/// for, and the batch in flight.
#[derive(Debug)]
pub struct Lookup {
    attempts: Vec<(TrackId, u8)>,
    pending: Vec<TrackId>,
    session: u64,
}

/// The views of a sequence of track ids.
pub open spec fn ids_view(ids: Seq<TrackId>) -> Seq<Seq<char>> {
    ids.map_values(|id: TrackId| id@)
}

/// How often `id` was asked for, by the first entry that names it.
pub open spec fn attempts_of(entries: Seq<(TrackId, u8)>, id: Seq<char>) -> nat
    decreases entries.len(),
{
    if entries.len() == 0 {
        0
    } else if entries[0].0@ == id {
        entries[0].1 as nat
    } else {
        attempts_of(entries.drop_first(), id)
    }
}

/// The ids to ask for among `tracks` (the current track, then the
/// upcoming ones): those without a duration and asked for fewer than
/// three times, each once, in order, at most fifty.
pub open spec fn batch_of(tracks: Seq<TrackView>, counts: Seq<(TrackId, u8)>) -> Seq<Seq<char>>
    decreases tracks.len(),
{
    if tracks.len() == 0 {
        Seq::empty()
    } else {
        let acc = batch_of(tracks.drop_last(), counts);
        let t = tracks.last();
        if t.duration is None && attempts_of(counts, t.id) < ATTEMPTS && !acc.contains(t.id) && acc.len()
            < BATCH {
            acc.push(t.id)
        } else {
            acc
        }
    }
}

impl Lookup {
    /// The request counts of this session, as entries of an id and a
    /// count; `attempts_of` reads them.
    pub closed spec fn counts(&self) -> Seq<(TrackId, u8)> {
        self.attempts@
    }

    /// The batch in flight.
    pub closed spec fn pending_ids(&self) -> Seq<Seq<char>> {
        ids_view(self.pending@)
    }

    /// The session these lookups belong to.
    pub closed spec fn session_id(&self) -> u64 {
        self.session
    }

    /// No id was asked for more than three times.
    pub closed spec fn wf(&self) -> bool {
        &&& forall|i: int| 0 <= i < self.attempts@.len() ==> #[trigger] self.attempts@[i].1 <= ATTEMPTS
        &&& forall|i: int, j: int|
            0 <= i < j < self.attempts@.len() ==> #[trigger] self.attempts@[i].0@ != #[trigger] self.attempts@[j].0@
    }

    /// No lookup yet, for the session `session`.
    pub fn new(session: u64) -> (r: Self)
        ensures
            r.wf(),
            r.session_id() == session,
            r.pending_ids() == Seq::<Seq<char>>::empty(),
            r.counts() == Seq::<(TrackId, u8)>::empty(),
            forall|id: Seq<char>| #[trigger] attempts_of(r.counts(), id) == 0,
    {
        let r = Lookup { attempts: Vec::new(), pending: Vec::new(), session };
        assert(r.pending_ids() =~= Seq::<Seq<char>>::empty());
        assert(r.counts() =~= Seq::<(TrackId, u8)>::empty());
        r
    }

    /// How often `id` was asked for in this session.
    pub fn attempts_for(&self, id: &TrackId) -> (r: u8)
        ensures
            r as nat == attempts_of(self.counts(), id@),
    {
        let mut i: usize = 0;
        assert(self.attempts@.skip(0) =~= self.attempts@);
        while i < self.attempts.len()
            invariant
                i <= self.attempts@.len(),
                attempts_of(self.attempts@, id@) == attempts_of(self.attempts@.skip(i as int), id@),
            decreases self.attempts@.len() - i,
        {
            proof {
                assert(self.attempts@.skip(i as int).drop_first() =~= self.attempts@.skip(i + 1));
                assert(self.attempts@.skip(i as int)[0] == self.attempts@[i as int]);
            }
            if self.attempts[i].0.same(id) {
                return self.attempts[i].1;
            }
            i = i + 1;
        }
        0
    }

    /// Counts one more request for `id`.
    fn count_one(&mut self, id: &TrackId)
        requires
            old(self).wf(),
            attempts_of(old(self).attempts@, id@) < ATTEMPTS,
        ensures
            final(self).wf(),
            final(self).pending@ == old(self).pending@,
            final(self).session == old(self).session,
            forall|x: Seq<char>| #[trigger] attempts_of(final(self).attempts@, x) == attempts_of(
                old(self).attempts@,
                x,
            ) + if x == id@ {
                1nat
            } else {
                0nat
            },
    {
        let mut i: usize = 0;
        let n = self.attempts.len();
        while i < n
            invariant
                i <= n,
                n == self.attempts@.len(),
                self.attempts@ == old(self).attempts@,
                self.pending@ == old(self).pending@,
                self.session == old(self).session,
                self.wf(),
                attempts_of(self.attempts@, id@) < ATTEMPTS,
                forall|k: int| 0 <= k < i ==> #[trigger] self.attempts@[k].0@ != id@,
            decreases n - i,
        {
            if self.attempts[i].0.same(id) {
                let count = self.attempts[i].1;
                proof {
                    lemma_attempts_at(self.attempts@, id@, i as int);
                }
                let entry = (self.attempts[i].0.clone(), count + 1);
                let ghost before = self.attempts@;
                self.attempts.set(i, entry);
                proof {
                    lemma_attempts_update(before, i as int, entry, id@);
                    assert forall|a: int, b: int| 0 <= a < b < self.attempts@.len() implies #[trigger] self.attempts@[a].0@
                        != #[trigger] self.attempts@[b].0@ by {
                        assert(self.attempts@[a].0@ == before[a].0@);
                        assert(self.attempts@[b].0@ == before[b].0@);
                    }
                }
                return ;
            }
            i = i + 1;
        }
        let ghost before = self.attempts@;
        proof {
            lemma_attempts_absent(before, id@);
        }
        let entry = (id.clone(), 1u8);
        self.attempts.push(entry);
        proof {
            lemma_attempts_push(before, entry, id@);
            assert forall|a: int, b: int| 0 <= a < b < self.attempts@.len() implies #[trigger] self.attempts@[a].0@
                != #[trigger] self.attempts@[b].0@ by {
                assert(self.attempts@[a] == before[a]);
                if b < before.len() {
                    assert(self.attempts@[b] == before[b]);
                }
            }
        }
    }

    /// Starts the next lookup: for a signed-in session with no batch in
    /// flight, the ids of `tracks` (the current track, then the upcoming
    /// ones) still without a duration. A new session forgets the counts
    /// of the last one. Returns the batch to ask for, if any.
    pub fn sync(&mut self, signed_in: bool, session: u64, tracks: &[Track]) -> (r: Option<Vec<TrackId>>)
        requires
            old(self).wf(),
        ensures
            final(self).wf(),
            !signed_in ==> r is None && *final(self) == *old(self),
            signed_in ==> {
                let fresh = old(self).session_id() != session;
                let counts = if fresh {
                    Seq::<(TrackId, u8)>::empty()
                } else {
                    old(self).counts()
                };
                let pending = if fresh {
                    Seq::<Seq<char>>::empty()
                } else {
                    old(self).pending_ids()
                };
                let batch = batch_of(track_views(tracks@), counts);
                &&& final(self).session_id() == session
                &&& if pending.len() > 0 || batch.len() == 0 {
                    &&& r is None
                    &&& final(self).pending_ids() == pending
                    &&& final(self).counts() == counts
                } else {
                    &&& r matches Some(ids) && ids_view(ids@) == batch
                    &&& final(self).pending_ids() == batch
                    &&& forall|id: Seq<char>| #[trigger] attempts_of(final(self).counts(), id)
                        == attempts_of(counts, id) + if batch.contains(id) {
                        1nat
                    } else {
                        0nat
                    }
                }
            },
    {
        if !signed_in {
            return None;
        }
        if self.session != session {
            *self = Lookup::new(session);
        }
        if self.pending.len() > 0 {
            return None;
        }
        assert(self.pending_ids() =~= Seq::<Seq<char>>::empty());
        let ghost count0 = self.attempts@;
        let mut ids: Vec<TrackId> = Vec::new();
        let mut i: usize = 0;
        while i < tracks.len()
            invariant
                i <= tracks@.len(),
                self.wf(),
                self.attempts@ == count0,
                self.pending@.len() == 0,
                self.session == session,
                ids_view(ids@) == batch_of(track_views(tracks@.take(i as int)), count0),
            decreases tracks@.len() - i,
        {
            proof {
                assert(track_views(tracks@.take(i + 1)).drop_last() =~= track_views(tracks@.take(i as int)));
                assert(track_views(tracks@.take(i + 1)).last() == tracks@[i as int]@);
            }
            let t = &tracks[i];
            if t.duration.is_none() && ids.len() < BATCH && self.attempts_for(&t.id) < ATTEMPTS
                && !contains_id(&ids, &t.id) {
                let ghost before = ids@;
                ids.push(t.id.clone());
                proof {
                    assert(ids_view(ids@) =~= ids_view(before).push(t.id@));
                }
            }
            i = i + 1;
        }
        proof {
            assert(tracks@.take(tracks@.len() as int) =~= tracks@);
        }
        if ids.len() == 0 {
            proof {
                assert(self.pending_ids() =~= Seq::<Seq<char>>::empty());
            }
            return None;
        }
        let mut k: usize = 0;
        while k < ids.len()
            invariant
                k <= ids@.len(),
                self.wf(),
                self.pending@.len() == 0,
                self.session == session,
                ids_view(ids@) == batch_of(track_views(tracks@), count0),
                forall|x: Seq<char>| #[trigger] attempts_of(self.attempts@, x) == attempts_of(count0, x)
                    + if ids_view(ids@).take(k as int).contains(x) {
                    1nat
                } else {
                    0nat
                },
            decreases ids@.len() - k,
        {
            let id = &ids[k];
            proof {
                lemma_batch_distinct_small(track_views(tracks@), count0);
                let pre = ids_view(ids@).take(k as int);
                assert(!pre.contains(id@)) by {
                    if pre.contains(id@) {
                        let j = choose|j: int| 0 <= j < pre.len() && pre[j] == id@;
                        assert(ids_view(ids@)[j] == ids_view(ids@)[k as int]);
                    }
                }
                assert(attempts_of(self.attempts@, id@) == attempts_of(count0, id@));
                assert(ids_view(ids@)[k as int] == id@);
                assert(attempts_of(count0, id@) < ATTEMPTS);
            }
            let ghost before = self.attempts@;
            self.count_one(id);
            proof {
                let pre = ids_view(ids@).take(k as int);
                let pre1 = ids_view(ids@).take(k + 1);
                assert(pre1 =~= pre.push(id@));
                assert forall|x: Seq<char>| #[trigger] attempts_of(self.attempts@, x) == attempts_of(count0, x)
                    + if pre1.contains(x) {
                    1nat
                } else {
                    0nat
                } by {
                    if x == id@ {
                        assert(pre1[k as int] == x);
                    } else {
                        if pre1.contains(x) {
                            let j = choose|j: int| 0 <= j < pre1.len() && pre1[j] == x;
                            assert(pre[j] == x);
                        }
                        if pre.contains(x) {
                            let j = choose|j: int| 0 <= j < pre.len() && pre[j] == x;
                            assert(pre1[j] == x);
                        }
                    }
                }
            }
            k = k + 1;
        }
        proof {
            assert(ids_view(ids@).take(ids@.len() as int) =~= ids_view(ids@));
        }
        let mut pending: Vec<TrackId> = Vec::new();
        let mut j: usize = 0;
        while j < ids.len()
            invariant
                j <= ids@.len(),
                pending@.len() == j,
                forall|m: int| 0 <= m < j ==> #[trigger] pending@[m]@ == ids@[m]@,
            decreases ids@.len() - j,
        {
            pending.push(ids[j].clone());
            j = j + 1;
        }
        assert(ids_view(pending@) =~= ids_view(ids@));
        self.pending = pending;
        assert(self.pending_ids() == ids_view(ids@));
        Some(ids)
    }

    /// Takes the batch in flight: the ids whose answers count.
    pub fn complete(&mut self) -> (r: Vec<TrackId>)
        requires
            old(self).wf(),
        ensures
            final(self).wf(),
            ids_view(r@) == old(self).pending_ids(),
            final(self).pending_ids().len() == 0,
            final(self).counts() == old(self).counts(),
            final(self).session_id() == old(self).session_id(),
    {
        let mut taken: Vec<TrackId> = Vec::new();
        std::mem::swap(&mut taken, &mut self.pending);
        taken
    }

    /// Whether one of `tracks` still lacks a duration after its third
    /// request, as part of `pending`: the moment to tell the user.
    pub fn unresolved(&self, tracks: &[Track], pending: &[TrackId]) -> (r: bool)
        ensures
            r == exists|i: int|
                0 <= i < tracks@.len() && #[trigger] tracks@[i].duration is None && ids_view(
                    pending@,
                ).contains(tracks@[i].id@) && attempts_of(self.counts(), tracks@[i].id@) == ATTEMPTS,
    {
        let mut i: usize = 0;
        while i < tracks.len()
            invariant
                i <= tracks@.len(),
                forall|k: int|
                    0 <= k < i ==> !(#[trigger] tracks@[k].duration is None && ids_view(pending@).contains(
                        tracks@[k].id@,
                    ) && attempts_of(self.counts(), tracks@[k].id@) == ATTEMPTS),
            decreases tracks@.len() - i,
        {
            let t = &tracks[i];
            if t.duration.is_none() {
                let pending_vec = slice_ids(pending);
                if contains_id(&pending_vec, &t.id) && self.attempts_for(&t.id) == ATTEMPTS {
                    proof {
                        assert(ids_view(pending_vec@) == ids_view(pending@));
                    }
                    return true;
                }
                proof {
                    assert(ids_view(pending_vec@) == ids_view(pending@));
                }
            }
            i = i + 1;
        }
        false
    }
}

/// A copy of the ids of `ids`.
fn slice_ids(ids: &[TrackId]) -> (r: Vec<TrackId>)
    ensures
        ids_view(r@) == ids_view(ids@),
{
    let mut out: Vec<TrackId> = Vec::new();
    let mut i: usize = 0;
    while i < ids.len()
        invariant
            i <= ids@.len(),
            out@.len() == i,
            forall|k: int| 0 <= k < i ==> #[trigger] out@[k]@ == ids@[k]@,
        decreases ids@.len() - i,
    {
        out.push(ids[i].clone());
        i = i + 1;
    }
    assert(ids_view(out@) =~= ids_view(ids@));
    out
}

/// Whether `ids` holds `id`.
fn contains_id(ids: &Vec<TrackId>, id: &TrackId) -> (r: bool)
    ensures
        r == ids_view(ids@).contains(id@),
{
    let mut i: usize = 0;
    while i < ids.len()
        invariant
            i <= ids@.len(),
            forall|k: int| 0 <= k < i ==> #[trigger] ids@[k]@ != id@,
        decreases ids@.len() - i,
    {
        if ids[i].same(id) {
            assert(ids_view(ids@)[i as int] == id@);
            return true;
        }
        i = i + 1;
    }
    proof {
        if ids_view(ids@).contains(id@) {
            let k = choose|k: int| 0 <= k < ids_view(ids@).len() && ids_view(ids@)[k] == id@;
            assert(ids@[k]@ == id@);
        }
    }
    false
}

/// A batch names each id once, and no more than fifty of them.
proof fn lemma_batch_distinct_small(tracks: Seq<TrackView>, counts: Seq<(TrackId, u8)>)
    ensures
        batch_of(tracks, counts).no_duplicates(),
        batch_of(tracks, counts).len() <= BATCH,
        forall|i: int|
            0 <= i < batch_of(tracks, counts).len() ==> attempts_of(counts, #[trigger] batch_of(tracks, counts)[i])
                < ATTEMPTS,
    decreases tracks.len(),
{
    if tracks.len() > 0 {
        lemma_batch_distinct_small(tracks.drop_last(), counts);
    }
}

/// The count at an entry that first names `id`.
proof fn lemma_attempts_at(entries: Seq<(TrackId, u8)>, id: Seq<char>, i: int)
    requires
        0 <= i < entries.len(),
        entries[i].0@ == id,
        forall|k: int| 0 <= k < i ==> #[trigger] entries[k].0@ != id,
    ensures
        attempts_of(entries, id) == entries[i].1,
    decreases i,
{
    if i > 0 {
        lemma_attempts_at(entries.drop_first(), id, i - 1);
        assert(entries[0].0@ != id);
    }
}

/// No entry names `id`: it was never asked for.
proof fn lemma_attempts_absent(entries: Seq<(TrackId, u8)>, id: Seq<char>)
    requires
        forall|k: int| 0 <= k < entries.len() ==> #[trigger] entries[k].0@ != id,
    ensures
        attempts_of(entries, id) == 0,
    decreases entries.len(),
{
    if entries.len() > 0 {
        assert(entries[0].0@ != id);
        assert forall|k: int| 0 <= k < entries.drop_first().len() implies #[trigger] entries.drop_first()[k].0@ != id by {
            assert(entries.drop_first()[k] == entries[k + 1]);
        }
        lemma_attempts_absent(entries.drop_first(), id);
    }
}

/// A new entry at the end counts for its id only when no entry named it.
proof fn lemma_attempts_push(entries: Seq<(TrackId, u8)>, e: (TrackId, u8), id: Seq<char>)
    requires
        attempts_of(entries, id) == 0,
        forall|k: int| 0 <= k < entries.len() ==> #[trigger] entries[k].0@ != id,
        e.0@ == id,
    ensures
        forall|x: Seq<char>| #[trigger] attempts_of(entries.push(e), x) == attempts_of(entries, x)
            + if x == id {
            e.1 as nat
        } else {
            0nat
        },
    decreases entries.len(),
{
    assert forall|x: Seq<char>| #[trigger] attempts_of(entries.push(e), x) == attempts_of(entries, x)
        + if x == id {
        e.1 as nat
    } else {
        0nat
    } by {
        lemma_attempts_push_one(entries, e, x, id);
    }
}

proof fn lemma_attempts_push_one(entries: Seq<(TrackId, u8)>, e: (TrackId, u8), x: Seq<char>, id: Seq<char>)
    requires
        forall|k: int| 0 <= k < entries.len() ==> #[trigger] entries[k].0@ != id,
        e.0@ == id,
    ensures
        attempts_of(entries.push(e), x) == attempts_of(entries, x) + if x == id {
            e.1 as nat
        } else {
            0nat
        },
    decreases entries.len(),
{
    let pushed = entries.push(e);
    if entries.len() == 0 {
        assert(pushed.drop_first() =~= Seq::<(TrackId, u8)>::empty());
        assert(pushed[0] == e);
        assert(attempts_of(pushed.drop_first(), x) == 0);
        assert(attempts_of(entries, x) == 0);
    } else {
        assert(pushed.drop_first() =~= entries.drop_first().push(e));
        assert(pushed[0] == entries[0]);
        assert forall|k: int| 0 <= k < entries.drop_first().len() implies #[trigger] entries.drop_first()[k].0@ != id by {
            assert(entries.drop_first()[k] == entries[k + 1]);
        }
        if entries[0].0@ != x {
            lemma_attempts_push_one(entries.drop_first(), e, x, id);
            assert(attempts_of(pushed, x) == attempts_of(pushed.drop_first(), x));
            assert(attempts_of(entries, x) == attempts_of(entries.drop_first(), x));
        } else {
            assert(entries[0].0@ != id);
            assert(attempts_of(pushed, x) == entries[0].1);
        }
    }
}

/// Raising the count of the entry that first names `id` raises `id`'s
/// count by one, and no other.
proof fn lemma_attempts_update(entries: Seq<(TrackId, u8)>, i: int, e: (TrackId, u8), id: Seq<char>)
    requires
        0 <= i < entries.len(),
        entries[i].0@ == id,
        e.0@ == id,
        e.1 == entries[i].1 + 1,
        forall|k: int| 0 <= k < i ==> #[trigger] entries[k].0@ != id,
    ensures
        forall|x: Seq<char>| #[trigger] attempts_of(entries.update(i, e), x) == attempts_of(entries, x)
            + if x == id {
            1nat
        } else {
            0nat
        },
{
    assert forall|x: Seq<char>| #[trigger] attempts_of(entries.update(i, e), x) == attempts_of(entries, x)
        + if x == id {
        1nat
    } else {
        0nat
    } by {
        lemma_attempts_update_one(entries, i, e, id, x);
    }
}

proof fn lemma_attempts_update_one(entries: Seq<(TrackId, u8)>, i: int, e: (TrackId, u8), id: Seq<char>, x: Seq<char>)
    requires
        0 <= i < entries.len(),
        entries[i].0@ == id,
        e.0@ == id,
        e.1 == entries[i].1 + 1,
        forall|k: int| 0 <= k < i ==> #[trigger] entries[k].0@ != id,
    ensures
        attempts_of(entries.update(i, e), x) == attempts_of(entries, x) + if x == id {
            1nat
        } else {
            0nat
        },
    decreases i,
{
    if i == 0 {
        assert(entries.update(i, e).drop_first() =~= entries.drop_first());
    } else {
        assert(entries.update(i, e).drop_first() =~= entries.drop_first().update(i - 1, e));
        assert(entries.update(i, e)[0] == entries[0]);
        assert(entries[0].0@ != id);
        assert forall|k: int| 0 <= k < i - 1 implies #[trigger] entries.drop_first()[k].0@ != id by {
            assert(entries.drop_first()[k] == entries[k + 1]);
        }
        if entries[0].0@ != x {
            lemma_attempts_update_one(entries.drop_first(), i - 1, e, id, x);
        }
    }
}

} // verus!
