//! The mathematical model of the playback queue: its state as plain
//! sequences, its well-formedness, and each operation as a function
//! from one state to the next.
use vstd::prelude::*;

use crate::model::{Span, TrackView};
use crate::seq_facts::{
    lemma_filter_map_index, lemma_filter_map_no_dups, lemma_filter_map_prefix_le,
    lemma_filter_map_prefix_mono, lemma_filter_map_source,
};

verus! {

#[derive(Clone, Copy, Debug, PartialEq, Eq, Structural)]
pub enum RepeatMode {
    Off,
    All,
    One,
}

#[derive(Clone, Copy, Debug, PartialEq, Eq, Structural)]
pub enum TrackSource {
    Context,
    UserQueue,
}

/// One upcoming slot: an index into the user queue or into the context.
#[derive(Clone, Copy, Debug, PartialEq, Eq, Structural)]
pub enum UpcomingEntry {
    User(usize),
    Context(usize),
}

pub struct CurrentTrackView {
    pub track: TrackView,
    pub source: TrackSource,
}

/// The queue as values.
pub struct QueueView {
    /// The track list the user started playback from.
    pub context: Seq<TrackView>,
    /// The play order, as indices into `context`.
    pub order: Seq<usize>,
    /// The position of the current context track inside `order`.
    pub cursor: Option<usize>,
    /// Explicitly queued tracks; they play before the context advances.
    pub user_queue: Seq<TrackView>,
    /// The upcoming list as the user rearranged it, when they did.
    pub manual_order: Option<Seq<UpcomingEntry>>,
    pub current: Option<CurrentTrackView>,
    pub repeat: RepeatMode,
    pub shuffle: bool,
}

/// `s` is an ordering of `0..n`: every index once.
pub open spec fn is_permutation_of_range(s: Seq<usize>, n: nat) -> bool {
    &&& s.len() == n
    &&& s.no_duplicates()
    &&& forall|k: int| 0 <= k < s.len() ==> #[trigger] s[k] < n
}

/// The indices `0..n` in order.
pub open spec fn range_seq(start: int, n: nat) -> Seq<usize> {
    Seq::new(n, |k: int| (start + k) as usize)
}

/// The elements of `s` at the indices that `sel` accepts, in order.
pub open spec fn picked<A>(s: Seq<A>, sel: spec_fn(int) -> bool) -> Seq<A>
    decreases s.len(),
{
    if s.len() == 0 {
        Seq::empty()
    } else {
        let rest = picked(s.drop_last(), sel);
        if sel(s.len() - 1) {
            rest.push(s.last())
        } else {
            rest
        }
    }
}

/// Accepts every index but `i`.
pub open spec fn ne_pred(i: usize) -> spec_fn(usize) -> bool {
    |v: usize| v != i
}

/// An index after the index `i` left its list.
pub open spec fn dec_above(i: usize) -> spec_fn(usize) -> usize {
    |v: usize| if v > i { (v - 1) as usize } else { v }
}

/// The indices that `sel` rejects.
pub open spec fn negate(sel: spec_fn(int) -> bool) -> spec_fn(int) -> bool {
    |i: int| !sel(i)
}

/// The position of the first occurrence of `v` in `s`.
pub open spec fn first_pos(s: Seq<usize>, v: usize) -> Option<int> {
    if exists|p: int| 0 <= p < s.len() && s[p] == v && forall|k: int| 0 <= k < p ==> s[k] != v {
        Some(
            choose|p: int|
                0 <= p < s.len() && s[p] == v && forall|k: int| 0 <= k < p ==> s[k] != v,
        )
    } else {
        None
    }
}

/// `s` with its element at `p` moved to position `at`, shifting
/// `s[at..p]` one step later.
pub open spec fn rotate_into(s: Seq<usize>, at: int, p: int) -> Seq<usize> {
    s.subrange(0, at) + seq![s[p]] + s.subrange(at, p) + s.subrange(p + 1, s.len() as int)
}

/// An entry's index after the entry `removed` left its list.
pub open spec fn adjust_entry(e: UpcomingEntry, removed: UpcomingEntry) -> UpcomingEntry {
    match (e, removed) {
        (UpcomingEntry::User(v), UpcomingEntry::User(i)) => if v > i {
            UpcomingEntry::User((v - 1) as usize)
        } else {
            e
        },
        (UpcomingEntry::Context(v), UpcomingEntry::Context(i)) => if v > i {
            UpcomingEntry::Context((v - 1) as usize)
        } else {
            e
        },
        _ => e,
    }
}

pub open spec fn adjust_all(m: Seq<UpcomingEntry>, removed: UpcomingEntry) -> Seq<UpcomingEntry> {
    m.map_values(|e: UpcomingEntry| adjust_entry(e, removed))
}

/// Accepts the entries that name the context.
pub open spec fn context_pred() -> spec_fn(UpcomingEntry) -> bool {
    |e: UpcomingEntry| e is Context
}

/// `map_values` distributes over concatenation.
pub proof fn lemma_map_values_add<A, B>(a: Seq<A>, b: Seq<A>, f: spec_fn(A) -> B)
    ensures
        (a + b).map_values(f) =~= a.map_values(f) + b.map_values(f),
{
    assert forall|i: int| 0 <= i < (a + b).len() implies #[trigger] (a + b).map_values(f)[i] == (
    a.map_values(f) + b.map_values(f))[i] by {
        if i < a.len() {
            assert((a + b)[i] == a[i]);
        } else {
            assert((a + b)[i] == b[i - a.len()]);
        }
    }
}

/// A user entry one place later, as after a track joins the front.
pub open spec fn shift_user(e: UpcomingEntry) -> UpcomingEntry {
    match e {
        UpcomingEntry::User(i) => UpcomingEntry::User((i + 1) as usize),
        _ => e,
    }
}

/// The position of the last user entry of `m`, or -1.
pub open spec fn last_user_pos(m: Seq<UpcomingEntry>) -> int
    decreases m.len(),
{
    if m.len() == 0 {
        -1
    } else if m.last() is User {
        m.len() - 1
    } else {
        last_user_pos(m.drop_last())
    }
}

/// The number of elements of `s` that `keep` accepts.
pub open spec fn count_kept(s: Seq<TrackView>, keep: spec_fn(TrackView) -> bool) -> nat
    decreases s.len(),
{
    if s.len() == 0 {
        0
    } else {
        count_kept(s.drop_last(), keep) + if keep(s.last()) {
            1nat
        } else {
            0nat
        }
    }
}

/// Where the element at `i` of `s` lands once `s` keeps only what
/// `keep` accepts, or `None` when it leaves.
pub open spec fn kept_index(s: Seq<TrackView>, keep: spec_fn(TrackView) -> bool, i: usize) -> Option<
    usize,
> {
    if i < s.len() && keep(s[i as int]) {
        Some(count_kept(s.take(i as int), keep) as usize)
    } else {
        None
    }
}

/// A track with its duration set to `d` when its id is `id`.
pub open spec fn with_duration(t: TrackView, id: Seq<char>, d: Span) -> TrackView {
    if t.id == id {
        TrackView { duration: Some(d), ..t }
    } else {
        t
    }
}

/// A track with its duration set to `d` when its id is `id` and it has none yet.
pub open spec fn with_missing_duration(t: TrackView, id: Seq<char>, d: Span) -> TrackView {
    if t.id == id && t.duration is None {
        TrackView { duration: Some(d), ..t }
    } else {
        t
    }
}

/// `t` replaced by `r` when `t` is the local track `id`.
pub open spec fn replaced_local(t: TrackView, id: Seq<char>, r: TrackView) -> TrackView {
    if t.is_local() && t.id == id {
        r
    } else {
        t
    }
}

/// What `retain_local` (no id) or `remove_local` (an id) keeps: the local
/// tracks, or every track but the local track `id`.
pub open spec fn local_keep(drop: Option<Seq<char>>) -> spec_fn(TrackView) -> bool {
    |t: TrackView|
        match drop {
            None => t.is_local(),
            Some(id) => !t.is_local() || t.id != id,
        }
}

/// An optional index looked up in a remapping table.
pub open spec fn map_lookup(map: Seq<Option<usize>>, i: usize) -> Option<usize> {
    if i < map.len() {
        map[i as int]
    } else {
        None
    }
}

/// A manual entry remapped through the user and context tables.
pub open spec fn remap_entry(e: UpcomingEntry, user_map: Seq<Option<usize>>, context_map: Seq<Option<usize>>) -> Option<UpcomingEntry> {
    match e {
        UpcomingEntry::User(i) => match map_lookup(user_map, i) {
            Some(j) => Some(UpcomingEntry::User(j)),
            None => None,
        },
        UpcomingEntry::Context(i) => match map_lookup(context_map, i) {
            Some(j) => Some(UpcomingEntry::Context(j)),
            None => None,
        },
    }
}

/// A local track named `id`.
pub open spec fn is_local_id(t: TrackView, id: Seq<char>) -> bool {
    t.is_local() && t.id == id
}

impl RepeatMode {
    pub open spec fn spec_cycled(self) -> RepeatMode {
        match self {
            RepeatMode::Off => RepeatMode::All,
            RepeatMode::All => RepeatMode::One,
            RepeatMode::One => RepeatMode::Off,
        }
    }
}

impl QueueView {
    /// `i` sits in `order` after the cursor, so it is still to come.
    pub open spec fn after_cursor(self, i: usize) -> bool {
        match self.cursor {
            Some(c) => forall|p: int| 0 <= p <= c ==> #[trigger] self.order[p] != i,
            None => true,
        }
    }

    /// A manual entry that names a track still to come.
    pub open spec fn valid_entry(self, e: UpcomingEntry) -> bool {
        match e {
            UpcomingEntry::User(i) => i < self.user_queue.len(),
            UpcomingEntry::Context(i) => i < self.context.len() && self.order.contains(i)
                && self.after_cursor(i),
        }
    }

    /// The queue's invariant, which every operation keeps.
    pub open spec fn wf(self) -> bool {
        &&& forall|k: int| 0 <= k < self.order.len() ==> #[trigger] self.order[k] < self.context.len()
        &&& self.order.no_duplicates()
        &&& (self.cursor matches Some(c) ==> c < self.order.len())
        &&& (self.manual_order matches Some(m) ==> {
            &&& m.no_duplicates()
            &&& forall|k: int| 0 <= k < m.len() ==> self.valid_entry(#[trigger] m[k])
        })
    }

    /// Every list fits the machine's index range.
    pub open spec fn bounded(self) -> bool {
        &&& self.order.len() <= usize::MAX
        &&& self.context.len() <= usize::MAX
        &&& self.user_queue.len() <= usize::MAX
    }

    /// The manual order is absent or empty.
    pub open spec fn manual_empty(self) -> bool {
        match self.manual_order {
            Some(m) => m.len() == 0,
            None => true,
        }
    }

    /// The context tracks still to come, as entries: those after the
    /// cursor, or the whole play order when there is no cursor.
    pub open spec fn context_entries(self) -> Seq<UpcomingEntry> {
        self.rest().map_values(|v: usize| UpcomingEntry::Context(v))
    }

    /// The upcoming list as entries, the list that edits index into.
    pub open spec fn entries(self) -> Seq<UpcomingEntry> {
        match self.manual_order {
            Some(m) => m,
            None => Seq::new(self.user_queue.len(), |i: int| UpcomingEntry::User(i as usize))
                + self.context_entries(),
        }
    }

    pub open spec fn context_get(self, i: usize) -> Option<TrackView> {
        if i < self.context.len() {
            Some(self.context[i as int])
        } else {
            None
        }
    }

    pub open spec fn entry_track(self, e: UpcomingEntry) -> Option<TrackView> {
        match e {
            UpcomingEntry::User(i) => if i < self.user_queue.len() {
                Some(self.user_queue[i as int])
            } else {
                None
            },
            UpcomingEntry::Context(i) => self.context_get(i),
        }
    }

    /// The play order after the cursor; all of it when there is no cursor.
    pub open spec fn rest(self) -> Seq<usize> {
        match self.cursor {
            Some(c) => self.order.subrange(c + 1, self.order.len() as int),
            None => self.order,
        }
    }

    /// The tracks that play after the current one: the user queue
    /// first, then the rest of the context in play order, unless the
    /// user rearranged them.
    pub open spec fn upcoming(self) -> Seq<TrackView> {
        match self.manual_order {
            Some(m) => m.filter_map(|e: UpcomingEntry| self.entry_track(e)),
            None => self.user_queue + self.rest().filter_map(|i: usize| self.context_get(i)),
        }
    }

    pub open spec fn current_track(self) -> Option<TrackView> {
        match self.current {
            Some(c) => Some(c.track),
            None => None,
        }
    }

    pub open spec fn set_duration(self, id: Seq<char>, d: Span) -> QueueView {
        QueueView {
            context: self.context.map_values(|t: TrackView| with_duration(t, id, d)),
            user_queue: self.user_queue.map_values(|t: TrackView| with_duration(t, id, d)),
            current: match self.current {
                Some(c) => Some(CurrentTrackView { track: with_duration(c.track, id, d), ..c }),
                None => None,
            },
            ..self
        }
    }

    pub open spec fn fill_missing_duration(self, id: Seq<char>, d: Span) -> QueueView {
        QueueView {
            context: self.context.map_values(|t: TrackView| with_missing_duration(t, id, d)),
            user_queue: self.user_queue.map_values(|t: TrackView| with_missing_duration(t, id, d)),
            current: match self.current {
                Some(c) => Some(
                    CurrentTrackView { track: with_missing_duration(c.track, id, d), ..c },
                ),
                None => None,
            },
            ..self
        }
    }

    /// The selected upcoming positions, those inside the list.
    pub open spec fn selection(self, selected: Seq<usize>) -> spec_fn(int) -> bool {
        |i: int| 0 <= i < self.entries().len() && selected.contains(i as usize)
    }

    /// The entries at `selected` moved, in their order, to the
    /// boundary before the entry at `before`.
    pub open spec fn move_upcoming(self, selected: Seq<usize>, before: usize) -> QueueView {
        let e = self.entries();
        let sel = self.selection(selected);
        let moving = picked(e, sel);
        if before > e.len() || moving.len() == 0 {
            self
        } else {
            let target = before - picked(e.take(before as int), sel).len();
            let remaining = picked(e, negate(sel));
            QueueView {
                manual_order: Some(
                    remaining.take(target) + moving + remaining.skip(target),
                ),
                ..self
            }
        }
    }

    /// The upcoming entry at `index` removed, with every index behind it adjusted.
    pub open spec fn remove_upcoming(self, index: usize) -> QueueView {
        let e = self.entries();
        if index >= e.len() {
            self
        } else {
            let entry = e[index as int];
            let manual = match self.manual_order {
                Some(m) => Some(adjust_all(m.remove(index as int), entry)),
                None => None,
            };
            match entry {
                UpcomingEntry::User(i) => QueueView {
                    user_queue: self.user_queue.remove(i as int),
                    manual_order: manual,
                    ..self
                },
                UpcomingEntry::Context(i) => QueueView {
                    order: self.order.filter(ne_pred(i)).map_values(dec_above(i)),
                    context: self.context.remove(i as int),
                    manual_order: manual,
                    ..self
                },
            }
        }
    }

    pub open spec fn play_next(self, t: TrackView) -> QueueView {
        QueueView {
            manual_order: match self.manual_order {
                Some(m) => Some(seq![UpcomingEntry::User(0)] + m.map_values(|e| shift_user(e))),
                None => None,
            },
            user_queue: seq![t] + self.user_queue,
            ..self
        }
    }

    pub open spec fn queue_track(self, t: TrackView) -> QueueView {
        QueueView {
            manual_order: match self.manual_order {
                Some(m) => Some(
                    m.insert(last_user_pos(m) + 1, UpcomingEntry::User(self.user_queue.len() as usize)),
                ),
                None => None,
            },
            user_queue: self.user_queue.push(t),
            ..self
        }
    }

    pub open spec fn clear_user_queue(self) -> QueueView {
        QueueView {
            user_queue: Seq::empty(),
            manual_order: match self.manual_order {
                Some(m) => Some(m.filter(context_pred())),
                None => None,
            },
            ..self
        }
    }

    pub open spec fn extend_context(self, tracks: Seq<TrackView>) -> QueueView {
        let new_indices = range_seq(self.context.len() as int, tracks.len());
        QueueView {
            manual_order: match self.manual_order {
                Some(m) => Some(m + new_indices.map_values(|v: usize| UpcomingEntry::Context(v))),
                None => None,
            },
            context: self.context + tracks,
            order: self.order + new_indices,
            ..self
        }
    }

    pub open spec fn contains(self, id: Seq<char>) -> bool {
        exists|k: int| 0 <= k < self.context.len() && #[trigger] self.context[k].id == id
    }

    /// Some occurrence of the local track `id` in the context, the user
    /// queue, or the current slot.
    pub open spec fn holds_local(self, id: Seq<char>) -> bool {
        ||| exists|k: int| 0 <= k < self.context.len() && is_local_id(#[trigger] self.context[k], id)
        ||| exists|k: int|
            0 <= k < self.user_queue.len() && is_local_id(#[trigger] self.user_queue[k], id)
        ||| (self.current matches Some(c) && is_local_id(c.track, id))
    }

    pub open spec fn replace_local(self, id: Seq<char>, r: TrackView) -> QueueView {
        if !r.is_local() {
            self
        } else {
            QueueView {
                context: self.context.map_values(|t: TrackView| replaced_local(t, id, r)),
                user_queue: self.user_queue.map_values(|t: TrackView| replaced_local(t, id, r)),
                current: match self.current {
                    Some(c) => Some(CurrentTrackView { track: replaced_local(c.track, id, r), ..c }),
                    None => None,
                },
                ..self
            }
        }
    }

    /// The cursor after the tracks `keep` rejects leave the context.
    pub open spec fn kept_cursor(self, keep: spec_fn(TrackView) -> bool) -> Option<usize> {
        match self.cursor {
            None => None,
            Some(c) => {
                let cmap = |i: usize| kept_index(self.context, keep, i);
                let before = self.order.take(c as int).filter_map(cmap).len();
                if c < self.order.len() && cmap(self.order[c as int]) is Some {
                    Some(before as usize)
                } else if before > 0 {
                    Some((before - 1) as usize)
                } else {
                    None
                }
            },
        }
    }

    /// A manual entry after the tracks `keep` rejects left.
    pub open spec fn kept_entry(self, keep: spec_fn(TrackView) -> bool, e: UpcomingEntry) -> Option<
        UpcomingEntry,
    > {
        match e {
            UpcomingEntry::User(i) => match kept_index(self.user_queue, keep, i) {
                Some(j) => Some(UpcomingEntry::User(j)),
                None => None,
            },
            UpcomingEntry::Context(i) => match kept_index(self.context, keep, i) {
                Some(j) => Some(UpcomingEntry::Context(j)),
                None => None,
            },
        }
    }

    /// The queue with only the tracks that `keep` accepts, every index remapped.
    pub open spec fn retain(self, keep: spec_fn(TrackView) -> bool) -> QueueView {
        QueueView {
            context: self.context.filter(keep),
            order: self.order.filter_map(|i: usize| kept_index(self.context, keep, i)),
            cursor: self.kept_cursor(keep),
            user_queue: self.user_queue.filter(keep),
            manual_order: match self.manual_order {
                Some(m) => Some(m.filter_map(|e: UpcomingEntry| self.kept_entry(keep, e))),
                None => None,
            },
            current: match self.current {
                Some(c) => if keep(c.track) {
                    self.current
                } else {
                    None
                },
                None => None,
            },
            ..self
        }
    }

    /// The cursor one step on: wrapping in repeat-all mode, `None` at the end.
    pub open spec fn advanced_cursor(self) -> Option<usize> {
        match self.cursor {
            None => None,
            Some(c) => if c + 1 < self.order.len() {
                Some((c + 1) as usize)
            } else if self.repeat == RepeatMode::All {
                Some(0)
            } else {
                None
            },
        }
    }

    /// The context track at position `c` of the play order.
    pub open spec fn track_at(self, c: usize) -> TrackView {
        self.context[self.order[c as int] as int]
    }

    /// Takes the manual entry `e` out of its list, if it still names a track to come.
    pub open spec fn take_manual(self, e: UpcomingEntry) -> (QueueView, Option<(TrackView, TrackSource)>) {
        match e {
            UpcomingEntry::User(i) => if i < self.user_queue.len() {
                (
                    QueueView {
                        user_queue: self.user_queue.remove(i as int),
                        manual_order: match self.manual_order {
                            Some(m) => Some(adjust_all(m, e)),
                            None => None,
                        },
                        ..self
                    },
                    Some((self.user_queue[i as int], TrackSource::UserQueue)),
                )
            } else {
                (self, None)
            },
            UpcomingEntry::Context(i) => {
                let next = match self.cursor {
                    Some(c) => c + 1,
                    None => 0,
                };
                match first_pos(self.order, i) {
                    None => (self, None),
                    Some(p) => if p < next {
                        (self, None)
                    } else {
                        let q = QueueView {
                            order: rotate_into(self.order, next, p),
                            cursor: Some(next as usize),
                            ..self
                        };
                        (
                            q,
                            match self.context_get(i) {
                                Some(t) => Some((t, TrackSource::Context)),
                                None => None,
                            },
                        )
                    },
                }
            },
        }
    }

    /// An explicit skip when no manual order is pending: the user queue
    /// first, then the context one step on.
    pub open spec fn next_plain(self) -> (QueueView, Option<TrackView>) {
        let q = QueueView { manual_order: None, ..self };
        if q.user_queue.len() > 0 {
            let t = q.user_queue[0];
            (
                QueueView {
                    user_queue: q.user_queue.drop_first(),
                    current: Some(CurrentTrackView { track: t, source: TrackSource::UserQueue }),
                    ..q
                },
                Some(t),
            )
        } else {
            let c = match q.advanced_cursor() {
                Some(c) => Some(c),
                None => if q.cursor is None && q.order.len() > 0 {
                    Some(0usize)
                } else {
                    None
                },
            };
            match c {
                None => (q, None),
                Some(c) => {
                    let t = q.track_at(c);
                    (
                        QueueView {
                            cursor: Some(c),
                            current: Some(CurrentTrackView { track: t, source: TrackSource::Context }),
                            ..q
                        },
                        Some(t),
                    )
                },
            }
        }
    }

    /// An explicit skip taking the first manual entry.
    pub open spec fn next_manual(self, m: Seq<UpcomingEntry>) -> (QueueView, Option<TrackView>) {
        let q = QueueView { manual_order: Some(m.drop_first()), ..self };
        let (q2, taken) = q.take_manual(m[0]);
        match taken {
            Some((t, src)) => (
                QueueView { current: Some(CurrentTrackView { track: t, source: src }), ..q2 },
                Some(t),
            ),
            None => (q2, None),
        }
    }

    /// An explicit skip: the queue afterwards and the track to load.
    pub open spec fn next(self) -> (QueueView, Option<TrackView>) {
        match self.manual_order {
            Some(m) => if m.len() > 0 {
                self.next_manual(m)
            } else {
                self.next_plain()
            },
            None => self.next_plain(),
        }
    }

    /// `n` explicit skips in a row, and the last track they returned.
    pub open spec fn next_times(self, n: nat) -> (QueueView, Option<TrackView>)
        decreases n,
    {
        if n == 0 {
            (self, None)
        } else {
            self.next_times((n - 1) as nat).0.next()
        }
    }

    pub open spec fn jump_to(self, index: usize) -> (QueueView, Option<TrackView>) {
        if index >= self.upcoming().len() {
            (self, None)
        } else {
            self.next_times((index + 1) as nat)
        }
    }

    /// The track end signal: repeat-one replays the current track.
    pub open spec fn on_track_end(self) -> (QueueView, Option<TrackView>) {
        if self.repeat == RepeatMode::One {
            (self, self.current_track())
        } else {
            self.next()
        }
    }

    pub open spec fn previous_cursor(self, c: usize) -> usize {
        if c > 0 {
            (c - 1) as usize
        } else if self.repeat == RepeatMode::All && self.order.len() > 0 {
            (self.order.len() - 1) as usize
        } else {
            0
        }
    }

    /// Moves to the previous context track. Pending manual edits stay
    /// queued behind the tracks stepped back over.
    pub open spec fn previous(self) -> (QueueView, Option<TrackView>) {
        match self.cursor {
            None => (self, None),
            Some(c) => {
                let p = self.previous_cursor(c);
                let manual = if p > c {
                    None
                } else {
                    match self.manual_order {
                        Some(m) => Some(
                            self.order.subrange(p + 1, c + 1).map_values(
                                |v: usize| UpcomingEntry::Context(v),
                            ) + m,
                        ),
                        None => None,
                    }
                };
                let t = self.track_at(p);
                (
                    QueueView {
                        manual_order: manual,
                        cursor: Some(p),
                        current: Some(CurrentTrackView { track: t, source: TrackSource::Context }),
                        ..self
                    },
                    Some(t),
                )
            },
        }
    }

    /// The play order and cursor a fresh start at `start` of `len`
    /// tracks may take: in list order, or shuffled with `start` first.
    pub open spec fn fresh_order(order: Seq<usize>, cursor: Option<usize>, len: nat, start: usize, shuffle: bool) -> bool {
        if shuffle {
            &&& is_permutation_of_range(order, len)
            &&& order[0] == start
            &&& cursor == Some(0usize)
        } else {
            &&& order == range_seq(0, len)
            &&& cursor == Some(start)
        }
    }

    /// `new` is this queue after `play_context(tracks, start)` with a
    /// valid `start`: the context replaced, playback at `start`, and the
    /// manual order dropped. Only the shuffled order is left to chance.
    pub open spec fn played_context(self, new: QueueView, tracks: Seq<TrackView>, start: usize) -> bool {
        &&& new.context == tracks
        &&& QueueView::fresh_order(new.order, new.cursor, tracks.len(), start, self.shuffle)
        &&& new.manual_order is None
        &&& new.current == Some(CurrentTrackView { track: tracks[start as int], source: TrackSource::Context })
        &&& new.user_queue == self.user_queue
        &&& new.repeat == self.repeat
        &&& new.shuffle == self.shuffle
    }

    /// `new` is this queue after `set_shuffle(on)`: the manual order
    /// dropped, and the order rebuilt around the current context track.
    pub open spec fn shuffled(self, new: QueueView, on: bool) -> bool {
        &&& new.context == self.context
        &&& new.user_queue == self.user_queue
        &&& new.manual_order is None
        &&& new.current == self.current
        &&& new.repeat == self.repeat
        &&& new.shuffle == on
        &&& match self.cursor {
            None => new.order == self.order && new.cursor is None,
            Some(c) => QueueView::fresh_order(new.order, new.cursor, self.context.len(), self.order[c as int], on),
        }
    }

    /// The track that would play after the current one.
    pub open spec fn peek_next(self) -> Option<TrackView> {
        if self.repeat == RepeatMode::One {
            self.current_track()
        } else if !self.manual_empty() {
            self.entry_track(self.manual_order.unwrap()[0])
        } else if self.user_queue.len() > 0 {
            Some(self.user_queue[0])
        } else {
            match self.advanced_cursor() {
                Some(c) => Some(self.track_at(c)),
                None => if self.cursor is None && self.order.len() > 0 {
                    Some(self.track_at(0))
                } else {
                    None
                },
            }
        }
    }
}

/// The last user entry of `m` sits just before `i` when every entry
/// from `i` on names the context.
pub proof fn lemma_last_user_pos(m: Seq<UpcomingEntry>, i: int)
    requires
        0 <= i <= m.len(),
        i > 0 ==> m[i - 1] is User,
        forall|k: int| i <= k < m.len() ==> #[trigger] m[k] is Context,
    ensures
        last_user_pos(m) == i - 1,
    decreases m.len(),
{
    if m.len() > 0 && i < m.len() {
        assert(m.last() is Context);
        lemma_last_user_pos(m.drop_last(), i);
    }
}

pub proof fn lemma_play_next_wf(q: QueueView, t: TrackView)
    requires
        q.wf(),
        q.user_queue.len() < usize::MAX,
    ensures
        q.play_next(t).wf(),
{
    let q1 = q.play_next(t);
    if let Some(m) = q.manual_order {
        let m1 = q1.manual_order.unwrap();
        assert forall|k: int| 0 <= k < m1.len() implies q1.valid_entry(#[trigger] m1[k]) by {
            if k > 0 {
                assert(q.valid_entry(m[k - 1]));
            }
        }
        assert forall|a: int, b: int| 0 <= a < m1.len() && 0 <= b < m1.len() && a != b implies m1[a]
            != m1[b] by {
            if a > 0 {
                assert(q.valid_entry(m[a - 1]));
            }
            if b > 0 {
                assert(q.valid_entry(m[b - 1]));
            }
            if a > 0 && b > 0 {
                assert(m[a - 1] != m[b - 1]);
            }
        }
    }
}

pub proof fn lemma_queue_track_wf(q: QueueView, t: TrackView)
    requires
        q.wf(),
        q.user_queue.len() < usize::MAX,
    ensures
        q.queue_track(t).wf(),
{
    let q1 = q.queue_track(t);
    if let Some(m) = q.manual_order {
        let at = last_user_pos(m) + 1;
        lemma_last_user_pos_bounds(m);
        let e = UpcomingEntry::User(q.user_queue.len() as usize);
        let m1 = q1.manual_order.unwrap();
        assert(m1 == m.insert(at, e));
        assert forall|k: int| 0 <= k < m1.len() implies q1.valid_entry(#[trigger] m1[k]) by {
            if k < at {
                assert(q.valid_entry(m[k]));
            } else if k > at {
                assert(q.valid_entry(m[k - 1]));
            }
        }
        assert forall|a: int, b: int| 0 <= a < m1.len() && 0 <= b < m1.len() && a != b implies m1[a]
            != m1[b] by {
            if a != at && b != at {
                let a0 = if a < at { a } else { a - 1 };
                let b0 = if b < at { b } else { b - 1 };
                assert(m1[a] == m[a0]);
                assert(m1[b] == m[b0]);
            } else if a == at {
                let b0 = if b < at { b } else { b - 1 };
                assert(q.valid_entry(m[b0]));
            } else {
                let a0 = if a < at { a } else { a - 1 };
                assert(q.valid_entry(m[a0]));
            }
        }
    }
}

pub proof fn lemma_last_user_pos_bounds(m: Seq<UpcomingEntry>)
    ensures
        -1 <= last_user_pos(m) < m.len(),
    decreases m.len(),
{
    if m.len() > 0 {
        lemma_last_user_pos_bounds(m.drop_last());
    }
}

/// A filter keeps a sequence free of duplicates.
pub proof fn lemma_filter_no_duplicates<A>(s: Seq<A>, pred: spec_fn(A) -> bool)
    requires
        s.no_duplicates(),
    ensures
        s.filter(pred).no_duplicates(),
    decreases s.len(),
{
    reveal(Seq::filter);
    if s.len() > 0 {
        let d = s.drop_last();
        assert(d.no_duplicates());
        lemma_filter_no_duplicates(d, pred);
        if pred(s.last()) {
            let f = d.filter(pred);
            assert forall|k: int| 0 <= k < f.len() implies f[k] != s.last() by {
                if f[k] == s.last() {
                    d.lemma_filter_contains_rev(pred, s.last());
                    let j = choose|j: int| 0 <= j < d.len() && d[j] == s.last();
                    assert(s[j] == s[s.len() - 1]);
                }
            }
        }
    }
}

pub proof fn lemma_clear_user_queue_wf(q: QueueView)
    requires
        q.wf(),
    ensures
        q.clear_user_queue().wf(),
{
    let q1 = q.clear_user_queue();
    if let Some(m) = q.manual_order {
        let pred = context_pred();
        let m1 = m.filter(pred);
        assert(q1.manual_order == Some(m1));
        lemma_filter_no_duplicates(m, pred);
        assert forall|k: int| 0 <= k < m1.len() implies q1.valid_entry(#[trigger] m1[k]) by {
            m.lemma_filter_pred(pred, k);
            m.lemma_filter_contains_rev(pred, m1[k]);
            let j = choose|j: int| 0 <= j < m.len() && m[j] == m1[k];
            assert(q.valid_entry(m[j]));
        }
    }
}

pub proof fn lemma_extend_context_wf(q: QueueView, tracks: Seq<TrackView>)
    requires
        q.wf(),
        q.context.len() + tracks.len() <= usize::MAX,
    ensures
        q.extend_context(tracks).wf(),
{
    let q1 = q.extend_context(tracks);
    let start = q.context.len();
    let new_indices = range_seq(start as int, tracks.len());
    assert forall|k: int| 0 <= k < q1.order.len() implies #[trigger] q1.order[k] < q1.context.len() by {
        if k >= q.order.len() {
            assert(q1.order[k] == new_indices[k - q.order.len()]);
        }
    }
    assert forall|a: int, b: int| 0 <= a < q1.order.len() && 0 <= b < q1.order.len() && a != b implies q1.order[a]
        != q1.order[b] by {
        if a < q.order.len() && b < q.order.len() {
            assert(q1.order[a] == q.order[a]);
            assert(q1.order[b] == q.order[b]);
        } else if a < q.order.len() {
            assert(q.order[a] < start);
            assert(q1.order[a] == q.order[a]);
            assert(q1.order[b] == new_indices[b - q.order.len()]);
        } else if b < q.order.len() {
            assert(q.order[b] < start);
            assert(q1.order[b] == q.order[b]);
            assert(q1.order[a] == new_indices[a - q.order.len()]);
        } else {
            assert(q1.order[b] == new_indices[b - q.order.len()]);
            assert(q1.order[a] == new_indices[a - q.order.len()]);
        }
    }
    if let Some(m) = q.manual_order {
        let added = new_indices.map_values(|v: usize| UpcomingEntry::Context(v));
        let m1 = m + added;
        assert(q1.manual_order == Some(m1));
        assert forall|k: int| 0 <= k < m1.len() implies q1.valid_entry(#[trigger] m1[k]) by {
            if k < m.len() {
                assert(q.valid_entry(m[k]));
                if let UpcomingEntry::Context(i) = m[k] {
                    let j = choose|j: int| 0 <= j < q.order.len() && q.order[j] == i;
                    assert(q1.order[j] == i);
                }
            } else {
                let v = new_indices[k - m.len()];
                assert(q1.order[q.order.len() + (k - m.len())] == v);
                if let Some(c) = q.cursor {
                    assert forall|p: int| 0 <= p <= c implies #[trigger] q1.order[p] != v by {
                        assert(q.order[p] < start);
                    }
                }
            }
        }
        assert forall|a: int, b: int| 0 <= a < m1.len() && 0 <= b < m1.len() && a != b implies m1[a]
            != m1[b] by {
            if a < m.len() && b >= m.len() {
                assert(q.valid_entry(m[a]));
                assert(m1[b] == added[b - m.len()]);
            } else if b < m.len() && a >= m.len() {
                assert(q.valid_entry(m[b]));
                assert(m1[a] == added[a - m.len()]);
            } else if a >= m.len() && b >= m.len() {
                assert(m1[b] == added[b - m.len()]);
                assert(m1[a] == added[a - m.len()]);
            } else {
                assert(m1[a] == m[a]);
                assert(m1[b] == m[b]);
            }
        }
    }
}

/// Where each element of `rotate_into(s, at, p)` comes from.
pub open spec fn rotate_src(at: int, p: int, k: int) -> int {
    if k < at {
        k
    } else if k == at {
        p
    } else if k <= p {
        k - 1
    } else {
        k
    }
}

pub proof fn lemma_rotate_into(s: Seq<usize>, at: int, p: int)
    requires
        0 <= at <= p < s.len(),
    ensures
        rotate_into(s, at, p).len() == s.len(),
        forall|k: int| 0 <= k < s.len() ==> #[trigger] rotate_into(s, at, p)[k] == s[rotate_src(at, p, k)],
        s.no_duplicates() ==> rotate_into(s, at, p).no_duplicates(),
        forall|k: int| 0 <= k < s.len() ==> 0 <= #[trigger] rotate_src(at, p, k) < s.len(),
{
    let r = rotate_into(s, at, p);
    assert forall|k: int| 0 <= k < s.len() implies #[trigger] r[k] == s[rotate_src(at, p, k)] by {
        if k < at {
        } else if k == at {
        } else if k <= p {
        } else {
        }
    }
    if s.no_duplicates() {
        assert forall|a: int, b: int| 0 <= a < r.len() && 0 <= b < r.len() && a != b implies r[a]
            != r[b] by {
            assert(r[a] == s[rotate_src(at, p, a)]);
            assert(r[b] == s[rotate_src(at, p, b)]);
        }
    }
}

pub proof fn lemma_range_seq_permutation(n: nat)
    requires
        n <= usize::MAX,
    ensures
        is_permutation_of_range(range_seq(0, n), n),
{
}

pub proof fn lemma_picked_step<A>(e: Seq<A>, sel: spec_fn(int) -> bool, i: int)
    requires
        0 <= i < e.len(),
    ensures
        picked(e.take(i + 1), sel) == if sel(i) {
            picked(e.take(i), sel).push(e[i])
        } else {
            picked(e.take(i), sel)
        },
{
    assert(e.take(i + 1).drop_last() =~= e.take(i));
}

pub proof fn lemma_picked_all<A>(e: Seq<A>, sel: spec_fn(int) -> bool)
    ensures
        e.take(e.len() as int) == e,
{
    assert(e.take(e.len() as int) =~= e);
}

/// The selected and the rejected elements together make up the sequence.
pub proof fn lemma_picked_partition<A>(e: Seq<A>, sel: spec_fn(int) -> bool)
    ensures
        picked(e, sel).to_multiset().add(picked(e, negate(sel)).to_multiset()) =~= e.to_multiset(),
        picked(e, sel).len() + picked(e, negate(sel)).len() == e.len(),
    decreases e.len(),
{
    broadcast use vstd::seq_lib::group_to_multiset_ensures, vstd::multiset::group_multiset_axioms;

    if e.len() > 0 {
        let d = e.drop_last();
        lemma_picked_partition(d, sel);
        assert(d.push(e.last()) =~= e);
    } else {
        assert(e.to_multiset() =~= vstd::multiset::Multiset::empty()) by {
            assert(e =~= Seq::<A>::empty());
        }
    }
}

/// A prefix selects no more than the whole sequence.
pub proof fn lemma_picked_prefix<A>(e: Seq<A>, sel: spec_fn(int) -> bool, b: int)
    requires
        0 <= b <= e.len(),
    ensures
        picked(e.take(b), sel).len() <= picked(e, sel).len(),
    decreases e.len(),
{
    if b < e.len() {
        let d = e.drop_last();
        assert(e.take(b) =~= d.take(b));
        lemma_picked_prefix(d, sel, b);
    } else {
        assert(e.take(b) =~= e);
    }
}

/// The same elements in another order: no duplicates, and every
/// element one of the originals.
pub proof fn lemma_same_multiset<A>(a: Seq<A>, b: Seq<A>)
    requires
        a.to_multiset() == b.to_multiset(),
        a.no_duplicates(),
    ensures
        b.no_duplicates(),
        forall|k: int| 0 <= k < b.len() ==> a.contains(#[trigger] b[k]),
{
    broadcast use vstd::seq_lib::group_to_multiset_ensures, vstd::multiset::group_multiset_axioms;

    a.lemma_multiset_has_no_duplicates();
    b.lemma_multiset_has_no_duplicates_conv();
    assert forall|k: int| 0 <= k < b.len() implies a.contains(#[trigger] b[k]) by {
        assert(b.contains(b[k]));
        assert(b.to_multiset().count(b[k]) > 0);
        assert(a.to_multiset().count(b[k]) > 0);
    }
}

/// The upcoming entries of a well-formed queue are distinct and valid.
pub proof fn lemma_entries_wf(q: QueueView)
    requires
        q.wf(),
        q.user_queue.len() <= usize::MAX,
    ensures
        q.entries().no_duplicates(),
        forall|k: int| 0 <= k < q.entries().len() ==> q.valid_entry(#[trigger] q.entries()[k]),
{
    if q.manual_order is None {
        let n = q.user_queue.len();
        let users = Seq::new(n, |i: int| UpcomingEntry::User(i as usize));
        let ctx = q.context_entries();
        let e = q.entries();
        assert(e == users + ctx);
        let st: int = match q.cursor {
            Some(c) => c + 1,
            None => 0,
        };
        assert forall|k: int| 0 <= k < ctx.len() implies #[trigger] ctx[k] == UpcomingEntry::Context(
            q.order[st + k],
        ) && q.valid_entry(ctx[k]) by {
            let v = q.order[st + k];
            assert(q.order[st + k] == v);
            assert(q.order.contains(v));
            if let Some(c) = q.cursor {
                assert forall|p: int| 0 <= p <= c implies #[trigger] q.order[p] != v by {
                    assert(p != st + k);
                }
            }
        }
        assert forall|k: int| 0 <= k < e.len() implies q.valid_entry(#[trigger] e[k]) by {
            if k >= n {
                assert(e[k] == ctx[k - n]);
            }
        }
        assert forall|a: int, b: int| 0 <= a < e.len() && 0 <= b < e.len() && a != b implies e[a]
            != e[b] by {
            if a >= n && b >= n {
                assert(e[a] == ctx[a - n]);
                assert(e[b] == ctx[b - n]);
                assert(ctx[a - n] == UpcomingEntry::Context(q.order[st + (a - n)]));
                assert(ctx[b - n] == UpcomingEntry::Context(q.order[st + (b - n)]));
                assert(q.order[st + (a - n)] != q.order[st + (b - n)]);
            } else if a >= n {
                assert(e[a] == ctx[a - n]);
                assert(e[b] == users[b]);
            } else if b >= n {
                assert(e[b] == ctx[b - n]);
                assert(e[a] == users[a]);
            } else {
                assert(e[a] == users[a]);
                assert(e[b] == users[b]);
            }
        }
    }
}

/// The insertion point of a move lies inside the entries left behind.
pub proof fn lemma_move_target<A>(e: Seq<A>, sel: spec_fn(int) -> bool, before: int)
    requires
        0 <= before <= e.len(),
    ensures
        0 <= before - picked(e.take(before), sel).len() <= picked(e, negate(sel)).len(),
{
    let pre = e.take(before);
    lemma_picked_partition(pre, sel);
    lemma_picked_prefix(e, negate(sel), before);
}

pub proof fn lemma_move_upcoming_wf(q: QueueView, selected: Seq<usize>, before: usize)
    requires
        q.wf(),
        q.user_queue.len() <= usize::MAX,
    ensures
        q.move_upcoming(selected, before).wf(),
{
    broadcast use vstd::seq_lib::group_to_multiset_ensures, vstd::multiset::group_multiset_axioms;

    let e = q.entries();
    let sel = q.selection(selected);
    let moving = picked(e, sel);
    if !(before > e.len() || moving.len() == 0) {
        let target = before - picked(e.take(before as int), sel).len();
        let remaining = picked(e, negate(sel));
        lemma_move_target(e, sel, before as int);
        let m1 = remaining.take(target) + moving + remaining.skip(target);
        lemma_entries_wf(q);
        lemma_picked_partition(e, sel);
        vstd::seq_lib::lemma_multiset_commutative(remaining.take(target), moving);
        vstd::seq_lib::lemma_multiset_commutative(remaining.take(target) + moving, remaining.skip(target));
        vstd::seq_lib::lemma_multiset_commutative(remaining.take(target), remaining.skip(target));
        assert(remaining.take(target) + remaining.skip(target) =~= remaining);
        assert(m1.to_multiset() =~= e.to_multiset());
        lemma_same_multiset(e, m1);
        let q1 = q.move_upcoming(selected, before);
        assert(q1.manual_order == Some(m1));
        assert forall|k: int| 0 <= k < m1.len() implies q1.valid_entry(#[trigger] m1[k]) by {
            assert(e.contains(m1[k]));
            let j = choose|j: int| 0 <= j < e.len() && e[j] == m1[k];
            assert(q.valid_entry(e[j]));
        }
    }
}

/// In a sequence without duplicates, filtering out `s[p]` removes position `p`.
pub proof fn lemma_filter_unique(s: Seq<usize>, p: int)
    requires
        s.no_duplicates(),
        0 <= p < s.len(),
    ensures
        s.filter(ne_pred(s[p])) == s.remove(p),
    decreases s.len(),
{
    reveal(Seq::filter);
    let d = s.drop_last();
    let v = s[p];
    if p == s.len() - 1 {
        assert forall|k: int| 0 <= k < d.len() implies ne_pred(v)(#[trigger] d[k]) by {
            assert(s[k] != s[p]);
        }
        lemma_filter_all(d, ne_pred(v));
        assert(s.remove(p) =~= d);
    } else {
        assert(d.no_duplicates());
        assert(d[p] == v);
        lemma_filter_unique(d, p);
        assert(s.last() != v);
        assert(s.remove(p) =~= d.remove(p).push(s.last()));
    }
}

/// A filter that accepts everything keeps the sequence.
pub proof fn lemma_filter_all<A>(s: Seq<A>, pred: spec_fn(A) -> bool)
    requires
        forall|k: int| 0 <= k < s.len() ==> pred(#[trigger] s[k]),
    ensures
        s.filter(pred) == s,
    decreases s.len(),
{
    reveal(Seq::filter);
    if s.len() > 0 {
        lemma_filter_all(s.drop_last(), pred);
        assert(s.drop_last().push(s.last()) =~= s);
    }
}

pub proof fn lemma_remove_upcoming_wf(q: QueueView, index: usize)
    requires
        q.wf(),
        q.user_queue.len() <= usize::MAX,
    ensures
        q.remove_upcoming(index).wf(),
{
    let e = q.entries();
    if index < e.len() {
        lemma_entries_wf(q);
        let entry = e[index as int];
        assert(q.valid_entry(entry));
        let q1 = q.remove_upcoming(index);
        match entry {
            UpcomingEntry::User(i) => {
                if let Some(m) = q.manual_order {
                    let mr = m.remove(index as int);
                    let m1 = adjust_all(mr, entry);
                    assert(q1.manual_order == Some(m1));
                    assert forall|k: int| 0 <= k < mr.len() implies #[trigger] mr[k] != entry && q.valid_entry(mr[k]) by {
                        let src = if k < index { k } else { k + 1 };
                        assert(mr[k] == m[src]);
                        assert(src != index);
                    }
                    assert forall|k: int| 0 <= k < m1.len() implies q1.valid_entry(#[trigger] m1[k]) by {
                        assert(mr[k] != entry && q.valid_entry(mr[k]));
                    }
                    assert forall|a: int, b: int| 0 <= a < m1.len() && 0 <= b < m1.len() && a != b implies m1[a]
                        != m1[b] by {
                        assert(mr[a] != entry && q.valid_entry(mr[a]));
                        assert(mr[b] != entry && q.valid_entry(mr[b]));
                        let sa = if a < index { a } else { a + 1 };
                        let sb = if b < index { b } else { b + 1 };
                        assert(mr[a] == m[sa]);
                        assert(mr[b] == m[sb]);
                        assert(m[sa] != m[sb]);
                    }
                }
            },
            UpcomingEntry::Context(i) => {
                let p = choose|p: int| 0 <= p < q.order.len() && q.order[p] == i;
                assert(q.order[p] == i);
                if let Some(c) = q.cursor {
                    if p <= c {
                        assert(q.after_cursor(i));
                        assert(q.order[p] != i);
                    }
                }
                lemma_filter_unique(q.order, p);
                let kept = q.order.remove(p);
                assert(q1.order == kept.map_values(dec_above(i)));
                assert(q1.context.len() == q.context.len() - 1);
                assert forall|k: int| 0 <= k < kept.len() implies #[trigger] kept[k] != i && kept[k] < q.context.len() by {
                    let src = if k < p { k } else { k + 1 };
                    assert(kept[k] == q.order[src]);
                    assert(src != p);
                }
                assert forall|k: int| 0 <= k < q1.order.len() implies #[trigger] q1.order[k] < q1.context.len() by {
                    assert(kept[k] != i && kept[k] < q.context.len());
                }
                assert forall|a: int, b: int| 0 <= a < q1.order.len() && 0 <= b < q1.order.len() && a != b implies q1.order[a]
                    != q1.order[b] by {
                    assert(kept[a] != i && kept[a] < q.context.len());
                    assert(kept[b] != i && kept[b] < q.context.len());
                    let sa = if a < p { a } else { a + 1 };
                    let sb = if b < p { b } else { b + 1 };
                    assert(kept[a] == q.order[sa]);
                    assert(kept[b] == q.order[sb]);
                }
                if let Some(m) = q.manual_order {
                    let mr = m.remove(index as int);
                    let m1 = adjust_all(mr, entry);
                    assert(q1.manual_order == Some(m1));
                    assert forall|k: int| 0 <= k < mr.len() implies #[trigger] mr[k] != entry && q.valid_entry(mr[k]) by {
                        let src = if k < index { k } else { k + 1 };
                        assert(mr[k] == m[src]);
                        assert(src != index);
                    }
                    assert forall|k: int| 0 <= k < m1.len() implies q1.valid_entry(#[trigger] m1[k]) by {
                        assert(mr[k] != entry && q.valid_entry(mr[k]));
                        if let UpcomingEntry::Context(j) = mr[k] {
                            let pj = choose|pj: int| 0 <= pj < q.order.len() && q.order[pj] == j;
                            assert(pj != p);
                            let kj = if pj < p { pj } else { pj - 1 };
                            assert(kept[kj] == j);
                            assert(q1.order[kj] == dec_above(i)(j));
                            if let Some(c) = q.cursor {
                                assert forall|x: int| 0 <= x <= c implies #[trigger] q1.order[x] != dec_above(i)(j) by {
                                    assert(kept[x] == q.order[x]);
                                    assert(q.order[x] != j);
                                    assert(q.order[x] != i);
                                }
                            }
                        }
                    }
                    assert forall|a: int, b: int| 0 <= a < m1.len() && 0 <= b < m1.len() && a != b implies m1[a]
                        != m1[b] by {
                        assert(mr[a] != entry && q.valid_entry(mr[a]));
                        assert(mr[b] != entry && q.valid_entry(mr[b]));
                        let sa = if a < index { a } else { a + 1 };
                        let sb = if b < index { b } else { b + 1 };
                        assert(mr[a] == m[sa]);
                        assert(mr[b] == m[sb]);
                        assert(m[sa] != m[sb]);
                    }
                }
            },
        }
    }
}

pub proof fn lemma_first_pos(s: Seq<usize>, v: usize, p: int)
    requires
        0 <= p < s.len(),
        s[p] == v,
        forall|k: int| 0 <= k < p ==> s[k] != v,
    ensures
        first_pos(s, v) == Some(p),
{
    let w = choose|w: int| 0 <= w < s.len() && s[w] == v && forall|k: int| 0 <= k < w ==> s[k] != v;
    assert(0 <= w < s.len() && s[w] == v && forall|k: int| 0 <= k < w ==> s[k] != v);
    if w < p {
        assert(s[w] != v);
    }
    if w > p {
        assert(s[p] != v);
    }
}

pub proof fn lemma_first_pos_none(s: Seq<usize>, v: usize)
    requires
        forall|k: int| 0 <= k < s.len() ==> s[k] != v,
    ensures
        first_pos(s, v) is None,
{
}

/// A `filter_map` that keeps every element keeps the length.
pub proof fn lemma_filter_map_len<A, B>(s: Seq<A>, f: spec_fn(A) -> Option<B>)
    requires
        forall|k: int| 0 <= k < s.len() ==> (#[trigger] f(s[k])) is Some,
    ensures
        s.filter_map(f).len() == s.len(),
    decreases s.len(),
{
    if s.len() > 0 {
        assert(f(s.drop_last().last()) is Some || s.drop_last().len() == 0);
        assert forall|k: int| 0 <= k < s.drop_last().len() implies (#[trigger] f(s.drop_last()[k])) is Some by {
            assert(s.drop_last()[k] == s[k]);
        }
        lemma_filter_map_len(s.drop_last(), f);
        assert(f(s[s.len() - 1]) is Some);
    }
}

/// The number of upcoming tracks of a well-formed queue.
pub proof fn lemma_upcoming_len(q: QueueView)
    requires
        q.wf(),
    ensures
        q.upcoming().len() == match q.manual_order {
            Some(m) => m.len(),
            None => q.user_queue.len() + q.rest().len(),
        },
{
    match q.manual_order {
        Some(m) => {
            let f = |e: UpcomingEntry| q.entry_track(e);
            assert forall|k: int| 0 <= k < m.len() implies (#[trigger] f(m[k])) is Some by {
                assert(q.valid_entry(m[k]));
            }
            lemma_filter_map_len(m, f);
        },
        None => {
            let r = q.rest();
            let f = |i: usize| q.context_get(i);
            assert forall|k: int| 0 <= k < r.len() implies (#[trigger] f(r[k])) is Some by {
                match q.cursor {
                    Some(c) => assert(r[k] == q.order[c + 1 + k]),
                    None => {},
                }
            }
            lemma_filter_map_len(r, f);
        },
    }
}

/// An explicit skip keeps the queue well formed.
pub proof fn lemma_next_wf(q: QueueView)
    requires
        q.wf(),
    ensures
        q.next().0.wf(),
{
    match q.manual_order {
        Some(m) => {
            if m.len() > 0 {
                lemma_next_manual_wf(q, m);
            }
        },
        None => {},
    }
}

pub proof fn lemma_next_manual_wf(q: QueueView, m: Seq<UpcomingEntry>)
    requires
        q.wf(),
        q.manual_order == Some(m),
        m.len() > 0,
    ensures
        q.next_manual(m).0.wf(),
{
    let entry = m[0];
    let rest = m.drop_first();
    let q1 = QueueView { manual_order: Some(rest), ..q };
    assert(q.valid_entry(entry));
    assert forall|k: int| 0 <= k < rest.len() implies #[trigger] rest[k] != entry && q.valid_entry(rest[k]) by {
        assert(rest[k] == m[k + 1]);
        assert(m[k + 1] != m[0]);
    }
    let (q2, taken) = q1.take_manual(entry);
    match entry {
        UpcomingEntry::User(i) => {
            let m2 = adjust_all(rest, entry);
            assert(q2.manual_order == Some(m2));
            assert forall|k: int| 0 <= k < m2.len() implies q2.valid_entry(#[trigger] m2[k]) by {
                assert(rest[k] != entry && q.valid_entry(rest[k]));
            }
            assert forall|a: int, b: int| 0 <= a < m2.len() && 0 <= b < m2.len() && a != b implies m2[a]
                != m2[b] by {
                assert(rest[a] != entry && q.valid_entry(rest[a]));
                assert(rest[b] != entry && q.valid_entry(rest[b]));
                assert(rest[a] == m[a + 1]);
                assert(rest[b] == m[b + 1]);
            }
        },
        UpcomingEntry::Context(i) => {
            let next = match q.cursor {
                Some(c) => c + 1,
                None => 0,
            };
            let p = choose|p: int| 0 <= p < q.order.len() && q.order[p] == i;
            assert(q.order[p] == i);
            if let Some(c) = q.cursor {
                if p <= c {
                    assert(q.after_cursor(i));
                    assert(q.order[p] != i);
                }
            }
            assert forall|k: int| 0 <= k < p implies q.order[k] != i by {
                assert(q.order[k] != q.order[p]);
            }
            lemma_first_pos(q.order, i, p);
            lemma_rotate_into(q.order, next, p);
            let o2 = rotate_into(q.order, next, p);
            assert(q2.order == o2);
            assert forall|k: int| 0 <= k < o2.len() implies #[trigger] o2[k] < q2.context.len() by {
                assert(o2[k] == q.order[rotate_src(next, p, k)]);
            }
            assert forall|k: int| 0 <= k < rest.len() implies q2.valid_entry(#[trigger] rest[k]) by {
                assert(rest[k] != entry && q.valid_entry(rest[k]));
                if let UpcomingEntry::Context(j) = rest[k] {
                    let pj = choose|pj: int| 0 <= pj < q.order.len() && q.order[pj] == j;
                    let kj = if pj < next { pj } else if pj < p { pj + 1 } else if pj == p { next } else { pj };
                    assert(pj != p);
                    assert(rotate_src(next, p, kj) == pj);
                    assert(o2[kj] == j);
                    assert forall|x: int| 0 <= x <= next implies #[trigger] o2[x] != j by {
                        assert(o2[x] == q.order[rotate_src(next, p, x)]);
                        if x < next {
                            match q.cursor {
                                Some(c) => assert(q.order[x] != j),
                                None => {},
                            }
                        }
                    }
                }
            }
        },
    }
}

/// `n` skips from a queue with at least `n` upcoming tracks never
/// reach the case that `next` cannot run.
pub proof fn lemma_next_upcoming(q: QueueView)
    requires
        q.wf(),
        q.bounded(),
        q.upcoming().len() > 0,
    ensures
        q.next().0.wf(),
        q.next().0.bounded(),
        q.next().0.upcoming().len() == q.upcoming().len() - 1,
{
    lemma_upcoming_len(q);
    match q.manual_order {
        Some(m) => {
            assert(m.len() > 0);
            lemma_next_wf(q);
            let q2 = q.next().0;
            lemma_upcoming_len(q2);
            let entry = m[0];
            let q1 = QueueView { manual_order: Some(m.drop_first()), ..q };
            assert(q.valid_entry(entry));
            match entry {
                UpcomingEntry::User(i) => {
                    assert(q2.manual_order == Some(adjust_all(m.drop_first(), entry)));
                    assert(adjust_all(m.drop_first(), entry).len() == m.len() - 1);
                    assert(q2.upcoming().len() == m.len() - 1);
                },
                UpcomingEntry::Context(i) => {
                    let p = choose|p: int| 0 <= p < q.order.len() && q.order[p] == i;
                    if let Some(c) = q.cursor {
                        if p <= c {
                            assert(q.after_cursor(i));
                            assert(q.order[p] != i);
                        }
                    }
                    assert forall|k: int| 0 <= k < p implies q.order[k] != i by {
                        assert(q.order[k] != q.order[p]);
                    }
                    lemma_first_pos(q.order, i, p);
                    assert(q2.manual_order == Some(m.drop_first()));
                    assert(q2.upcoming().len() == m.len() - 1);
                },
            }
        },
        None => {
            lemma_next_wf(q);
            let q2 = q.next().0;
            lemma_upcoming_len(q2);
            if q.user_queue.len() > 0 {
                assert(q2.user_queue.len() == q.user_queue.len() - 1);
                assert(q2.rest() == q.rest());
            } else {
                match q.cursor {
                    Some(c) => {
                        assert(c + 1 < q.order.len());
                        assert(q2.cursor == Some((c + 1) as usize));
                        assert(q2.rest().len() == q.rest().len() - 1);
                    },
                    None => {
                        assert(q2.cursor == Some(0usize));
                        assert(q2.rest().len() == q.rest().len() - 1);
                    },
                }
            }
        },
    }
}

pub proof fn lemma_jump_steps(q: QueueView, k: nat)
    requires
        q.wf(),
        q.bounded(),
        k <= q.upcoming().len(),
    ensures
        q.next_times(k).0.wf(),
        q.next_times(k).0.bounded(),
        q.next_times(k).0.upcoming().len() == q.upcoming().len() - k,
    decreases k,
{
    if k > 0 {
        lemma_jump_steps(q, (k - 1) as nat);
        lemma_next_upcoming(q.next_times((k - 1) as nat).0);
    }
}

pub proof fn lemma_previous_wf(q: QueueView)
    requires
        q.wf(),
    ensures
        q.previous().0.wf(),
{
    if let Some(c) = q.cursor {
        let p = q.previous_cursor(c);
        let q1 = q.previous().0;
        if p <= c {
            if let Some(m) = q.manual_order {
                let replay = q.order.subrange(p + 1, c + 1).map_values(|v: usize| UpcomingEntry::Context(v));
                let m1 = replay + m;
                assert(q1.manual_order == Some(m1));
                assert forall|k: int| 0 <= k < replay.len() implies #[trigger] replay[k] == UpcomingEntry::Context(
                    q.order[p + 1 + k],
                ) by {}
                assert forall|k: int| 0 <= k < m1.len() implies q1.valid_entry(#[trigger] m1[k]) by {
                    if k < replay.len() {
                        assert(replay[k] == UpcomingEntry::Context(q.order[p + 1 + k]));
                        let v = q.order[p + 1 + k];
                        assert(q.order.contains(v));
                        assert forall|x: int| 0 <= x <= p implies #[trigger] q.order[x] != v by {
                            assert(x != p + 1 + k);
                        }
                    } else {
                        assert(m1[k] == m[k - replay.len()]);
                        assert(q.valid_entry(m[k - replay.len()]));
                    }
                }
                assert forall|a: int, b: int| 0 <= a < m1.len() && 0 <= b < m1.len() && a != b implies m1[a]
                    != m1[b] by {
                    if a < replay.len() && b < replay.len() {
                        assert(replay[a] == UpcomingEntry::Context(q.order[p + 1 + a]));
                        assert(replay[b] == UpcomingEntry::Context(q.order[p + 1 + b]));
                    } else if a < replay.len() {
                        assert(replay[a] == UpcomingEntry::Context(q.order[p + 1 + a]));
                        assert(m1[b] == m[b - replay.len()]);
                        assert(q.valid_entry(m[b - replay.len()]));
                    } else if b < replay.len() {
                        assert(replay[b] == UpcomingEntry::Context(q.order[p + 1 + b]));
                        assert(m1[a] == m[a - replay.len()]);
                        assert(q.valid_entry(m[a - replay.len()]));
                    } else {
                        assert(m1[a] == m[a - replay.len()]);
                        assert(m1[b] == m[b - replay.len()]);
                    }
                }
            }
        }
    }
}

pub proof fn lemma_count_kept_filter(s: Seq<TrackView>, keep: spec_fn(TrackView) -> bool)
    ensures
        count_kept(s, keep) == s.filter(keep).len(),
    decreases s.len(),
{
    reveal(Seq::filter);
    if s.len() > 0 {
        lemma_count_kept_filter(s.drop_last(), keep);
    }
}

pub proof fn lemma_count_kept_step(s: Seq<TrackView>, keep: spec_fn(TrackView) -> bool, i: int)
    requires
        0 <= i < s.len(),
    ensures
        count_kept(s.take(i + 1), keep) == count_kept(s.take(i), keep) + if keep(s[i]) {
            1nat
        } else {
            0nat
        },
{
    assert(s.take(i + 1).drop_last() =~= s.take(i));
}

pub proof fn lemma_count_kept_mono(s: Seq<TrackView>, keep: spec_fn(TrackView) -> bool, a: int, b: int)
    requires
        0 <= a <= b <= s.len(),
    ensures
        count_kept(s.take(a), keep) <= count_kept(s.take(b), keep),
        a < b && keep(s[a]) ==> count_kept(s.take(a), keep) < count_kept(s.take(b), keep),
    decreases b - a,
{
    if a < b {
        lemma_count_kept_mono(s, keep, a, b - 1);
        lemma_count_kept_step(s, keep, b - 1);
        if keep(s[a]) && a == b - 1 {
        }
    }
}

/// A kept element's new index lies inside the filtered sequence, and
/// no two kept elements share one.
pub proof fn lemma_kept_index(s: Seq<TrackView>, keep: spec_fn(TrackView) -> bool, i: usize)
    requires
        kept_index(s, keep, i) is Some,
        s.len() <= usize::MAX,
    ensures
        kept_index(s, keep, i)->0 < s.filter(keep).len(),
        forall|j: usize| #[trigger] kept_index(s, keep, j) == kept_index(s, keep, i) ==> j == i,
{
    lemma_count_kept_step(s, keep, i as int);
    lemma_count_kept_mono(s, keep, i as int + 1, s.len() as int);
    assert(s.take(s.len() as int) =~= s);
    lemma_count_kept_filter(s, keep);
    assert forall|j: usize| #[trigger] kept_index(s, keep, j) == kept_index(s, keep, i) implies j == i by {
        if j < i {
            lemma_count_kept_mono(s, keep, j as int, i as int);
            lemma_count_kept_mono(s, keep, i as int, s.len() as int);
        } else if j > i {
            lemma_count_kept_mono(s, keep, i as int, j as int);
            lemma_count_kept_mono(s, keep, j as int, s.len() as int);
        }
    }
}

/// Keeping only the tracks that `keep` accepts keeps the queue well formed.
pub proof fn lemma_retain_wf(q: QueueView, keep: spec_fn(TrackView) -> bool)
    requires
        q.wf(),
        q.bounded(),
    ensures
        q.retain(keep).wf(),
{
    let q1 = q.retain(keep);
    let cm = |i: usize| kept_index(q.context, keep, i);
    let o1 = q.order.filter_map(cm);
    assert(q1.order == o1);
    lemma_count_kept_filter(q.context, keep);
    assert forall|k: int| 0 <= k < o1.len() implies #[trigger] o1[k] < q1.context.len() by {
        lemma_filter_map_source(q.order, cm, k);
        let p = choose|p: int| 0 <= p < q.order.len() && cm(#[trigger] q.order[p]) == Some(o1[k]);
        lemma_kept_index(q.context, keep, q.order[p]);
    }
    assert forall|a: int, b: int|
        0 <= a < q.order.len() && 0 <= b < q.order.len() && a != b && (#[trigger] cm(q.order[a])) is Some implies cm(
        q.order[a]) != #[trigger] cm(q.order[b]) by {
        lemma_kept_index(q.context, keep, q.order[a]);
    }
    lemma_filter_map_no_dups(q.order, cm);
    if let Some(c) = q.cursor {
        let before = q.order.take(c as int).filter_map(cm).len();
        lemma_filter_map_prefix_le(q.order, cm, c as int);
        if cm(q.order[c as int]) is Some {
            lemma_filter_map_index(q.order, cm, c as int);
        }
    }
    if let Some(m) = q.manual_order {
        let ke = |e: UpcomingEntry| q.kept_entry(keep, e);
        let m1 = m.filter_map(ke);
        assert(q1.manual_order == Some(m1));
        assert forall|a: int, b: int|
            0 <= a < m.len() && 0 <= b < m.len() && a != b && (#[trigger] ke(m[a])) is Some implies ke(
            m[a]) != #[trigger] ke(m[b]) by {
            match (m[a], m[b]) {
                (UpcomingEntry::User(x), UpcomingEntry::User(y)) => {
                    lemma_kept_index(q.user_queue, keep, x);
                },
                (UpcomingEntry::Context(x), UpcomingEntry::Context(y)) => {
                    lemma_kept_index(q.context, keep, x);
                },
                _ => {},
            }
        }
        lemma_filter_map_no_dups(m, ke);
        lemma_count_kept_filter(q.user_queue, keep);
        assert forall|k: int| 0 <= k < m1.len() implies q1.valid_entry(#[trigger] m1[k]) by {
            lemma_filter_map_source(m, ke, k);
            let p = choose|p: int| 0 <= p < m.len() && ke(#[trigger] m[p]) == Some(m1[k]);
            assert(q.valid_entry(m[p]));
            match m[p] {
                UpcomingEntry::User(x) => {
                    lemma_kept_index(q.user_queue, keep, x);
                },
                UpcomingEntry::Context(x) => {
                    lemma_kept_index(q.context, keep, x);
                    let j = cm(x)->0;
                    let px = choose|px: int| 0 <= px < q.order.len() && q.order[px] == x;
                    lemma_filter_map_index(q.order, cm, px);
                    let pos = q.order.take(px).filter_map(cm).len() as int;
                    assert(o1[pos] == j);
                    assert(o1.contains(j));
                    if let Some(c) = q.cursor {
                        assert(px > c) by {
                            if px <= c {
                                assert(q.order[px] != x);
                            }
                        };
                        lemma_filter_map_prefix_mono(q.order, cm, c as int + 1, px);
                        q.order.lemma_filter_map_take_succ(cm, c as int);
                        assert(pos >= q.order.take(c as int + 1).filter_map(cm).len());
                        match q1.cursor {
                            Some(nc) => {
                                assert(pos > nc);
                                assert forall|y: int| 0 <= y <= nc implies #[trigger] o1[y] != j by {
                                    if o1[y] == j {
                                        assert(y != pos);
                                        assert(o1[y] == o1[pos]);
                                    }
                                }
                            },
                            None => {},
                        }
                    }
                },
            }
        }
    }
}

} // verus!
