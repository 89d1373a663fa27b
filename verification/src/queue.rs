//! The playback queue state machine.
//!
//! The rules, which the contracts below state and the laws in
//! `queue_laws` prove:
//!
//! - The context is the track list the user started playback from.
//! - The user queue holds explicitly queued tracks. It plays before the
//!   context advances, and its tracks never enter the context.
//! - Shuffle reorders only the tracks after the current one.
//! - An explicit Next always skips, also in repeat-one mode.
//! - A track end honors repeat-one and replays the same track.
//! - When the context ends in repeat-off mode, the current track stays
//!   visible and the caller stops playback.
use std::collections::VecDeque;

use vstd::prelude::*;

use crate::model::{lemma_track_views_add, lemma_track_views_push, Span, Track, TrackId, TrackView, track_views};
use crate::queue_view::{
    context_pred, lemma_clear_user_queue_wf, lemma_map_values_add, lemma_extend_context_wf, lemma_last_user_pos, lemma_last_user_pos_bounds, lemma_play_next_wf,
    lemma_queue_track_wf, last_user_pos, range_seq, rotate_into, lemma_rotate_into, rotate_src,
    is_permutation_of_range, lemma_range_seq_permutation, lemma_move_upcoming_wf, lemma_move_target,
    lemma_picked_step, lemma_picked_all, picked, negate, lemma_remove_upcoming_wf, lemma_entries_wf,
    adjust_all, ne_pred, dec_above, lemma_first_pos, lemma_first_pos_none, lemma_next_wf, first_pos,
    lemma_previous_wf, lemma_jump_steps, lemma_next_upcoming, remap_entry, local_keep, kept_index,
    count_kept, lemma_count_kept_step, lemma_retain_wf, replaced_local, is_local_id, shift_user, CurrentTrackView, QueueView, with_duration,
    with_missing_duration,
};
use crate::random::RandomBelow;
pub use crate::queue_view::{RepeatMode, TrackSource, UpcomingEntry};

verus! {

impl RepeatMode {
    pub fn cycled(self) -> (r: Self)
        ensures
            r == self.spec_cycled(),
    {
        match self {
            RepeatMode::Off => RepeatMode::All,
            RepeatMode::All => RepeatMode::One,
            RepeatMode::One => RepeatMode::Off,
        }
    }
}

impl Default for RepeatMode {
    fn default() -> (r: Self)
        ensures
            r == RepeatMode::Off,
    {
        RepeatMode::Off
    }
}

#[derive(Debug, PartialEq)]
pub struct CurrentTrack {
    pub track: Track,
    pub source: TrackSource,
}

impl View for CurrentTrack {
    type V = CurrentTrackView;

    open spec fn view(&self) -> CurrentTrackView {
        CurrentTrackView { track: self.track@, source: self.source }
    }
}

impl Clone for CurrentTrack {
    fn clone(&self) -> (r: Self)
        ensures
            r@ == self@,
    {
        CurrentTrack { track: self.track.clone(), source: self.source }
    }
}

#[derive(Clone, Debug, PartialEq)]
pub struct Queue {
    context: Vec<Track>,
    /// The play order, as indices into `context`.
    order: Vec<usize>,
    /// The position of the current context track inside `order`.
    cursor: Option<usize>,
    user_queue: VecDeque<Track>,
    manual_order: Option<Vec<UpcomingEntry>>,
    current: Option<CurrentTrack>,
    pub repeat: RepeatMode,
    pub shuffle: bool,
}

/// The view of an optional current track.
pub open spec fn current_view(c: Option<CurrentTrack>) -> Option<CurrentTrackView> {
    match c {
        Some(c) => Some(c@),
        None => None,
    }
}

/// The view of an optional track.
pub open spec fn opt_track(t: Option<Track>) -> Option<TrackView> {
    match t {
        Some(t) => Some(t@),
        None => None,
    }
}

impl View for Queue {
    type V = QueueView;

    closed spec fn view(&self) -> QueueView {
        QueueView {
            context: track_views(self.context@),
            order: self.order@,
            cursor: self.cursor,
            user_queue: track_views(self.user_queue@),
            manual_order: match self.manual_order {
                Some(m) => Some(m@),
                None => None,
            },
            current: current_view(self.current),
            repeat: self.repeat,
            shuffle: self.shuffle,
        }
    }
}

impl Default for Queue {
    fn default() -> (q: Self)
        ensures
            q@.wf(),
            q@.context.len() == 0,
            q@.order.len() == 0,
            q@.cursor is None,
            q@.user_queue.len() == 0,
            q@.manual_order is None,
            q@.current is None,
            q@.repeat == RepeatMode::Off,
            !q@.shuffle,
    {
        let q = Queue {
            context: Vec::new(),
            order: Vec::new(),
            cursor: None,
            user_queue: VecDeque::new(),
            manual_order: None,
            current: None,
            repeat: RepeatMode::Off,
            shuffle: false,
        };
        assert(q@.context =~= Seq::<TrackView>::empty());
        assert(q@.user_queue =~= Seq::<TrackView>::empty());
        q
    }
}

/// The position just after the last user entry of `order`, or 0.
fn after_last_user(order: &Vec<UpcomingEntry>) -> (at: usize)
    ensures
        at as int == last_user_pos(order@) + 1,
{
    let mut i: usize = order.len();
    while i > 0
        invariant
            i <= order.len(),
            forall|k: int| i <= k < order@.len() ==> #[trigger] order@[k] is Context,
        decreases i,
    {
        if let UpcomingEntry::User(_) = order[i - 1] {
            proof {
                lemma_last_user_pos(order@, i as int);
            }
            return i;
        }
        i = i - 1;
    }
    proof {
        lemma_last_user_pos(order@, 0);
    }
    0
}

/// Moves the element at `p` to position `at`, shifting `order[at..p]`
/// one step later.
fn rotate_right(order: &mut Vec<usize>, at: usize, p: usize)
    requires
        at <= p < old(order)@.len(),
    ensures
        final(order)@ == rotate_into(old(order)@, at as int, p as int),
{
    let ghost s = order@;
    let v = order[p];
    let mut k: usize = p;
    while k > at
        invariant
            at <= k <= p,
            p < s.len(),
            order@.len() == s.len(),
            v == s[p as int],
            forall|j: int| 0 <= j < s.len() && (j <= k || j > p) ==> #[trigger] order@[j] == s[j],
            forall|j: int| k < j <= p ==> #[trigger] order@[j] == s[j - 1],
        decreases k - at,
    {
        let prev = order[k - 1];
        order.set(k, prev);
        k = k - 1;
    }
    order.set(at, v);
    proof {
        lemma_rotate_into(s, at as int, p as int);
        assert(order@ =~= rotate_into(s, at as int, p as int));
    }
}

/// `s` with the elements at `i` and `j` exchanged.
pub open spec fn swapped(s: Seq<usize>, i: int, j: int) -> Seq<usize> {
    s.update(i, s[j]).update(j, s[i])
}

/// The swaps a Fisher-Yates shuffle of `s` has made after its first
/// `k` steps: step `m` (from 1) exchanges the element at `s.len() - m`
/// with the one at `draws[m - 1]`.
pub open spec fn shuffled(s: Seq<usize>, draws: Seq<usize>, k: nat) -> Seq<usize>
    decreases k,
{
    if k == 0 {
        s
    } else {
        swapped(shuffled(s, draws, (k - 1) as nat), s.len() - k, draws[k - 1] as int)
    }
}

/// The steps a Fisher-Yates shuffle of `n` elements takes: one for
/// each index from the last down to 1.
pub open spec fn shuffle_steps(n: nat) -> nat {
    if n == 0 {
        0
    } else {
        (n - 1) as nat
    }
}

/// The first `k` steps only read the first `k` draws.
proof fn lemma_shuffled_prefix(s: Seq<usize>, a: Seq<usize>, b: Seq<usize>, k: nat)
    requires
        k <= a.len(),
        k <= b.len(),
        a.take(k as int) == b.take(k as int),
    ensures
        shuffled(s, a, k) == shuffled(s, b, k),
    decreases k,
{
    if k > 0 {
        assert(a.take(k as int)[k - 1] == a[k - 1]);
        assert(b.take(k as int)[k - 1] == b[k - 1]);
        assert(a.take((k - 1) as int) =~= a.take(k as int).take((k - 1) as int));
        assert(b.take((k - 1) as int) =~= b.take(k as int).take((k - 1) as int));
        lemma_shuffled_prefix(s, a, b, (k - 1) as nat);
    }
}

/// The requests a shuffle of `len` elements makes of a source whose
/// record of bounds was `before` and is now `after`: `before` kept,
/// then the bounds `len`, `len - 1`, ..., 2, one for each step.
pub open spec fn shuffle_asks(before: Seq<usize>, after: Seq<usize>, len: nat) -> bool {
    &&& after.len() == before.len() + shuffle_steps(len)
    &&& after.take(before.len() as int) == before
    &&& forall|k: int| 0 <= k < shuffle_steps(len) ==> #[trigger] after[before.len() + k] == len - k
}

/// Shuffles `values` in place with the Fisher-Yates method: for each
/// index `i` from the last down to 1 it draws `j` in `0..=i` and
/// exchanges the elements at `i` and `j`.
fn fisher_yates<R: RandomBelow>(values: &mut Vec<usize>, random_below: &mut R)
    requires
        is_permutation_of_range(old(values)@, old(values)@.len()),
    ensures
        is_permutation_of_range(final(values)@, old(values)@.len()),
        final(random_below).draws().len() == old(random_below).draws().len() + shuffle_steps(
            old(values)@.len(),
        ),
        final(random_below).draws().take(old(random_below).draws().len() as int) == old(
            random_below,
        ).draws(),
        final(values)@ == shuffled(
            old(values)@,
            final(random_below).draws().skip(old(random_below).draws().len() as int),
            shuffle_steps(old(values)@.len()),
        ),
        forall|k: int|
            0 <= k < shuffle_steps(old(values)@.len()) ==> #[trigger] final(random_below).draws()[old(
                random_below,
            ).draws().len() + k] < old(values)@.len() - k,
        shuffle_asks(old(random_below).asked(), final(random_below).asked(), old(values)@.len()),
{
    let ghost s0 = values@;
    let ghost d0 = random_below.draws();
    let ghost a0 = random_below.asked();
    let n = values.len();
    if n == 0 {
        proof {
            assert(random_below.draws().take(d0.len() as int) =~= d0);
            assert(random_below.asked().take(a0.len() as int) =~= a0);
        }
        return;
    }
    let mut i: usize = n - 1;
    proof {
        assert(random_below.draws().take(d0.len() as int) =~= d0);
        assert(random_below.asked().take(a0.len() as int) =~= a0);
    }
    while i >= 1
        invariant
            n == values@.len(),
            n == s0.len(),
            i < n,
            is_permutation_of_range(values@, n as nat),
            random_below.draws().len() == d0.len() + (n - 1 - i),
            random_below.draws().take(d0.len() as int) == d0,
            values@ == shuffled(s0, random_below.draws().skip(d0.len() as int), (n - 1 - i) as nat),
            forall|k: int| 0 <= k < n - 1 - i ==> #[trigger] random_below.draws()[d0.len() + k] < n - k,
            random_below.asked().len() == a0.len() + (n - 1 - i),
            random_below.asked().take(a0.len() as int) == a0,
            forall|k: int| 0 <= k < n - 1 - i ==> #[trigger] random_below.asked()[a0.len() + k] == n - k,
        decreases i,
    {
        let ghost fresh = random_below.draws().skip(d0.len() as int);
        let j = random_below.random_below(i + 1);
        let a = values[i];
        let b = values[j];
        let ghost before = values@;
        values.set(i, b);
        values.set(j, a);
        proof {
            assert forall|x: int, y: int| 0 <= x < n && 0 <= y < n && x != y implies values@[x]
                != values@[y] by {
                let sx = if x == i { j as int } else if x == j { i as int } else { x };
                let sy = if y == i { j as int } else if y == j { i as int } else { y };
                assert(values@[x] == before[sx]);
                assert(values@[y] == before[sy]);
            }
            assert forall|k: int| 0 <= k < n implies #[trigger] values@[k] < n by {
                let sk = if k == i { j as int } else if k == j { i as int } else { k };
                assert(values@[k] == before[sk]);
            }
            assert(random_below.asked().take(a0.len() as int) =~= a0);
            let d = random_below.draws();
            let fresh2 = d.skip(d0.len() as int);
            let k: nat = (n - 1 - i) as nat;
            assert(d.take(d0.len() as int) =~= d0);
            assert(fresh2 =~= fresh.push(j));
            assert(fresh2.take(k as int) =~= fresh.take(k as int));
            lemma_shuffled_prefix(s0, fresh2, fresh, k);
            assert(fresh2[k as int] == j);
            assert(values@ =~= swapped(before, i as int, j as int));
            assert(shuffled(s0, fresh2, k + 1) == swapped(shuffled(s0, fresh2, k), s0.len() - (k
                + 1), fresh2[k as int] as int));
        }
        i = i - 1;
    }
}

/// Every index below `n` sits somewhere in an ordering of `0..n`.
proof fn lemma_permutation_contains(s: Seq<usize>, n: nat, v: usize)
    requires
        is_permutation_of_range(s, n),
        v < n,
        n <= usize::MAX,
    ensures
        s.contains(v),
{
    let set_s = s.to_set();
    let full = Set::new(|x: usize| x < n);
    assert(set_s.subset_of(full));
    s.unique_seq_to_set();
    lemma_range_set_len(n);
    if !set_s.contains(v) {
        assert(set_s.subset_of(full.remove(v)));
        vstd::set_lib::lemma_len_subset(set_s, full.remove(v));
    }
}

/// The set of indices below `n` has `n` elements.
proof fn lemma_range_set_len(n: nat)
    requires
        n <= usize::MAX,
    ensures
        Set::new(|x: usize| x < n).finite(),
        Set::new(|x: usize| x < n).len() == n,
    decreases n,
{
    if n == 0 {
        assert(Set::new(|x: usize| x < n) =~= Set::<usize>::empty());
    } else {
        lemma_range_set_len((n - 1) as nat);
        let smaller = Set::new(|x: usize| x < (n - 1) as nat);
        assert(Set::new(|x: usize| x < n) =~= smaller.insert((n - 1) as usize));
    }
}

/// `s` with its first `v` moved to the front, the elements before it
/// shifted one place on.
pub open spec fn to_front(s: Seq<usize>, v: usize) -> Seq<usize> {
    match first_pos(s, v) {
        Some(p) => rotate_into(s, 0, p),
        None => s,
    }
}

/// The shuffled play order of `len` tracks started at `start`: a
/// Fisher-Yates shuffle of `0..len` over `draws`, then `start` moved to
/// the front.
pub open spec fn shuffle_order(len: nat, start: usize, draws: Seq<usize>) -> Seq<usize> {
    to_front(shuffled(range_seq(0, len), draws, shuffle_steps(len)), start)
}

/// The draws a shuffle of `len` tracks takes from a source whose record
/// was `before` and is now `after`: `before` kept, then one draw below
/// `len - k` for each step `k`.
pub open spec fn shuffle_draws(before: Seq<usize>, after: Seq<usize>, len: nat) -> bool {
    &&& after.len() == before.len() + shuffle_steps(len)
    &&& after.take(before.len() as int) == before
    &&& forall|k: int| 0 <= k < shuffle_steps(len) ==> #[trigger] after[before.len() + k] < len - k
}

/// Moves `value` to the front of `order`.
fn move_to_front(order: &mut Vec<usize>, value: usize)
    requires
        is_permutation_of_range(old(order)@, old(order)@.len()),
        value < old(order)@.len(),
    ensures
        is_permutation_of_range(final(order)@, old(order)@.len()),
        final(order)@[0] == value,
        final(order)@ == to_front(old(order)@, value),
{
    let ghost s = order@;
    let len = order.len();
    proof {
        lemma_permutation_contains(s, s.len(), value);
    }
    let mut p: usize = 0;
    while p < order.len()
        invariant
            order@ == s,
            s == old(order)@,
            p <= s.len(),
            is_permutation_of_range(s, s.len()),
            s.contains(value),
            forall|k: int| 0 <= k < p ==> s[k] != value,
        decreases s.len() - p,
    {
        if order[p] == value {
            rotate_right(order, 0, p);
            proof {
                lemma_first_pos(s, value, p as int);
                lemma_rotate_into(s, 0, p as int);
                let r = order@;
                assert forall|k: int| 0 <= k < r.len() implies #[trigger] r[k] < s.len() by {
                    assert(r[k] == s[rotate_src(0, p as int, k)]);
                    assert(0 <= rotate_src(0, p as int, k) < s.len());
                }
                assert(r.no_duplicates());
                assert(r.len() == s.len());
                assert(r[0] == value);
            }
            return;
        }
        p = p + 1;
    }
}

/// The play order for a context of `len` tracks, and the cursor of the
/// `start` track inside it. Sequential order covers the whole context, so
/// Previous can reach the tracks before `start`. A shuffle puts `start`
/// first.
fn play_order<R: RandomBelow>(len: usize, start: usize, shuffle: bool, random_below: &mut R) -> (r: (
    Vec<usize>,
    usize,
))
    requires
        start < len,
    ensures
        !shuffle ==> r.0@ == range_seq(0, len as nat) && r.1 == start,
        shuffle ==> is_permutation_of_range(r.0@, len as nat) && r.0@[0] == start && r.1 == 0,
        !shuffle ==> final(random_below).draws() == old(random_below).draws(),
        !shuffle ==> final(random_below).asked() == old(random_below).asked(),
        shuffle ==> shuffle_draws(old(random_below).draws(), final(random_below).draws(), len as nat),
        shuffle ==> shuffle_asks(old(random_below).asked(), final(random_below).asked(), len as nat),
        shuffle ==> r.0@ == shuffle_order(
            len as nat,
            start,
            final(random_below).draws().skip(old(random_below).draws().len() as int),
        ),
{
    let mut order: Vec<usize> = Vec::new();
    let mut k: usize = 0;
    while k < len
        invariant
            k <= len,
            order@ =~= range_seq(0, k as nat),
        decreases len - k,
    {
        order.push(k);
        k = k + 1;
    }
    if !shuffle {
        return (order, start);
    }
    fisher_yates(&mut order, random_below);
    move_to_front(&mut order, start);
    (order, 0)
}

/// The position of the first occurrence of `v` in `s`.
fn first_position(s: &Vec<usize>, v: usize) -> (r: Option<usize>)
    ensures
        match r {
            Some(p) => first_pos(s@, v) == Some(p as int),
            None => first_pos(s@, v) is None,
        },
{
    let mut p: usize = 0;
    while p < s.len()
        invariant
            p <= s@.len(),
            forall|k: int| 0 <= k < p ==> s@[k] != v,
        decreases s@.len() - p,
    {
        if s[p] == v {
            proof {
                lemma_first_pos(s@, v, p as int);
            }
            return Some(p);
        }
        p = p + 1;
    }
    proof {
        lemma_first_pos_none(s@, v);
    }
    None
}

/// Every entry of `order` adjusted for the entry `removed` leaving its list.
fn adjust_entries(order: Vec<UpcomingEntry>, removed: UpcomingEntry) -> (r: Vec<UpcomingEntry>)
    ensures
        r@ == adjust_all(order@, removed),
{
    let mut out: Vec<UpcomingEntry> = Vec::new();
    let mut k: usize = 0;
    while k < order.len()
        invariant
            k <= order@.len(),
            out@ =~= adjust_all(order@.take(k as int), removed),
        decreases order@.len() - k,
    {
        let e = match (order[k], removed) {
            (UpcomingEntry::User(value), UpcomingEntry::User(i)) => if value > i {
                UpcomingEntry::User(value - 1)
            } else {
                order[k]
            },
            (UpcomingEntry::Context(value), UpcomingEntry::Context(i)) => if value > i {
                UpcomingEntry::Context(value - 1)
            } else {
                order[k]
            },
            _ => order[k],
        };
        out.push(e);
        k = k + 1;
    }
    proof {
        assert(order@.take(order@.len() as int) =~= order@);
    }
    out
}

/// The entries of `order` remapped through the user and context tables,
/// without those whose track left.
fn remap_manual_order(order: &Vec<UpcomingEntry>, user_map: &Vec<Option<usize>>, context_map: &Vec<Option<usize>>) -> (r: Vec<UpcomingEntry>)
    ensures
        r@ == order@.filter_map(|e: UpcomingEntry| remap_entry(e, user_map@, context_map@)),
{
    let ghost f = |e: UpcomingEntry| remap_entry(e, user_map@, context_map@);
    let mut out: Vec<UpcomingEntry> = Vec::new();
    let mut k: usize = 0;
    while k < order.len()
        invariant
            k <= order@.len(),
            f == (|e: UpcomingEntry| remap_entry(e, user_map@, context_map@)),
            out@ == order@.take(k as int).filter_map(f),
        decreases order@.len() - k,
    {
        proof {
            order@.lemma_filter_map_take_succ(f, k as int);
        }
        let mapped = match order[k] {
            UpcomingEntry::User(index) => if index < user_map.len() {
                match user_map[index] {
                    Some(j) => Some(UpcomingEntry::User(j)),
                    None => None,
                }
            } else {
                None
            },
            UpcomingEntry::Context(index) => if index < context_map.len() {
                match context_map[index] {
                    Some(j) => Some(UpcomingEntry::Context(j)),
                    None => None,
                }
            } else {
                None
            },
        };
        if let Some(e) = mapped {
            out.push(e);
        }
        proof {
            assert(out@ =~= order@.take(k + 1).filter_map(f));
        }
        k = k + 1;
    }
    proof {
        assert(order@.take(order@.len() as int) =~= order@);
    }
    out
}

/// Whether `retain_tracks` keeps `track`: the local tracks, or every
/// track but the local track `drop`.
fn keeps(track: &Track, drop: Option<&TrackId>) -> (r: bool)
    ensures
        r == local_keep(opt_id_ref(drop))(track@),
{
    match drop {
        None => track.is_local(),
        Some(id) => !track.is_local() || !track.id.same(id),
    }
}

/// The view of an optional id reference.
pub open spec fn opt_id_ref(id: Option<&TrackId>) -> Option<Seq<char>> {
    match id {
        Some(id) => Some(id@),
        None => None,
    }
}

/// Keeps the tracks of `tracks` that `keep` accepts, and records where
/// each one lands.
fn retain_vec(tracks: &Vec<Track>, drop: Option<&TrackId>) -> (r: (Vec<Track>, Vec<Option<usize>>))
    ensures
        track_views(r.0@) == track_views(tracks@).filter(local_keep(opt_id_ref(drop))),
        r.1@.len() == tracks@.len(),
        forall|j: int| 0 <= j < tracks@.len() ==> #[trigger] r.1@[j] == kept_index(
            track_views(tracks@),
            local_keep(opt_id_ref(drop)),
            j as usize,
        ),
{
    let ghost keep = local_keep(opt_id_ref(drop));
    let ghost views = track_views(tracks@);
    let mut kept: Vec<Track> = Vec::new();
    let mut map: Vec<Option<usize>> = Vec::new();
    let mut i: usize = 0;
    while i < tracks.len()
        invariant
            i <= tracks@.len(),
            keep == local_keep(opt_id_ref(drop)),
            views == track_views(tracks@),
            track_views(kept@) == views.take(i as int).filter(keep),
            kept@.len() == count_kept(views.take(i as int), keep),
            map@.len() == i,
            forall|j: int| 0 <= j < i ==> #[trigger] map@[j] == kept_index(views, keep, j as usize),
        decreases tracks@.len() - i,
    {
        proof {
            assert(views.take(i + 1) =~= views.take(i as int).push(views[i as int]));
            views.take(i as int).lemma_filter_push(views[i as int], keep);
            lemma_count_kept_step(views, keep, i as int);
        }
        if keeps(&tracks[i], drop) {
            map.push(Some(kept.len()));
            let c = tracks[i].clone();
            proof {
                lemma_track_views_push(kept@, c);
            }
            kept.push(c);
        } else {
            map.push(None);
        }
        i = i + 1;
    }
    proof {
        assert(views.take(views.len() as int) =~= views);
    }
    (kept, map)
}

/// Keeps the tracks of `tracks` that `keep` accepts, and records where
/// each one lands.
fn retain_deque(tracks: &VecDeque<Track>, drop: Option<&TrackId>) -> (r: (VecDeque<Track>, Vec<Option<usize>>))
    ensures
        track_views(r.0@) == track_views(tracks@).filter(local_keep(opt_id_ref(drop))),
        r.1@.len() == tracks@.len(),
        forall|j: int| 0 <= j < tracks@.len() ==> #[trigger] r.1@[j] == kept_index(
            track_views(tracks@),
            local_keep(opt_id_ref(drop)),
            j as usize,
        ),
{
    let ghost keep = local_keep(opt_id_ref(drop));
    let ghost views = track_views(tracks@);
    let mut kept: VecDeque<Track> = VecDeque::new();
    let mut map: Vec<Option<usize>> = Vec::new();
    let mut i: usize = 0;
    while i < tracks.len()
        invariant
            i <= tracks@.len(),
            keep == local_keep(opt_id_ref(drop)),
            views == track_views(tracks@),
            track_views(kept@) == views.take(i as int).filter(keep),
            kept@.len() == count_kept(views.take(i as int), keep),
            map@.len() == i,
            forall|j: int| 0 <= j < i ==> #[trigger] map@[j] == kept_index(views, keep, j as usize),
        decreases tracks@.len() - i,
    {
        proof {
            assert(views.take(i + 1) =~= views.take(i as int).push(views[i as int]));
            views.take(i as int).lemma_filter_push(views[i as int], keep);
            lemma_count_kept_step(views, keep, i as int);
        }
        if keeps(&tracks[i], drop) {
            map.push(Some(kept.len()));
            let c = tracks[i].clone();
            proof {
                lemma_track_views_push(kept@, c);
            }
            kept.push_back(c);
        } else {
            map.push(None);
        }
        i = i + 1;
    }
    proof {
        assert(views.take(views.len() as int) =~= views);
    }
    (kept, map)
}

/// Replaces every local track `id` of `v` by `replacement`, in place.
fn replace_vec_local(v: &mut Vec<Track>, id: &TrackId, replacement: &Track) -> (found: bool)
    ensures
        track_views(final(v)@) == track_views(old(v)@).map_values(
            |t: TrackView| replaced_local(t, id@, replacement@),
        ),
        found == exists|k: int| 0 <= k < old(v)@.len() && is_local_id(#[trigger] track_views(old(v)@)[k], id@),
{
    let ghost old_v = track_views(v@);
    let mut found = false;
    let mut i: usize = 0;
    while i < v.len()
        invariant
            i <= v.len(),
            v@.len() == old_v.len(),
            forall|k: int| 0 <= k < i ==> #[trigger] v@[k]@ == replaced_local(old_v[k], id@, replacement@),
            forall|k: int| i <= k < v@.len() ==> #[trigger] v@[k]@ == old_v[k],
            found == exists|k: int| 0 <= k < i && is_local_id(#[trigger] old_v[k], id@),
        decreases v.len() - i,
    {
        assert(v@[i as int]@ == old_v[i as int]);
        if v[i].is_local() && v[i].id.same(id) {
            v.set(i, replacement.clone());
            found = true;
        }
        i = i + 1;
    }
    assert(track_views(v@) =~= old_v.map_values(|t: TrackView| replaced_local(t, id@, replacement@)));
    found
}

/// Replaces every local track `id` of `q` by `replacement`, keeping their order.
fn replace_deque_local(q: &mut VecDeque<Track>, id: &TrackId, replacement: &Track) -> (found: bool)
    ensures
        track_views(final(q)@) == track_views(old(q)@).map_values(
            |t: TrackView| replaced_local(t, id@, replacement@),
        ),
        found == exists|k: int| 0 <= k < old(q)@.len() && is_local_id(#[trigger] track_views(old(q)@)[k], id@),
{
    let ghost old_q = track_views(q@);
    let n = q.len();
    let mut found = false;
    let mut i: usize = 0;
    while i < n
        invariant
            i <= n,
            n == old_q.len(),
            q@.len() == n,
            forall|k: int| 0 <= k < n - i ==> #[trigger] q@[k]@ == old_q[k + i],
            forall|k: int|
                n - i <= k < n ==> #[trigger] q@[k]@ == replaced_local(old_q[k - (n - i)], id@, replacement@),
            found == exists|k: int| 0 <= k < i && is_local_id(#[trigger] old_q[k], id@),
        decreases n - i,
    {
        let t = q.pop_front().unwrap();
        assert(t@ == old_q[i as int]);
        let t = if t.is_local() && t.id.same(id) {
            found = true;
            replacement.clone()
        } else {
            t
        };
        q.push_back(t);
        i = i + 1;
    }
    assert(track_views(q@) =~= old_q.map_values(|t: TrackView| replaced_local(t, id@, replacement@)));
    found
}

/// A track's duration update: set, or only filled when missing.
pub open spec fn dur_update(t: TrackView, id: Seq<char>, d: Span, only_missing: bool) -> TrackView {
    if only_missing {
        with_missing_duration(t, id, d)
    } else {
        with_duration(t, id, d)
    }
}

/// Applies a duration update to every track of `v`, in place.
fn update_vec_durations(v: &mut Vec<Track>, id: &TrackId, d: Span, only_missing: bool)
    ensures
        track_views(final(v)@) == track_views(old(v)@).map_values(
            |t: TrackView| dur_update(t, id@, d, only_missing),
        ),
{
    let ghost old_v = track_views(v@);
    let mut i: usize = 0;
    while i < v.len()
        invariant
            i <= v.len(),
            v@.len() == old_v.len(),
            forall|k: int| 0 <= k < i ==> #[trigger] v@[k]@ == dur_update(old_v[k], id@, d, only_missing),
            forall|k: int| i <= k < v@.len() ==> #[trigger] v@[k]@ == old_v[k],
        decreases v.len() - i,
    {
        let ghost before = v@;
        assert(before[i as int]@ == old_v[i as int]);
        if v[i].id.same(id) && (!only_missing || v[i].duration.is_none()) {
            v[i].duration = Some(d);
            assert(v@[i as int]@ == dur_update(old_v[i as int], id@, d, only_missing));
        }
        assert(v@[i as int]@ == dur_update(old_v[i as int], id@, d, only_missing));
        i = i + 1;
    }
    assert(track_views(v@) =~= old_v.map_values(|t: TrackView| dur_update(t, id@, d, only_missing)));
}

/// Applies a duration update to every track of `q`, keeping their order.
fn update_deque_durations(q: &mut VecDeque<Track>, id: &TrackId, d: Span, only_missing: bool)
    ensures
        track_views(final(q)@) == track_views(old(q)@).map_values(
            |t: TrackView| dur_update(t, id@, d, only_missing),
        ),
{
    let ghost old_q = track_views(q@);
    let n = q.len();
    let mut i: usize = 0;
    while i < n
        invariant
            i <= n,
            n == old_q.len(),
            q@.len() == n,
            forall|k: int| 0 <= k < n - i ==> #[trigger] q@[k]@ == old_q[k + i],
            forall|k: int|
                n - i <= k < n ==> #[trigger] q@[k]@ == dur_update(old_q[k - (n - i)], id@, d, only_missing),
        decreases n - i,
    {
        let mut t = q.pop_front().unwrap();
        assert(t@ == old_q[i as int]);
        if t.id.same(id) && (!only_missing || t.duration.is_none()) {
            t.duration = Some(d);
        }
        assert(t@ == dur_update(old_q[i as int], id@, d, only_missing));
        q.push_back(t);
        i = i + 1;
    }
    assert(track_views(q@) =~= old_q.map_values(|t: TrackView| dur_update(t, id@, d, only_missing)));
}

impl Queue {
    fn update_durations(&mut self, id: &TrackId, d: Span, only_missing: bool)
        ensures
            final(self)@ == (QueueView {
                context: old(self)@.context.map_values(
                    |t: TrackView| dur_update(t, id@, d, only_missing),
                ),
                user_queue: old(self)@.user_queue.map_values(
                    |t: TrackView| dur_update(t, id@, d, only_missing),
                ),
                current: match old(self)@.current {
                    Some(c) => Some(
                        CurrentTrackView { track: dur_update(c.track, id@, d, only_missing), ..c },
                    ),
                    None => None,
                },
                ..old(self)@
            }),
    {
        update_vec_durations(&mut self.context, id, d, only_missing);
        update_deque_durations(&mut self.user_queue, id, d, only_missing);
        if let Some(current) = &mut self.current {
            if current.track.id.same(id) && (!only_missing || current.track.duration.is_none()) {
                current.track.duration = Some(d);
            }
        }
    }

    /// Updates every queued occurrence without changing playback order.
    pub fn set_duration(&mut self, id: &TrackId, duration: Span)
        requires
            old(self)@.wf(),
        ensures
            final(self)@ == old(self)@.set_duration(id@, duration),
            final(self)@.wf(),
    {
        self.update_durations(id, duration, false);
        proof {
            let a = self@.context;
            let b = old(self)@.set_duration(id@, duration).context;
            assert(a =~= b);
            assert(self@.user_queue =~= old(self)@.set_duration(id@, duration).user_queue);
        }
    }

    /// Adds catalog metadata without replacing a duration measured by the decoder.
    pub fn fill_missing_duration(&mut self, id: &TrackId, duration: Span)
        requires
            old(self)@.wf(),
        ensures
            final(self)@ == old(self)@.fill_missing_duration(id@, duration),
            final(self)@.wf(),
    {
        self.update_durations(id, duration, true);
        proof {
            assert(self@.context =~= old(self)@.fill_missing_duration(id@, duration).context);
            assert(self@.user_queue =~= old(self)@.fill_missing_duration(id@, duration).user_queue);
        }
    }

    pub fn play_next(&mut self, track: Track)
        requires
            old(self)@.wf(),
            old(self)@.user_queue.len() < usize::MAX,
        ensures
            final(self)@ == old(self)@.play_next(track@),
            final(self)@.wf(),
    {
        let ghost q0 = self@;
        let manual = self.manual_order.take();
        match manual {
            Some(order) => {
                let ghost m = order@;
                let mut shifted: Vec<UpcomingEntry> = Vec::new();
                shifted.push(UpcomingEntry::User(0));
                let mut i: usize = 0;
                while i < order.len()
                    invariant
                        i <= order.len(),
                        m == order@,
                        forall|k: int| 0 <= k < m.len() ==> q0.valid_entry(#[trigger] m[k]),
                        q0.user_queue.len() < usize::MAX,
                        shifted@ =~= seq![UpcomingEntry::User(0)] + m.take(i as int).map_values(
                            |e| shift_user(e),
                        ),
                    decreases order.len() - i,
                {
                    let e = match order[i] {
                        UpcomingEntry::User(u) => {
                            assert(q0.valid_entry(m[i as int]));
                            UpcomingEntry::User(u + 1)
                        },
                        UpcomingEntry::Context(c) => UpcomingEntry::Context(c),
                    };
                    shifted.push(e);
                    assert(m.take(i + 1) =~= m.take(i as int).push(m[i as int]));
                    i = i + 1;
                }
                assert(m.take(m.len() as int) =~= m);
                self.manual_order = Some(shifted);
            },
            None => {},
        }
        self.user_queue.push_front(track);
        proof {
            let q1 = q0.play_next(track@);
            assert(self@.user_queue =~= q1.user_queue);
            lemma_play_next_wf(q0, track@);
        }
    }

    pub fn queue_track(&mut self, track: Track)
        requires
            old(self)@.wf(),
            old(self)@.user_queue.len() < usize::MAX,
        ensures
            final(self)@ == old(self)@.queue_track(track@),
            final(self)@.wf(),
    {
        let ghost q0 = self@;
        let n = self.user_queue.len();
        let manual = self.manual_order.take();
        match manual {
            Some(mut order) => {
                let ghost m = order@;
                let at = after_last_user(&order);
                proof {
                    lemma_last_user_pos_bounds(order@);
                }
                order.insert(at, UpcomingEntry::User(n));
                self.manual_order = Some(order);
            },
            None => {},
        }
        self.user_queue.push_back(track);
        proof {
            let q1 = q0.queue_track(track@);
            assert(self@.user_queue =~= q1.user_queue);
            lemma_queue_track_wf(q0, track@);
        }
    }

    /// Drops every explicitly queued track, leaving the context alone.
    pub fn clear_user_queue(&mut self)
        requires
            old(self)@.wf(),
        ensures
            final(self)@ == old(self)@.clear_user_queue(),
            final(self)@.wf(),
    {
        let ghost q0 = self@;
        self.user_queue.clear();
        let manual = self.manual_order.take();
        match manual {
            Some(order) => {
                let ghost m = order@;
                let ghost pred = context_pred();
                let mut kept: Vec<UpcomingEntry> = Vec::new();
                let mut i: usize = 0;
                while i < order.len()
                    invariant
                        i <= order.len(),
                        m == order@,
                        pred == context_pred(),
                        kept@ == m.take(i as int).filter(pred),
                    decreases order.len() - i,
                {
                    proof {
                        assert(m.take(i + 1) =~= m.take(i as int).push(m[i as int]));
                        m.take(i as int).lemma_filter_push(m[i as int], pred);
                    }
                    if let UpcomingEntry::Context(_) = order[i] {
                        kept.push(order[i]);
                        assert(pred(m[i as int]));
                    } else {
                        assert(!pred(m[i as int]));
                    }
                    assert(kept@ == m.take(i + 1).filter(pred));
                    i = i + 1;
                }
                assert(m.take(m.len() as int) =~= m);
                self.manual_order = Some(kept);
            },
            None => {},
        }
        proof {
            assert(self@.user_queue =~= Seq::<TrackView>::empty());
            lemma_clear_user_queue_wf(q0);
        }
    }

    /// Appends tracks to the end of the context and the play order.
    /// A radio result lands here, after the queue has emptied.
    ///
    /// The new tracks join in list order, also when shuffle is on. A
    /// radio result already comes back in a listenable order, so no
    /// extra shuffle step runs on top of it.
    pub fn extend_context(&mut self, tracks: Vec<Track>)
        requires
            old(self)@.wf(),
            old(self)@.context.len() + tracks@.len() <= usize::MAX,
        ensures
            final(self)@ == old(self)@.extend_context(track_views(tracks@)),
            final(self)@.wf(),
    {
        let ghost q0 = self@;
        let start = self.context.len();
        let n = tracks.len();
        let ghost new_indices = range_seq(start as int, n as nat);
        let manual = self.manual_order.take();
        match manual {
            Some(mut order) => {
                let ghost m = order@;
                let mut k: usize = 0;
                while k < n
                    invariant
                        k <= n,
                        start + n <= usize::MAX,
                        new_indices == range_seq(start as int, n as nat),
                        order@ =~= m + new_indices.take(k as int).map_values(
                            |v: usize| UpcomingEntry::Context(v),
                        ),
                    decreases n - k,
                {
                    order.push(UpcomingEntry::Context(start + k));
                    assert(new_indices.take(k + 1) =~= new_indices.take(k as int).push(new_indices[k as int]));
                    k = k + 1;
                }
                assert(new_indices.take(n as int) =~= new_indices);
                self.manual_order = Some(order);
            },
            None => {},
        }
        let mut order: Vec<usize> = Vec::new();
        std::mem::swap(&mut order, &mut self.order);
        let mut k: usize = 0;
        while k < n
            invariant
                k <= n,
                start + n <= usize::MAX,
                new_indices == range_seq(start as int, n as nat),
                order@ =~= q0.order + new_indices.take(k as int),
            decreases n - k,
        {
            order.push(start + k);
            assert(new_indices.take(k + 1) =~= new_indices.take(k as int).push(new_indices[k as int]));
            k = k + 1;
        }
        assert(new_indices.take(n as int) =~= new_indices);
        self.order = order;
        let ghost all = tracks@;
        let ghost q0_context = self.context@;
        let mut moving = tracks;
        self.context.append(&mut moving);
        proof {
            let q1 = q0.extend_context(track_views(all));
            assert(self.context@ == q0_context + all);
            lemma_track_views_add(q0_context, all);
            assert(track_views(self.context@) =~= q1.context);
            lemma_extend_context_wf(q0, track_views(all));
        }
    }

    fn entry_track(&self, entry: UpcomingEntry) -> (r: Option<&Track>)
        ensures
            match r {
                Some(t) => self@.entry_track(entry) == Some(t@),
                None => self@.entry_track(entry) is None,
            },
    {
        match entry {
            UpcomingEntry::User(i) => if i < self.user_queue.len() {
                Some(&self.user_queue[i])
            } else {
                None
            },
            UpcomingEntry::Context(i) => if i < self.context.len() {
                Some(&self.context[i])
            } else {
                None
            },
        }
    }

    /// The upcoming list as entries, the list that edits index into.
    fn entries(&self) -> (r: Vec<UpcomingEntry>)
        requires
            self@.wf(),
        ensures
            r@ == self@.entries(),
    {
        match &self.manual_order {
            Some(order) => order.clone(),
            None => {
                let mut out: Vec<UpcomingEntry> = Vec::new();
                let n = self.user_queue.len();
                let mut i: usize = 0;
                while i < n
                    invariant
                        i <= n,
                        n == self@.user_queue.len(),
                        out@ =~= Seq::new(i as nat, |k: int| UpcomingEntry::User(k as usize)),
                    decreases n - i,
                {
                    out.push(UpcomingEntry::User(i));
                    i = i + 1;
                }
                let ghost users = out@;
                let len = self.order.len();
                let start = match self.cursor {
                    Some(c) => {
                        assert(c < len);
                        c + 1
                    },
                    None => 0,
                };
                let mut k: usize = start;
                while k < self.order.len()
                    invariant
                        start <= k <= self.order.len(),
                        self@.rest() == self.order@.subrange(start as int, self.order@.len() as int),
                        out@ =~= users + self.order@.subrange(start as int, k as int).map_values(
                            |v: usize| UpcomingEntry::Context(v),
                        ),
                    decreases self.order.len() - k,
                {
                    out.push(UpcomingEntry::Context(self.order[k]));
                    k = k + 1;
                }
                out
            },
        }
    }

    /// The tracks that play after the current one: the user queue first,
    /// then the rest of the context in play order.
    pub fn upcoming(&self) -> (r: Vec<Track>)
        requires
            self@.wf(),
        ensures
            track_views(r@) == self@.upcoming(),
    {
        let mut out: Vec<Track> = Vec::new();
        match &self.manual_order {
            Some(order) => {
                let ghost m = order@;
                let ghost f = |e: UpcomingEntry| self@.entry_track(e);
                let mut i: usize = 0;
                while i < order.len()
                    invariant
                        i <= order.len(),
                        m == order@,
                        f == (|e: UpcomingEntry| self@.entry_track(e)),
                        track_views(out@) == m.take(i as int).filter_map(f),
                    decreases order.len() - i,
                {
                    proof {
                        m.lemma_filter_map_take_succ(f, i as int);
                    }
                    match self.entry_track(order[i]) {
                        Some(t) => {
                            let ghost before = out@;
                            let c = t.clone();
                            let ghost cc = c;
                            out.push(c);
                            proof {
                                lemma_track_views_add(before, seq![cc]);
                                assert(out@ =~= before + seq![cc]);
                            }
                        },
                        None => {},
                    }
                    i = i + 1;
                }
                proof {
                    assert(m.take(m.len() as int) =~= m);
                }
            },
            None => {
                let n = self.user_queue.len();
                let mut i: usize = 0;
                while i < n
                    invariant
                        i <= n,
                        n == self@.user_queue.len(),
                        track_views(out@) =~= self@.user_queue.take(i as int),
                    decreases n - i,
                {
                    let c = self.user_queue[i].clone();
                    proof {
                        lemma_track_views_push(out@, c);
                        assert(self@.user_queue.take(i + 1) =~= self@.user_queue.take(i as int).push(
                            c@,
                        ));
                    }
                    out.push(c);
                    i = i + 1;
                }
                let ghost users = out@;
                let len = self.order.len();
                let start = match self.cursor {
                    Some(c) => c + 1,
                    None => 0,
                };
                let ghost rest = self@.rest();
                let ghost f = |v: usize| self@.context_get(v);
                assert(rest =~= self.order@.subrange(start as int, self.order@.len() as int));
                let mut k: usize = start;
                while k < self.order.len()
                    invariant
                        start <= k <= self.order.len(),
                        rest == self.order@.subrange(start as int, self.order@.len() as int),
                        f == (|v: usize| self@.context_get(v)),
                        track_views(users) =~= self@.user_queue,
                        track_views(out@) == track_views(users) + rest.take(k - start).filter_map(f),
                    decreases self.order.len() - k,
                {
                    proof {
                        rest.lemma_filter_map_take_succ(f, k - start);
                        assert(rest[k - start] == self.order@[k as int]);
                    }
                    let v = self.order[k];
                    if v < self.context.len() {
                        let ghost before = out@;
                        let c = self.context[v].clone();
                        let ghost cc = c;
                        out.push(c);
                        proof {
                            lemma_track_views_add(before, seq![cc]);
                            assert(out@ =~= before + seq![cc]);
                        }
                    }
                    k = k + 1;
                }
                proof {
                    assert(rest.take(rest.len() as int) =~= rest);
                }
            },
        }
        out
    }

    /// The track that would play after the current one, without
    /// changing state. Mirrors `on_track_end` and `next`, so a caller
    /// can prefetch it. In repeat-one mode, the next track is the
    /// current track.
    pub fn peek_next(&self) -> (r: Option<Track>)
        requires
            self@.wf(),
        ensures
            opt_track(r) == self@.peek_next(),
    {
        if self.repeat == RepeatMode::One {
            return match &self.current {
                Some(current) => Some(current.track.clone()),
                None => None,
            };
        }
        if let Some(order) = &self.manual_order {
            if order.len() > 0 {
                return match self.entry_track(order[0]) {
                    Some(t) => Some(t.clone()),
                    None => None,
                };
            }
        }
        if self.user_queue.len() > 0 {
            return Some(self.user_queue[0].clone());
        }
        match self.advanced_cursor() {
            Some(c) => Some(self.context[self.order[c]].clone()),
            None => if self.cursor.is_none() && self.order.len() > 0 {
                Some(self.context[self.order[0]].clone())
            } else {
                None
            },
        }
    }

    fn advanced_cursor(&self) -> (r: Option<usize>)
        requires
            self@.wf(),
        ensures
            r == self@.advanced_cursor(),
            r matches Some(c) ==> c < self@.order.len(),
    {
        let len = self.order.len();
        let next = match self.cursor {
            Some(c) => c + 1,
            None => return None,
        };
        if next < self.order.len() {
            return Some(next);
        }
        if self.repeat == RepeatMode::All {
            Some(0)
        } else {
            None
        }
    }

    /// Replaces the context and starts playback at `start`.
    /// Returns the track to load, or `None` when `start` is out of range.
    pub fn play_context<R: RandomBelow>(&mut self, tracks: Vec<Track>, start: usize, random_below: &mut R) -> (r: Option<Track>)
        requires
            old(self)@.wf(),
        ensures
            final(self)@.wf(),
            start >= tracks@.len() ==> r is None && final(self)@ == old(self)@,
            start < tracks@.len() ==> {
                &&& opt_track(r) == Some(tracks@[start as int]@)
                &&& old(self)@.played_context(final(self)@, track_views(tracks@), start)
            },
            start >= tracks@.len() || !old(self)@.shuffle ==> final(random_below).draws() == old(
                random_below,
            ).draws() && final(random_below).asked() == old(random_below).asked(),
            start < tracks@.len() && old(self)@.shuffle ==> {
                &&& shuffle_draws(
                    old(random_below).draws(),
                    final(random_below).draws(),
                    tracks@.len(),
                )
                &&& shuffle_asks(old(random_below).asked(), final(random_below).asked(), tracks@.len())
                &&& final(self)@.order == shuffle_order(
                    tracks@.len(),
                    start,
                    final(random_below).draws().skip(old(random_below).draws().len() as int),
                )
            },
    {
        if start >= tracks.len() {
            return None;
        }
        let track = tracks[start].clone();
        let (order, cursor) = play_order(tracks.len(), start, self.shuffle, random_below);
        self.manual_order = None;
        self.order = order;
        self.context = tracks;
        self.cursor = Some(cursor);
        self.current = Some(CurrentTrack { track: track.clone(), source: TrackSource::Context });
        proof {
            lemma_range_seq_permutation(self.context@.len());
        }
        Some(track)
    }

    /// Turns shuffle on or off and reorders the tracks after the current one.
    pub fn set_shuffle<R: RandomBelow>(&mut self, on: bool, random_below: &mut R)
        requires
            old(self)@.wf(),
        ensures
            final(self)@.wf(),
            old(self)@.shuffled(final(self)@, on),
            old(self)@.cursor is None || !on ==> final(random_below).draws() == old(
                random_below,
            ).draws() && final(random_below).asked() == old(random_below).asked(),
            on ==> (old(self)@.cursor matches Some(c) ==> {
                &&& shuffle_draws(
                    old(random_below).draws(),
                    final(random_below).draws(),
                    old(self)@.context.len(),
                )
                &&& shuffle_asks(
                    old(random_below).asked(),
                    final(random_below).asked(),
                    old(self)@.context.len(),
                )
                &&& final(self)@.order == shuffle_order(
                    old(self)@.context.len(),
                    old(self)@.order[c as int],
                    final(random_below).draws().skip(old(random_below).draws().len() as int),
                )
            }),
    {
        self.manual_order = None;
        self.shuffle = on;
        let cursor = match self.cursor {
            Some(c) => c,
            None => return,
        };
        let current_index = self.order[cursor];
        let (order, new_cursor) = play_order(self.context.len(), current_index, on, random_below);
        self.order = order;
        self.cursor = Some(new_cursor);
        proof {
            lemma_range_seq_permutation(self.context@.len());
        }
    }

    /// Move selected upcoming occurrences before an insertion boundary in the
    /// original list. Keeps current playback, source identity and duplicates.
    pub fn move_upcoming(&mut self, selected: &[usize], before: usize)
        requires
            old(self)@.wf(),
        ensures
            final(self)@ == old(self)@.move_upcoming(selected@, before),
            final(self)@.wf(),
    {
        let ghost q0 = self@;
        let entries = self.entries();
        let ghost e = entries@;
        let ghost sel = q0.selection(selected@);
        let n = entries.len();
        let uq_len = self.user_queue.len();
        proof {
            lemma_move_upcoming_wf(q0, selected@, before);
        }
        if before > n {
            return;
        }
        let mut mask: Vec<bool> = Vec::new();
        let mut k: usize = 0;
        while k < n
            invariant
                k <= n,
                mask@.len() == k,
                forall|i: int| 0 <= i < k ==> !#[trigger] mask@[i],
            decreases n - k,
        {
            mask.push(false);
            k = k + 1;
        }
        let mut j: usize = 0;
        while j < selected.len()
            invariant
                j <= selected@.len(),
                mask@.len() == n,
                forall|i: int| 0 <= i < n ==> #[trigger] mask@[i] == selected@.take(j as int).contains(i as usize),
            decreases selected@.len() - j,
        {
            let i = selected[j];
            proof {
                assert(selected@.take(j + 1) =~= selected@.take(j as int).push(i));
            }
            let ghost old_mask = mask@;
            if i < n {
                mask.set(i, true);
            }
            proof {
                let s0 = selected@.take(j as int);
                let s1 = selected@.take(j + 1);
                assert forall|x: int| 0 <= x < n implies #[trigger] mask@[x] == s1.contains(x as usize) by {
                    if s1.contains(x as usize) {
                        let w = choose|w: int| 0 <= w < s1.len() && s1[w] == x as usize;
                        if w < j {
                            assert(s0[w] == x as usize);
                        }
                    }
                    if s0.contains(x as usize) {
                        let w = choose|w: int| 0 <= w < s0.len() && s0[w] == x as usize;
                        assert(s1[w] == x as usize);
                    }
                    if x == i {
                        assert(s1[j as int] == i);
                    }
                }
            }
            j = j + 1;
        }
        proof {
            assert(selected@.take(selected@.len() as int) =~= selected@);
            assert forall|i: int| 0 <= i < n implies #[trigger] mask@[i] == sel(i) by {}
        }
        let mut moving: Vec<UpcomingEntry> = Vec::new();
        let mut remaining: Vec<UpcomingEntry> = Vec::new();
        let mut i: usize = 0;
        while i < n
            invariant
                i <= n,
                n == e.len(),
                e == entries@,
                mask@.len() == n,
                sel == q0.selection(selected@),
                forall|x: int| 0 <= x < n ==> #[trigger] mask@[x] == sel(x),
                moving@ == picked(e.take(i as int), sel),
                remaining@ == picked(e.take(i as int), negate(sel)),
            decreases n - i,
        {
            proof {
                lemma_picked_step(e, sel, i as int);
                lemma_picked_step(e, negate(sel), i as int);
            }
            if mask[i] {
                moving.push(entries[i]);
            } else {
                remaining.push(entries[i]);
            }
            i = i + 1;
        }
        proof {
            lemma_picked_all(e, sel);
        }
        if moving.len() == 0 {
            return;
        }
        let mut count_before: usize = 0;
        let mut i: usize = 0;
        while i < before
            invariant
                i <= before <= n,
                n == e.len(),
                mask@.len() == n,
                forall|x: int| 0 <= x < n ==> #[trigger] mask@[x] == sel(x),
                count_before == picked(e.take(i as int), sel).len(),
                count_before <= i,
            decreases before - i,
        {
            proof {
                lemma_picked_step(e, sel, i as int);
            }
            if mask[i] {
                count_before = count_before + 1;
            }
            i = i + 1;
        }
        proof {
            lemma_move_target(e, sel, before as int);
        }
        let target = before - count_before;
        let mut out: Vec<UpcomingEntry> = Vec::new();
        let mut k: usize = 0;
        while k < target
            invariant
                k <= target <= remaining@.len(),
                out@ =~= remaining@.take(k as int),
            decreases target - k,
        {
            out.push(remaining[k]);
            k = k + 1;
        }
        let mut k: usize = 0;
        while k < moving.len()
            invariant
                k <= moving@.len(),
                target <= remaining@.len(),
                out@ =~= remaining@.take(target as int) + moving@.take(k as int),
            decreases moving@.len() - k,
        {
            out.push(moving[k]);
            k = k + 1;
        }
        let mut k: usize = target;
        while k < remaining.len()
            invariant
                target <= k <= remaining@.len(),
                out@ =~= remaining@.take(target as int) + moving@ + remaining@.subrange(target as int, k as int),
            decreases remaining@.len() - k,
        {
            out.push(remaining[k]);
            k = k + 1;
        }
        self.manual_order = Some(out);
        proof {
            assert(moving@.take(moving@.len() as int) =~= moving@);
            assert(remaining@.subrange(target as int, remaining@.len() as int) =~= remaining@.skip(target as int));
        }
    }

    /// Remove one upcoming occurrence without moving the current track.
    pub fn remove_upcoming(&mut self, index: usize)
        requires
            old(self)@.wf(),
        ensures
            final(self)@ == old(self)@.remove_upcoming(index),
            final(self)@.wf(),
    {
        let ghost q0 = self@;
        let uq_len = self.user_queue.len();
        proof {
            lemma_remove_upcoming_wf(q0, index);
            lemma_entries_wf(q0);
        }
        let entries = self.entries();
        if index >= entries.len() {
            return;
        }
        let entry = entries[index];
        proof {
            assert(q0.valid_entry(entry));
        }
        let manual = self.manual_order.take();
        let manual = match manual {
            Some(mut order) => {
                order.remove(index);
                Some(adjust_entries(order, entry))
            },
            None => None,
        };
        match entry {
            UpcomingEntry::User(i) => {
                let ghost uq = self.user_queue@;
                self.user_queue.remove(i);
                proof {
                    assert(track_views(self.user_queue@) =~= track_views(uq).remove(i as int));
                }
            },
            UpcomingEntry::Context(i) => {
                let ghost ord = self.order@;
                let mut order: Vec<usize> = Vec::new();
                let mut k: usize = 0;
                while k < self.order.len()
                    invariant
                        k <= self.order@.len(),
                        ord == self.order@,
                        order@ == ord.take(k as int).filter(ne_pred(i)).map_values(dec_above(i)),
                    decreases self.order@.len() - k,
                {
                    let v = self.order[k];
                    proof {
                        assert(ord.take(k + 1) =~= ord.take(k as int).push(v));
                        ord.take(k as int).lemma_filter_push(v, ne_pred(i));
                        ord.take(k as int).filter(ne_pred(i)).lemma_push_map_commute(dec_above(i), v);
                    }
                    if v != i {
                        if v > i {
                            order.push(v - 1);
                        } else {
                            order.push(v);
                        }
                    }
                    k = k + 1;
                }
                proof {
                    assert(ord.take(ord.len() as int) =~= ord);
                }
                self.order = order;
                let ghost ctx = self.context@;
                self.context.remove(i);
                proof {
                    assert(track_views(self.context@) =~= track_views(ctx).remove(i as int));
                }
            },
        }
        self.manual_order = manual;
    }

    /// The queue's lists fit the machine's index range, so every queue
    /// a caller holds meets the `bounded` premise of the laws.
    pub proof fn lemma_bounds(&self)
        ensures
            self@.bounded(),
    {
        broadcast use vstd::std_specs::vec::axiom_spec_len, vstd::std_specs::vecdeque::axiom_spec_len;

        assert(self.order.len() == self.order@.len());
        assert(self.context.len() == self.context@.len());
        assert(self.user_queue.len() == self.user_queue@.len());
    }

    /// Adjusts the manual order for the entry `removed` leaving its list.
    fn adjust_removed(&mut self, removed: UpcomingEntry)
        ensures
            final(self)@ == (QueueView {
                manual_order: match old(self)@.manual_order {
                    Some(m) => Some(adjust_all(m, removed)),
                    None => None,
                },
                ..old(self)@
            }),
    {
        if let Some(order) = self.manual_order.take() {
            self.manual_order = Some(adjust_entries(order, removed));
        }
    }

    fn take_manual_entry(&mut self, entry: UpcomingEntry) -> (r: Option<(Track, TrackSource)>)
        requires
            old(self)@.wf(),
        ensures
            ({
                let (q, taken) = old(self)@.take_manual(entry);
                &&& final(self)@ == q
                &&& match r {
                    Some((t, src)) => taken == Some((t@, src)),
                    None => taken is None,
                }
            }),
    {
        match entry {
            UpcomingEntry::User(i) => {
                let ghost uq = self.user_queue@;
                let track = match self.user_queue.remove(i) {
                    Some(t) => t,
                    None => return None,
                };
                proof {
                    assert(track_views(self.user_queue@) =~= track_views(uq).remove(i as int));
                }
                self.adjust_removed(entry);
                Some((track, TrackSource::UserQueue))
            },
            UpcomingEntry::Context(i) => {
                let len = self.order.len();
                let next = match self.cursor {
                    Some(c) => c + 1,
                    None => 0,
                };
                let p = match first_position(&self.order, i) {
                    Some(p) => p,
                    None => return None,
                };
                if p < next {
                    return None;
                }
                let mut order: Vec<usize> = Vec::new();
                std::mem::swap(&mut order, &mut self.order);
                rotate_right(&mut order, next, p);
                self.order = order;
                self.cursor = Some(next);
                if i < self.context.len() {
                    Some((self.context[i].clone(), TrackSource::Context))
                } else {
                    None
                }
            },
        }
    }

    /// An explicit skip. Returns the track to load, or `None` when the
    /// queue is exhausted and playback stops.
    pub fn next(&mut self) -> (r: Option<Track>)
        requires
            old(self)@.wf(),
        ensures
            final(self)@ == old(self)@.next().0,
            opt_track(r) == old(self)@.next().1,
            final(self)@.wf(),
    {
        let ghost q0 = self@;
        proof {
            lemma_next_wf(q0);
        }
        let head = match &mut self.manual_order {
            Some(order) => if order.len() > 0 {
                Some(order.remove(0))
            } else {
                None
            },
            None => None,
        };
        if let Some(entry) = head {
            proof {
                let m = q0.manual_order.unwrap();
                assert(self@.manual_order == Some(m.drop_first())) by {
                    assert(self.manual_order.unwrap()@ =~= m.drop_first());
                }
            }
            let (track, source) = match self.take_manual_entry(entry) {
                Some(taken) => taken,
                None => return None,
            };
            self.current = Some(CurrentTrack { track: track.clone(), source });
            return Some(track);
        }
        self.manual_order = None;
        let ghost uq = self.user_queue@;
        if let Some(track) = self.user_queue.pop_front() {
            proof {
                assert(track_views(self.user_queue@) =~= track_views(uq).drop_first());
            }
            self.current = Some(CurrentTrack { track: track.clone(), source: TrackSource::UserQueue });
            return Some(track);
        }
        let cursor = match self.advanced_cursor() {
            Some(c) => c,
            None => if self.cursor.is_none() && self.order.len() > 0 {
                0
            } else {
                return None;
            },
        };
        self.cursor = Some(cursor);
        let track = self.context[self.order[cursor]].clone();
        self.current = Some(CurrentTrack { track: track.clone(), source: TrackSource::Context });
        Some(track)
    }

    /// The track end signal. Returns the track to load next, or `None`
    /// when playback stops.
    pub fn on_track_end(&mut self) -> (r: Option<Track>)
        requires
            old(self)@.wf(),
        ensures
            final(self)@ == old(self)@.on_track_end().0,
            opt_track(r) == old(self)@.on_track_end().1,
            final(self)@.wf(),
    {
        if self.repeat == RepeatMode::One {
            return match &self.current {
                Some(current) => Some(current.track.clone()),
                None => None,
            };
        }
        self.next()
    }

    /// Moves to the previous context track. Returns the track to load,
    /// or `None` when there is no current track.
    pub fn previous(&mut self) -> (r: Option<Track>)
        requires
            old(self)@.wf(),
        ensures
            final(self)@ == old(self)@.previous().0,
            opt_track(r) == old(self)@.previous().1,
            final(self)@.wf(),
    {
        let ghost q0 = self@;
        proof {
            lemma_previous_wf(q0);
        }
        let cursor = match self.cursor {
            Some(c) => c,
            None => return None,
        };
        let len = self.order.len();
        let previous = self.previous_cursor(cursor);
        if previous > cursor {
            self.manual_order = None;
        } else if let Some(order) = self.manual_order.take() {
            let mut replay: Vec<UpcomingEntry> = Vec::new();
            let mut k: usize = previous + 1;
            let end = cursor + 1;
            while k < end
                invariant
                    end == cursor + 1,
                    previous + 1 <= k <= cursor + 1,
                    cursor < self.order@.len(),
                    replay@ =~= self.order@.subrange(previous + 1, k as int).map_values(
                        |v: usize| UpcomingEntry::Context(v),
                    ),
                decreases end - k,
            {
                replay.push(UpcomingEntry::Context(self.order[k]));
                k = k + 1;
            }
            let mut j: usize = 0;
            let ghost r0 = replay@;
            while j < order.len()
                invariant
                    j <= order@.len(),
                    replay@ =~= r0 + order@.take(j as int),
                decreases order@.len() - j,
            {
                replay.push(order[j]);
                j = j + 1;
            }
            proof {
                assert(order@.take(order@.len() as int) =~= order@);
            }
            self.manual_order = Some(replay);
        }
        self.cursor = Some(previous);
        let track = self.context[self.order[previous]].clone();
        self.current = Some(CurrentTrack { track: track.clone(), source: TrackSource::Context });
        Some(track)
    }

    fn previous_cursor(&self, cursor: usize) -> (r: usize)
        requires
            self@.wf(),
            cursor < self@.order.len(),
        ensures
            r == self@.previous_cursor(cursor),
            r < self@.order.len(),
    {
        if cursor > 0 {
            return cursor - 1;
        }
        match self.repeat {
            RepeatMode::All => if self.order.len() > 0 {
                self.order.len() - 1
            } else {
                0
            },
            _ => 0,
        }
    }

    /// Jumps straight to the track at `index` in [`Self::upcoming`],
    /// as if `next` had run enough times to reach it, skipping the
    /// tracks in between without playing them. Returns the track to
    /// load, or `None` when `index` is out of range.
    pub fn jump_to(&mut self, index: usize) -> (r: Option<Track>)
        requires
            old(self)@.wf(),
        ensures
            final(self)@ == old(self)@.jump_to(index).0,
            opt_track(r) == old(self)@.jump_to(index).1,
            final(self)@.wf(),
    {
        let ghost q0 = self@;
        proof {
            self.lemma_bounds();
        }
        let count = self.upcoming().len();
        if index >= count {
            return None;
        }
        proof {
            lemma_jump_steps(q0, (index + 1) as nat);
        }
        let mut track: Option<Track> = None;
        let mut k: usize = 0;
        while k <= index
            invariant
                k <= index + 1,
                index < count,
                count == q0.upcoming().len(),
                q0.wf(),
                q0.bounded(),
                self@ == q0.next_times(k as nat).0,
                k > 0 ==> opt_track(track) == q0.next_times(k as nat).1,
            decreases index + 1 - k,
        {
            proof {
                lemma_jump_steps(q0, k as nat);
                lemma_next_upcoming(self@);
            }
            track = self.next();
            k = k + 1;
        }
        track
    }

    pub fn replace_local(&mut self, id: &TrackId, replacement: Track) -> (replaced: bool)
        requires
            old(self)@.wf(),
        ensures
            final(self)@ == old(self)@.replace_local(id@, replacement@),
            replaced == (replacement@.is_local() && old(self)@.holds_local(id@)),
            final(self)@.wf(),
    {
        if !replacement.is_local() {
            return false;
        }
        let ghost q0 = self@;
        let a = replace_vec_local(&mut self.context, id, &replacement);
        let b = replace_deque_local(&mut self.user_queue, id, &replacement);
        let mut c = false;
        if let Some(current) = &mut self.current {
            if current.track.is_local() && current.track.id.same(id) {
                current.track = replacement.clone();
                c = true;
            }
        }
        proof {
            let q1 = q0.replace_local(id@, replacement@);
            assert(self@.context =~= q1.context);
            assert(self@.user_queue =~= q1.user_queue);
        }
        a || b || c
    }

    pub fn retain_local(&mut self)
        requires
            old(self)@.wf(),
        ensures
            final(self)@ == old(self)@.retain(local_keep(None)),
            final(self)@.wf(),
    {
        self.retain_tracks(None);
    }

    pub fn remove_local(&mut self, id: &TrackId) -> (had_match: bool)
        requires
            old(self)@.wf(),
        ensures
            final(self)@ == old(self)@.retain(local_keep(Some(id@))),
            had_match == old(self)@.holds_local(id@),
            final(self)@.wf(),
    {
        let ghost q0 = self@;
        let mut had_match = false;
        let mut i: usize = 0;
        while i < self.context.len()
            invariant
                i <= self.context@.len(),
                q0 == self@,
                had_match == exists|k: int| 0 <= k < i && is_local_id(#[trigger] q0.context[k], id@),
            decreases self.context@.len() - i,
        {
            assert(q0.context[i as int] == self.context@[i as int]@);
            if self.context[i].is_local() && self.context[i].id.same(id) {
                had_match = true;
            }
            i = i + 1;
        }
        let mut i: usize = 0;
        while i < self.user_queue.len()
            invariant
                i <= self.user_queue@.len(),
                q0 == self@,
                had_match == ((exists|k: int| 0 <= k < q0.context.len() && is_local_id(#[trigger] q0.context[k], id@))
                    || exists|k: int| 0 <= k < i && is_local_id(#[trigger] q0.user_queue[k], id@)),
            decreases self.user_queue@.len() - i,
        {
            assert(q0.user_queue[i as int] == self.user_queue@[i as int]@);
            if self.user_queue[i].is_local() && self.user_queue[i].id.same(id) {
                had_match = true;
            }
            i = i + 1;
        }
        let current_match = match &self.current {
            Some(current) => current.track.is_local() && current.track.id.same(id),
            None => false,
        };
        proof {
            assert(current_match == (q0.current matches Some(c) && is_local_id(c.track, id@)));
        }
        let had_match = had_match || current_match;
        proof {
            assert(had_match == q0.holds_local(id@));
        }
        self.retain_tracks(Some(id));
        had_match
    }

    fn retain_tracks(&mut self, drop: Option<&TrackId>)
        requires
            old(self)@.wf(),
        ensures
            final(self)@ == old(self)@.retain(local_keep(opt_id_ref(drop))),
            final(self)@.wf(),
    {
        let ghost q0 = self@;
        let ghost keep = local_keep(opt_id_ref(drop));
        proof {
            self.lemma_bounds();
            lemma_retain_wf(q0, keep);
        }
        let (new_context, context_map) = retain_vec(&self.context, drop);
        let ghost cm = |i: usize| kept_index(q0.context, keep, i);
        let mut new_order: Vec<usize> = Vec::new();
        let mut k: usize = 0;
        while k < self.order.len()
            invariant
                k <= self.order@.len(),
                q0 == self@,
                keep == local_keep(opt_id_ref(drop)),
                cm == (|i: usize| kept_index(q0.context, keep, i)),
                context_map@.len() == q0.context.len(),
                forall|j: int| 0 <= j < q0.context.len() ==> #[trigger] context_map@[j] == kept_index(
                    q0.context,
                    keep,
                    j as usize,
                ),
                new_order@ == q0.order.take(k as int).filter_map(cm),
            decreases self.order@.len() - k,
        {
            let v = self.order[k];
            proof {
                q0.order.lemma_filter_map_take_succ(cm, k as int);
            }
            if v < context_map.len() {
                if let Some(j) = context_map[v] {
                    new_order.push(j);
                }
            }
            proof {
                assert(new_order@ =~= q0.order.take(k + 1).filter_map(cm));
            }
            k = k + 1;
        }
        proof {
            assert(q0.order.take(q0.order.len() as int) =~= q0.order);
        }
        let new_cursor = match self.cursor {
            None => None,
            Some(cursor) => {
                let mut before: usize = 0;
                let mut k: usize = 0;
                while k < cursor
                    invariant
                        k <= cursor < self.order@.len(),
                        q0 == self@,
                        keep == local_keep(opt_id_ref(drop)),
                        cm == (|i: usize| kept_index(q0.context, keep, i)),
                        context_map@.len() == q0.context.len(),
                        forall|j: int| 0 <= j < q0.context.len() ==> #[trigger] context_map@[j] == kept_index(
                            q0.context,
                            keep,
                            j as usize,
                        ),
                        before == q0.order.take(k as int).filter_map(cm).len(),
                        before <= k,
                    decreases cursor - k,
                {
                    let v = self.order[k];
                    proof {
                        q0.order.lemma_filter_map_take_succ(cm, k as int);
                    }
                    if v < context_map.len() {
                        if context_map[v].is_some() {
                            before = before + 1;
                        }
                    }
                    k = k + 1;
                }
                let kept_current = cursor < self.order.len() && {
                    let v = self.order[cursor];
                    v < context_map.len() && context_map[v].is_some()
                };
                if kept_current {
                    Some(before)
                } else if before > 0 {
                    Some(before - 1)
                } else {
                    None
                }
            },
        };
        let (new_user, user_map) = retain_deque(&self.user_queue, drop);
        let new_manual = match &self.manual_order {
            Some(order) => {
                let remapped = remap_manual_order(order, &user_map, &context_map);
                proof {
                    let f1 = |e: UpcomingEntry| remap_entry(e, user_map@, context_map@);
                    let f2 = |e: UpcomingEntry| q0.kept_entry(keep, e);
                    assert(f1 =~= f2);
                }
                Some(remapped)
            },
            None => None,
        };
        let drop_current = match &self.current {
            Some(current) => !keeps(&current.track, drop),
            None => false,
        };
        self.context = new_context;
        self.order = new_order;
        self.cursor = new_cursor;
        self.user_queue = new_user;
        self.manual_order = new_manual;
        if drop_current {
            self.current = None;
        }
    }

    /// Sets the repeat mode.
    pub fn set_repeat(&mut self, mode: RepeatMode)
        requires
            old(self)@.wf(),
        ensures
            final(self)@ == (QueueView { repeat: mode, ..old(self)@ }),
            final(self)@.wf(),
    {
        self.repeat = mode;
    }

    /// The repeat mode.
    pub fn repeat_mode(&self) -> (r: RepeatMode)
        ensures
            r == self@.repeat,
    {
        self.repeat
    }

    /// Whether shuffle is on.
    pub fn shuffle_on(&self) -> (r: bool)
        ensures
            r == self@.shuffle,
    {
        self.shuffle
    }

    pub fn current(&self) -> (r: Option<&Track>)
        ensures
            r matches Some(t) ==> self@.current_track() == Some(t@),
            r is None <==> self@.current_track() is None,
    {
        match &self.current {
            Some(current) => Some(&current.track),
            None => None,
        }
    }

    /// True when a track with this id already sits in the context.
    pub fn contains(&self, id: &TrackId) -> (r: bool)
        ensures
            r == self@.contains(id@),
    {
        let mut i: usize = 0;
        while i < self.context.len()
            invariant
                i <= self.context.len(),
                forall|k: int| 0 <= k < i ==> self.context@[k]@.id != id@,
            decreases self.context.len() - i,
        {
            if self.context[i].id.same(id) {
                assert(self@.context[i as int].id == id@);
                return true;
            }
            i = i + 1;
        }
        assert forall|k: int| 0 <= k < self@.context.len() implies #[trigger] self@.context[k].id
            != id@ by {
            assert(self.context@[k]@.id != id@);
        }
        false
    }
}

} // verus!
