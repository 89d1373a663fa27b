//! The promises the queue keeps across its operations, proved over
//! the model that the operations' contracts speak of.
use vstd::prelude::*;

use crate::model::TrackView;
use crate::queue_view::{
    lemma_entries_wf, lemma_filter_map_len, lemma_first_pos, lemma_next_upcoming, lemma_next_wf,
    lemma_picked_partition, lemma_upcoming_len, local_keep, is_local_id, negate, picked,
    CurrentTrackView, QueueView, RepeatMode, TrackSource, UpcomingEntry,
};
use crate::seq_facts::{
    lemma_filter_map_add, lemma_filter_map_all, lemma_filter_map_index, lemma_filter_map_map_values,
    lemma_filter_map_remove, lemma_picked_map,
};
use crate::queue_view::{adjust_all, adjust_entry, dec_above, lemma_filter_unique, ne_pred};
use crate::queue_view::shift_user;
use crate::queue_view::kept_index;

verus! {

/// The user queue plays before the context advances: with no manual
/// order pending, a skip takes the first queued track and leaves the
/// context and its position alone.
pub proof fn law_user_queue_plays_first(q: QueueView)
    requires
        q.wf(),
        q.manual_empty(),
        q.user_queue.len() > 0,
    ensures
        q.next().1 == Some(q.user_queue[0]),
        q.next().0.context == q.context,
        q.next().0.order == q.order,
        q.next().0.cursor == q.cursor,
        q.next().0.user_queue == q.user_queue.drop_first(),
        q.next().0.current == Some(CurrentTrackView { track: q.user_queue[0], source: TrackSource::UserQueue }),
{
}

/// Queued tracks never enter the context.
pub proof fn law_queued_tracks_stay_out_of_context(q: QueueView, t: TrackView)
    ensures
        q.queue_track(t).context == q.context,
        q.queue_track(t).order == q.order,
        q.queue_track(t).user_queue == q.user_queue.push(t),
        q.play_next(t).context == q.context,
        q.play_next(t).order == q.order,
        q.play_next(t).user_queue == seq![t] + q.user_queue,
{
}

/// Shuffle reorders only the tracks after the current one: the current
/// context track stays current, shuffling puts it first, and the new
/// order holds every context track once.
pub proof fn law_shuffle_keeps_current_first(q: QueueView, new: QueueView, on: bool)
    requires
        q.wf(),
        q.shuffled(new, on),
        q.cursor is Some,
    ensures
        new.cursor is Some,
        new.order[new.cursor->0 as int] == q.order[q.cursor->0 as int],
        new.current == q.current,
        on ==> new.cursor == Some(0usize),
        on ==> crate::queue_view::is_permutation_of_range(new.order, q.context.len()),
{
}

/// An explicit Next always skips, also in repeat-one mode: it does
/// exactly what it does in repeat-off mode.
pub proof fn law_next_skips_in_repeat_one(q: QueueView)
    requires
        q.repeat == RepeatMode::One,
    ensures
        q.next().1 == (QueueView { repeat: RepeatMode::Off, ..q }).next().1,
        q.next().0 == (QueueView { repeat: RepeatMode::One, ..(QueueView { repeat: RepeatMode::Off, ..q }).next().0 }),
{
}

/// A track end honors repeat-one: it replays the current track and
/// changes nothing.
pub proof fn law_track_end_replays_in_repeat_one(q: QueueView)
    requires
        q.repeat == RepeatMode::One,
    ensures
        q.on_track_end() == (q, q.current_track()),
{
}

/// When the context ends in repeat-off mode, a track end returns no
/// track and the current track stays visible.
pub proof fn law_context_end_stops_in_repeat_off(q: QueueView)
    requires
        q.wf(),
        q.repeat == RepeatMode::Off,
        q.manual_empty(),
        q.user_queue.len() == 0,
        q.cursor matches Some(c) && c + 1 == q.order.len(),
    ensures
        q.on_track_end().1 is None,
        q.on_track_end().0.current == q.current,
        q.on_track_end().0.cursor == q.cursor,
{
}

/// The prefetch guess matches what a track end then loads, on every
/// well-formed queue.
pub proof fn law_peek_next_mirrors_track_end(q: QueueView)
    requires
        q.wf(),
    ensures
        q.peek_next() == q.on_track_end().1,
{
    if q.repeat != RepeatMode::One {
        if !q.manual_empty() {
            let m = q.manual_order->0;
            let entry = m[0];
            assert(q.valid_entry(entry));
            if let UpcomingEntry::Context(i) = entry {
                let p = choose|p: int| 0 <= p < q.order.len() && q.order[p] == i;
                if let Some(c) = q.cursor {
                    if p <= c {
                        assert(q.order[p] != i);
                    }
                }
                assert forall|k: int| 0 <= k < p implies q.order[k] != i by {
                    assert(q.order[k] != q.order[p]);
                }
                lemma_first_pos(q.order, i, p);
                let next = match q.cursor {
                    Some(c) => c + 1,
                    None => 0,
                };
                crate::queue_view::lemma_rotate_into(q.order, next, p);
            }
        }
    }
}

/// Moving upcoming entries keeps the current track, the context, the
/// user queue and every upcoming entry, duplicates and sources included:
/// only their order changes.
pub proof fn law_move_upcoming_keeps_entries(q: QueueView, selected: Seq<usize>, before: usize)
    requires
        q.wf(),
    ensures
        q.move_upcoming(selected, before).current == q.current,
        q.move_upcoming(selected, before).context == q.context,
        q.move_upcoming(selected, before).order == q.order,
        q.move_upcoming(selected, before).cursor == q.cursor,
        q.move_upcoming(selected, before).user_queue == q.user_queue,
        q.move_upcoming(selected, before).entries().to_multiset() == q.entries().to_multiset(),
{
    broadcast use vstd::seq_lib::group_to_multiset_ensures, vstd::multiset::group_multiset_axioms;

    let e = q.entries();
    let sel = q.selection(selected);
    let moving = picked(e, sel);
    if !(before > e.len() || moving.len() == 0) {
        let target = before - picked(e.take(before as int), sel).len();
        let remaining = picked(e, negate(sel));
        crate::queue_view::lemma_move_target(e, sel, before as int);
        lemma_picked_partition(e, sel);
        vstd::seq_lib::lemma_multiset_commutative(remaining.take(target), moving);
        vstd::seq_lib::lemma_multiset_commutative(remaining.take(target) + moving, remaining.skip(target));
        vstd::seq_lib::lemma_multiset_commutative(remaining.take(target), remaining.skip(target));
        assert(remaining.take(target) + remaining.skip(target) =~= remaining);
    }
}

/// Removing an upcoming entry never moves the current track.
pub proof fn law_remove_upcoming_keeps_current(q: QueueView, index: usize)
    ensures
        q.remove_upcoming(index).current == q.current,
        q.remove_upcoming(index).cursor == q.cursor,
{
}

/// The `k`-th element of a `filter_map` that keeps everything is the
/// image of the `k`-th element.
proof fn lemma_filter_map_all_index<A, B>(s: Seq<A>, f: spec_fn(A) -> Option<B>, k: int)
    requires
        forall|j: int| 0 <= j < s.len() ==> (#[trigger] f(s[j])) is Some,
        0 <= k < s.len(),
    ensures
        s.filter_map(f)[k] == f(s[k])->0,
{
    assert forall|j: int| 0 <= j < s.take(k).len() implies (#[trigger] f(s.take(k)[j])) is Some by {
        assert(s.take(k)[j] == s[j]);
    }
    lemma_filter_map_len(s.take(k), f);
    lemma_filter_map_index(s, f, k);
}

/// A skip plays the first upcoming track and leaves the rest upcoming.
/// `Queue::lemma_bounds` gives the `bounded` premise for every queue.
pub proof fn law_next_plays_first_upcoming(q: QueueView)
    requires
        q.wf(),
        q.bounded(),
        q.upcoming().len() > 0,
    ensures
        q.next().1 == Some(q.upcoming()[0]),
        q.next().0.upcoming() =~= q.upcoming().drop_first(),
{
    lemma_next_upcoming(q);
    lemma_upcoming_len(q);
    let q2 = q.next().0;
    lemma_upcoming_len(q2);
    let up = q.upcoming();
    let up2 = q2.upcoming();
    match q.manual_order {
        Some(m) => {
            let f = |e: UpcomingEntry| q.entry_track(e);
            assert forall|j: int| 0 <= j < m.len() implies (#[trigger] f(m[j])) is Some by {
                assert(q.valid_entry(m[j]));
            }
            lemma_filter_map_all_index(m, f, 0);
            let m2 = q2.manual_order->0;
            let f2 = |e: UpcomingEntry| q2.entry_track(e);
            assert forall|j: int| 0 <= j < m2.len() implies (#[trigger] f2(m2[j])) is Some by {
                assert(q2.valid_entry(m2[j]));
            }
            let entry = m[0];
            assert(q.valid_entry(entry));
            match entry {
                UpcomingEntry::User(i) => {
                    assert(m2 == crate::queue_view::adjust_all(m.drop_first(), entry));
                    assert forall|k: int| 0 <= k < up2.len() implies #[trigger] up2[k] == up[k + 1] by {
                        lemma_filter_map_all_index(m2, f2, k);
                        lemma_filter_map_all_index(m, f, k + 1);
                        assert(m[k + 1] != m[0]);
                        assert(q.valid_entry(m[k + 1]));
                    }
                },
                UpcomingEntry::Context(i) => {
                    let p = choose|p: int| 0 <= p < q.order.len() && q.order[p] == i;
                    if let Some(c) = q.cursor {
                        if p <= c {
                            assert(q.order[p] != i);
                        }
                    }
                    assert forall|k: int| 0 <= k < p implies q.order[k] != i by {
                        assert(q.order[k] != q.order[p]);
                    }
                    lemma_first_pos(q.order, i, p);
                    assert(m2 == m.drop_first());
                    assert forall|k: int| 0 <= k < up2.len() implies #[trigger] up2[k] == up[k + 1] by {
                        lemma_filter_map_all_index(m2, f2, k);
                        lemma_filter_map_all_index(m, f, k + 1);
                    }
                },
            }
        },
        None => {
            let r = q.rest();
            let g = |i: usize| q.context_get(i);
            assert forall|j: int| 0 <= j < r.len() implies (#[trigger] g(r[j])) is Some by {
                match q.cursor {
                    Some(c) => assert(r[j] == q.order[c + 1 + j]),
                    None => {},
                }
            }
            let r2 = q2.rest();
            let g2 = |i: usize| q2.context_get(i);
            assert forall|j: int| 0 <= j < r2.len() implies (#[trigger] g2(r2[j])) is Some by {
                match q2.cursor {
                    Some(c) => assert(r2[j] == q2.order[c + 1 + j]),
                    None => {},
                }
            }
            if q.user_queue.len() > 0 {
                assert(q2.rest() == r);
                assert(g2 =~= g);
                assert(up2 == q2.user_queue + r.filter_map(g));
                assert forall|k: int| 0 <= k < up2.len() implies #[trigger] up2[k] == up[k + 1] by {
                    if k + 1 >= q.user_queue.len() {
                        lemma_filter_map_all_index(r, g, k + 1 - q.user_queue.len());
                    }
                }
            } else {
                lemma_filter_map_all_index(r, g, 0);
                assert forall|k: int| 0 <= k < up2.len() implies #[trigger] up2[k] == up[k + 1] by {
                    lemma_filter_map_all_index(r2, g2, k);
                    lemma_filter_map_all_index(r, g, k + 1);
                    match q.cursor {
                        Some(c) => {
                            assert(r2[k] == r[k + 1]);
                        },
                        None => {
                            assert(r2[k] == r[k + 1]);
                        },
                    }
                }
                match q.cursor {
                    Some(c) => assert(r[0] == q.order[c + 1]),
                    None => assert(r[0] == q.order[0]),
                }
            }
        },
    }
}

/// `k` skips from a queue with more than `k` upcoming tracks leave the
/// upcoming list without its first `k` tracks.
pub proof fn lemma_next_times_upcoming(q: QueueView, k: nat)
    requires
        q.wf(),
        q.bounded(),
        k <= q.upcoming().len(),
    ensures
        q.next_times(k).0.wf(),
        q.next_times(k).0.bounded(),
        q.next_times(k).0.upcoming() =~= q.upcoming().skip(k as int),
        k > 0 ==> q.next_times(k).1 == Some(q.upcoming()[k - 1]),
    decreases k,
{
    if k > 0 {
        lemma_next_times_upcoming(q, (k - 1) as nat);
        let qk = q.next_times((k - 1) as nat).0;
        lemma_next_upcoming(qk);
        law_next_plays_first_upcoming(qk);
    }
}

/// Jumping to an upcoming index plays exactly the track listed there,
/// and leaves the tracks after it upcoming. `Queue::lemma_bounds` gives
/// the `bounded` premise for every queue.
pub proof fn law_jump_to_reaches_upcoming(q: QueueView, index: usize)
    requires
        q.wf(),
        q.bounded(),
        index < q.upcoming().len(),
    ensures
        q.jump_to(index).1 == Some(q.upcoming()[index as int]),
        q.jump_to(index).0.upcoming() =~= q.upcoming().skip(index + 1),
{
    lemma_next_times_upcoming(q, (index + 1) as nat);
}

/// After `retain_local`, every queued or current track is local.
pub proof fn law_retain_local_keeps_only_local(q: QueueView)
    ensures
        forall|k: int| 0 <= k < q.retain(local_keep(None)).context.len() ==> (#[trigger] q.retain(
            local_keep(None),
        ).context[k]).is_local(),
        forall|k: int| 0 <= k < q.retain(local_keep(None)).user_queue.len() ==> (#[trigger] q.retain(
            local_keep(None),
        ).user_queue[k]).is_local(),
        q.retain(local_keep(None)).current matches Some(c) ==> c.track.is_local(),
{
    let keep = local_keep(None);
    assert forall|k: int| 0 <= k < q.context.filter(keep).len() implies (#[trigger] q.context.filter(keep)[k]).is_local() by {
        q.context.lemma_filter_pred(keep, k);
    }
    assert forall|k: int| 0 <= k < q.user_queue.filter(keep).len() implies (#[trigger] q.user_queue.filter(keep)[k]).is_local() by {
        q.user_queue.lemma_filter_pred(keep, k);
    }
}

/// After `remove_local(id)`, no local track `id` stays queued or current.
pub proof fn law_remove_local_drops_track(q: QueueView, id: Seq<char>)
    ensures
        !q.retain(local_keep(Some(id))).holds_local(id),
{
    let keep = local_keep(Some(id));
    let q1 = q.retain(keep);
    assert forall|k: int| 0 <= k < q1.context.len() implies !is_local_id(#[trigger] q1.context[k], id) by {
        q.context.lemma_filter_pred(keep, k);
    }
    assert forall|k: int| 0 <= k < q1.user_queue.len() implies !is_local_id(#[trigger] q1.user_queue[k], id) by {
        q.user_queue.lemma_filter_pred(keep, k);
    }
}

/// "Play next" puts the track at the head of the upcoming list, ahead
/// of every other upcoming track in its present order (a manual
/// reordering included), and leaves the current track alone.
pub proof fn law_play_next_heads_upcoming(q: QueueView, t: TrackView)
    requires
        q.wf(),
        q.bounded(),
    ensures
        q.play_next(t).upcoming() == seq![t] + q.upcoming(),
        q.play_next(t).current_track() == q.current_track(),
{
    let p = q.play_next(t);
    match q.manual_order {
        None => {
            assert(p.rest() == q.rest());
            let f = |i: usize| q.context_get(i);
            assert(p.rest().filter_map(|i: usize| p.context_get(i)) =~= q.rest().filter_map(f)) by {
                lemma_filter_map_map_values(
                    q.rest(),
                    |i: usize| i,
                    f,
                    |i: usize| p.context_get(i),
                );
                assert(q.rest().map_values(|i: usize| i) =~= q.rest());
            }
        },
        Some(m) => {
            let g = |e: UpcomingEntry| shift_user(e);
            let f = |e: UpcomingEntry| q.entry_track(e);
            let h = |e: UpcomingEntry| p.entry_track(e);
            assert forall|k: int| 0 <= k < m.len() implies h(g(#[trigger] m[k])) == f(m[k]) by {
                assert(q.valid_entry(m[k]));
                match m[k] {
                    UpcomingEntry::User(i) => {
                        assert(p.user_queue[i + 1] == q.user_queue[i as int]);
                    },
                    UpcomingEntry::Context(i) => {},
                }
            }
            lemma_filter_map_map_values(m, g, f, h);
            let head = seq![UpcomingEntry::User(0)];
            assert(p.manual_order == Some(head + m.map_values(g)));
            lemma_filter_map_add(head, m.map_values(g), h);
            Seq::lemma_filter_map_singleton(UpcomingEntry::User(0), h);
            assert(head.filter_map(h) =~= seq![t]);
        },
    }
}

/// The manual-order case of `law_remove_upcoming_drops_that_row`.
proof fn lemma_remove_manual_row(q: QueueView, index: usize)
    requires
        q.wf(),
        q.bounded(),
        q.manual_order is Some,
        index < q.entries().len(),
    ensures
        q.remove_upcoming(index).upcoming() == q.upcoming().remove(index as int),
{
    lemma_entries_wf(q);
    let m = q.manual_order->0;
    let q1 = q.remove_upcoming(index);
    let entry = m[index as int];
    assert(q.valid_entry(entry));
    let mr = m.remove(index as int);
    let f = |x: UpcomingEntry| q.entry_track(x);
    let h = |x: UpcomingEntry| q1.entry_track(x);
    let g = |x: UpcomingEntry| adjust_entry(x, entry);
    assert forall|k: int| 0 <= k < mr.len() implies h(g(#[trigger] mr[k])) == f(mr[k]) by {
        let src = if k < index { k } else { k + 1 };
        assert(mr[k] == m[src]);
        assert(m[src] != m[index as int]);
        assert(q.valid_entry(m[src]));
        match (mr[k], entry) {
            (UpcomingEntry::User(v), UpcomingEntry::User(i)) => {
                if v > i {
                    assert(q1.user_queue[v - 1] == q.user_queue[v as int]);
                } else {
                    assert(q1.user_queue[v as int] == q.user_queue[v as int]);
                }
            },
            (UpcomingEntry::Context(v), UpcomingEntry::Context(i)) => {
                if v > i {
                    assert(q1.context[v - 1] == q.context[v as int]);
                } else {
                    assert(q1.context[v as int] == q.context[v as int]);
                }
            },
            _ => {},
        }
    }
    assert(q1.manual_order == Some(adjust_all(mr, entry)));
    assert(adjust_all(mr, entry) =~= mr.map_values(g));
    lemma_filter_map_map_values(mr, g, f, h);
    assert forall|k: int| 0 <= k < m.len() implies (#[trigger] f(m[k])) is Some by {
        assert(q.valid_entry(m[k]));
    }
    lemma_filter_map_remove(m, f, index as int);
}

/// The context-row case of `law_remove_upcoming_drops_that_row`, with
/// no manual order.
#[verifier::rlimit(30)]
proof fn lemma_remove_context_row(q: QueueView, index: usize)
    requires
        q.wf(),
        q.bounded(),
        q.manual_order is None,
        q.user_queue.len() <= index < q.entries().len(),
    ensures
        q.remove_upcoming(index).upcoming() == q.upcoming().remove(index as int),
{
    lemma_entries_wf(q);
    let e = q.entries();
    let n = q.user_queue.len();
    let st: int = match q.cursor {
        Some(c) => c + 1,
        None => 0,
    };
    let r = q.rest();
    assert(r =~= q.order.subrange(st, q.order.len() as int));
    let q1 = q.remove_upcoming(index);
    let f = |x: usize| q.context_get(x);
    assert forall|k: int| 0 <= k < r.len() implies (#[trigger] f(r[k])) is Some by {
        assert(r[k] == q.order[st + k]);
    }
    let j = index - n;
    let ctx = q.context_entries();
    assert(e[index as int] == ctx[j]);
    let v = r[j];
    let entry = UpcomingEntry::Context(v);
    assert(e[index as int] == entry);
    let p = st + j;
    assert(q.order[p] == v);
    lemma_filter_unique(q.order, p);
    let kept = q.order.remove(p);
    assert(q1.order == kept.map_values(dec_above(v)));
    let r1 = q1.rest();
    let rj = r.remove(j);
    assert(r1 =~= rj.map_values(dec_above(v)));
    let h = |x: usize| q1.context_get(x);
    assert forall|k: int| 0 <= k < rj.len() implies h(dec_above(v)(#[trigger] rj[k])) == f(rj[k]) by {
        let src = if k < j { k } else { k + 1 };
        assert(rj[k] == r[src]);
        assert(r[src] == q.order[st + src]);
        assert(q.order[st + src] != q.order[p]);
        let x = rj[k];
        if x > v {
            assert(q1.context[x - 1] == q.context[x as int]);
        } else {
            assert(q1.context[x as int] == q.context[x as int]);
        }
    }
    lemma_filter_map_map_values(rj, dec_above(v), f, h);
    lemma_filter_map_remove(r, f, j);
    lemma_filter_map_len(r, f);
    let fr = r.filter_map(f);
    assert(q.upcoming() == q.user_queue + fr);
    assert(q1.upcoming() == q.user_queue + r1.filter_map(h));
    assert(r1.filter_map(h) == fr.remove(j));
    assert((q.user_queue + fr).remove(index as int) =~= q.user_queue + fr.remove(j));
}

/// Removing an upcoming row removes exactly that row from the upcoming
/// list, duplicates and a manual order included, and leaves the current
/// track alone; an index past the list changes nothing.
pub proof fn law_remove_upcoming_drops_that_row(q: QueueView, index: usize)
    requires
        q.wf(),
        q.bounded(),
    ensures
        index >= q.upcoming().len() ==> q.remove_upcoming(index) == q,
        index < q.upcoming().len() ==> q.remove_upcoming(index).upcoming() == q.upcoming().remove(index as int),
        q.remove_upcoming(index).current_track() == q.current_track(),
{
    lemma_upcoming_len(q);
    let n = q.user_queue.len();
    match q.manual_order {
        Some(m) => {},
        None => {
            assert(q.context_entries().len() == q.rest().len());
            assert(q.entries().len() == n + q.rest().len());
        },
    }
    if index < q.entries().len() {
        match q.manual_order {
            Some(m) => lemma_remove_manual_row(q, index),
            None => {
                if index < n {
                    lemma_entries_wf(q);
                    let q1 = q.remove_upcoming(index);
                    assert(q.entries()[index as int] == UpcomingEntry::User(index));
                    assert(q1.rest() == q.rest());
                    assert(q1.context == q.context);
                    let f = |i: usize| q.context_get(i);
                    let f1 = |i: usize| q1.context_get(i);
                    assert(f1 =~= f);
                    let x = q.rest().filter_map(f);
                    assert(q1.user_queue == q.user_queue.remove(index as int));
                    assert(q1.upcoming() == q.user_queue.remove(index as int) + x);
                    assert(q.upcoming() == q.user_queue + x);
                    assert((q.user_queue + x).remove(index as int) =~= q.user_queue.remove(index as int) + x);
                } else {
                    lemma_remove_context_row(q, index);
                }
            },
        }
    }
}

/// The upcoming list is the track of each upcoming entry.
pub proof fn lemma_upcoming_is_entries(q: QueueView)
    requires
        q.wf(),
        q.bounded(),
    ensures
        forall|k: int| 0 <= k < q.entries().len() ==> (#[trigger] q.entry_track(q.entries()[k])) is Some,
        q.upcoming() == q.entries().map_values(|x: UpcomingEntry| q.entry_track(x)->0),
{
    lemma_entries_wf(q);
    let e = q.entries();
    let f = |x: UpcomingEntry| q.entry_track(x);
    assert forall|k: int| 0 <= k < e.len() implies (#[trigger] q.entry_track(e[k])) is Some by {
        assert(q.valid_entry(e[k]));
    }
    match q.manual_order {
        Some(m) => {
            assert forall|k: int| 0 <= k < m.len() implies (#[trigger] f(m[k])) is Some by {
                assert(q.valid_entry(m[k]));
            }
            lemma_filter_map_all(m, f);
        },
        None => {
            let r = q.rest();
            let st: int = match q.cursor {
                Some(c) => c + 1,
                None => 0,
            };
            let g = |i: usize| q.context_get(i);
            assert forall|k: int| 0 <= k < r.len() implies (#[trigger] g(r[k])) is Some by {
                assert(r[k] == q.order[st + k]);
            }
            lemma_filter_map_all(r, g);
            let n = q.user_queue.len();
            let lhs = q.upcoming();
            let rhs = e.map_values(|x: UpcomingEntry| q.entry_track(x)->0);
            assert(lhs.len() == rhs.len());
            assert forall|k: int| 0 <= k < lhs.len() implies lhs[k] == rhs[k] by {
                if k < n {
                    assert(e[k] == UpcomingEntry::User(k as usize));
                } else {
                    assert(e[k] == q.context_entries()[k - n]);
                }
            }
            assert(lhs =~= rhs);
        },
    }
}

/// Moving the selected upcoming rows puts them, in their order, at the
/// boundary before row `before`, with the other rows in their order
/// around them; the current track stays. A boundary past the list's end,
/// or a selection of no row, changes nothing.
pub proof fn law_move_upcoming_reorders_rows(q: QueueView, selected: Seq<usize>, before: usize)
    requires
        q.wf(),
        q.bounded(),
    ensures
        ({
            let u = q.upcoming();
            let sel = q.selection(selected);
            let moving = picked(u, sel);
            let rest = picked(u, negate(sel));
            let target = before - picked(u.take(before as int), sel).len();
            &&& q.move_upcoming(selected, before).current_track() == q.current_track()
            &&& (before > u.len() || moving.len() == 0) ==> q.move_upcoming(selected, before) == q
            &&& !(before > u.len() || moving.len() == 0) ==> q.move_upcoming(selected, before).upcoming()
                == rest.take(target) + moving + rest.skip(target)
        }),
{
    lemma_upcoming_is_entries(q);
    let e = q.entries();
    let tr = |x: UpcomingEntry| q.entry_track(x)->0;
    let u = q.upcoming();
    let sel = q.selection(selected);
    lemma_picked_map(e, sel, tr);
    lemma_picked_map(e, negate(sel), tr);
    if before as int <= e.len() {
        assert(u.take(before as int) =~= e.take(before as int).map_values(tr));
        lemma_picked_map(e.take(before as int), sel, tr);
    }
    let moving_e = picked(e, sel);
    if !(before > e.len() || moving_e.len() == 0) {
        let target = before - picked(e.take(before as int), sel).len();
        let remaining = picked(e, negate(sel));
        crate::queue_view::lemma_move_target(e, sel, before as int);
        let m1 = remaining.take(target) + moving_e + remaining.skip(target);
        let q1 = q.move_upcoming(selected, before);
        assert(q1.manual_order == Some(m1));
        let f = |x: UpcomingEntry| q.entry_track(x);
        let f1 = |x: UpcomingEntry| q1.entry_track(x);
        assert(f1 =~= f);
        crate::queue_view::lemma_picked_partition(e, sel);
        assert forall|k: int| 0 <= k < m1.len() implies (#[trigger] f(m1[k])) is Some by {
            assert(m1.to_multiset().count(m1[k]) > 0) by {
                broadcast use vstd::seq_lib::group_to_multiset_ensures;
                assert(m1.contains(m1[k]));
            }
            law_move_upcoming_keeps_entries(q, selected, before);
            assert(q1.entries() == m1);
            broadcast use vstd::seq_lib::group_to_multiset_ensures;
            assert(e.to_multiset().count(m1[k]) > 0);
            assert(e.contains(m1[k]));
            let j = choose|j: int| 0 <= j < e.len() && e[j] == m1[k];
            assert(q.entry_track(e[j]) is Some);
        }
        lemma_filter_map_all(m1, f);
        assert(q1.upcoming() == m1.map_values(tr));
        assert(m1.map_values(tr) =~= remaining.map_values(tr).take(target) + moving_e.map_values(tr)
            + remaining.map_values(tr).skip(target));
    }
}

/// Extending the context adds its tracks, in list order, after
/// everything still to come, shuffled or not; the current track stays.
pub proof fn law_extend_context_appends(q: QueueView, tracks: Seq<TrackView>)
    requires
        q.wf(),
        q.bounded(),
        q.context.len() + tracks.len() <= usize::MAX,
        q.order.len() + tracks.len() <= usize::MAX,
    ensures
        q.extend_context(tracks).upcoming() == q.upcoming() + tracks,
        q.extend_context(tracks).current == q.current,
{
    let q1 = q.extend_context(tracks);
    crate::queue_view::lemma_extend_context_wf(q, tracks);
    lemma_upcoming_is_entries(q);
    lemma_upcoming_is_entries(q1);
    lemma_entries_wf(q);
    let start = q.context.len();
    let new_indices = crate::queue_view::range_seq(start as int, tracks.len());
    let added = new_indices.map_values(|v: usize| UpcomingEntry::Context(v));
    let e = q.entries();
    let e1 = q1.entries();
    match q.manual_order {
        Some(m) => {
            assert(e1 == m + added);
        },
        None => {
            let st: int = match q.cursor {
                Some(c) => c + 1,
                None => 0,
            };
            assert(q1.rest() =~= q.rest() + new_indices);
            crate::queue_view::lemma_map_values_add(
                q.rest(),
                new_indices,
                |v: usize| UpcomingEntry::Context(v),
            );
            assert(e1 =~= e + added);
        },
    }
    let u = q.upcoming();
    let u1 = q1.upcoming();
    assert(u1.len() == e1.len());
    assert forall|k: int| 0 <= k < u1.len() implies u1[k] == (u + tracks)[k] by {
        if k < e.len() {
            assert(e1[k] == e[k]);
            assert(q.valid_entry(e[k]));
            assert(q1.entry_track(e[k]) == q.entry_track(e[k]));
        } else {
            assert(e1[k] == added[k - e.len()]);
            assert(q1.context[start + (k - e.len())] == tracks[k - e.len()]);
        }
    }
    assert(u1 =~= u + tracks);
}

/// Queuing a track puts it right after the last track queued by hand
/// among those to come, or at their front when none was; everything
/// else keeps its order, and the current track stays.
pub proof fn law_queue_track_after_queued_rows(q: QueueView, t: TrackView)
    requires
        q.wf(),
        q.bounded(),
        q.user_queue.len() < usize::MAX,
    ensures
        ({
            let u = q.upcoming();
            let j = crate::queue_view::last_user_pos(q.entries()) + 1;
            &&& 0 <= j <= u.len()
            &&& q.queue_track(t).upcoming() == u.take(j) + seq![t] + u.skip(j)
        }),
        q.queue_track(t).current == q.current,
{
    let q1 = q.queue_track(t);
    crate::queue_view::lemma_queue_track_wf(q, t);
    lemma_upcoming_is_entries(q);
    lemma_upcoming_is_entries(q1);
    lemma_entries_wf(q);
    let e = q.entries();
    let e1 = q1.entries();
    let n = q.user_queue.len();
    let j = crate::queue_view::last_user_pos(e) + 1;
    crate::queue_view::lemma_last_user_pos_bounds(e);
    let new_entry = UpcomingEntry::User(n as usize);
    match q.manual_order {
        Some(m) => {
            assert(e1 == m.insert(j, new_entry));
        },
        None => {
            assert forall|k: int| n <= k < e.len() implies #[trigger] e[k] is Context by {
                assert(e[k] == q.context_entries()[k - n]);
            }
            if n > 0 {
                assert(e[n - 1] == UpcomingEntry::User((n - 1) as usize));
            }
            crate::queue_view::lemma_last_user_pos(e, n as int);
            assert forall|k: int| 0 <= k < e1.len() implies #[trigger] e1[k] == e.insert(j, new_entry)[k] by {
                if k < n {
                    assert(e1[k] == UpcomingEntry::User(k as usize));
                } else if k > n {
                    assert(e1[k] == q1.context_entries()[k - n - 1]);
                    assert(e[k - 1] == q.context_entries()[k - 1 - n]);
                }
            }
            assert(e1 =~= e.insert(j, new_entry));
        },
    }
    let u = q.upcoming();
    let u1 = q1.upcoming();
    let want = u.take(j) + seq![t] + u.skip(j);
    assert(u1.len() == want.len());
    assert forall|k: int| 0 <= k < u1.len() implies u1[k] == want[k] by {
        if k < j {
            assert(e1[k] == e[k]);
            assert(q.valid_entry(e[k]));
        } else if k > j {
            assert(e1[k] == e[k - 1]);
            assert(q.valid_entry(e[k - 1]));
        } else {
            assert(e1[k] == new_entry);
        }
    }
    assert(u1 =~= want);
}

/// Clearing the queue drops the tracks queued by hand and keeps, in
/// their order, those that come from the context; the current track
/// stays.
pub proof fn law_clear_user_queue_keeps_context_rows(q: QueueView)
    requires
        q.wf(),
        q.bounded(),
    ensures
        q.clear_user_queue().upcoming() == q.entries().filter(crate::queue_view::context_pred()).map_values(
            |x: UpcomingEntry| q.entry_track(x)->0,
        ),
        q.clear_user_queue().current == q.current,
{
    let q1 = q.clear_user_queue();
    let pred = crate::queue_view::context_pred();
    crate::queue_view::lemma_clear_user_queue_wf(q);
    lemma_upcoming_is_entries(q1);
    lemma_entries_wf(q);
    let e = q.entries();
    let e1 = q1.entries();
    let kept = e.filter(pred);
    match q.manual_order {
        Some(m) => {
            assert(e1 == kept);
        },
        None => {
            let users = Seq::new(q.user_queue.len(), |i: int| UpcomingEntry::User(i as usize));
            let ce = q.context_entries();
            Seq::filter_distributes_over_add(users, ce, pred);
            assert(users.filter(pred) =~= Seq::empty()) by {
                reveal_with_fuel(Seq::filter, 1);
                if users.filter(pred).len() > 0 {
                    users.lemma_filter_contains_rev(pred, users.filter(pred)[0]);
                    users.lemma_filter_pred(pred, 0);
                    let k = choose|k: int| 0 <= k < users.len() && users[k] == users.filter(pred)[0];
                    assert(users[k] is User);
                }
            }
            assert forall|k: int| 0 <= k < ce.len() implies pred(#[trigger] ce[k]) by {}
            ce.lemma_filter_len(pred);
            assert(ce.filter(pred) =~= ce) by {
                lemma_filter_keeps_all(ce, pred);
            }
            assert(e1 =~= ce);
            assert(e =~= users + ce);
            assert(kept =~= ce);
        },
    }
    let u1 = q1.upcoming();
    let want = kept.map_values(|x: UpcomingEntry| q.entry_track(x)->0);
    assert forall|k: int| 0 <= k < u1.len() implies u1[k] == want[k] by {
        assert(e1[k] == kept[k]);
        assert(kept[k] is Context);
    }
    assert(u1 =~= want);
}

/// A filter that accepts every element keeps the whole sequence.
proof fn lemma_filter_keeps_all<A>(s: Seq<A>, pred: spec_fn(A) -> bool)
    requires
        forall|k: int| 0 <= k < s.len() ==> pred(#[trigger] s[k]),
    ensures
        s.filter(pred) == s,
    decreases s.len(),
{
    reveal_with_fuel(Seq::filter, 1);
    if s.len() > 0 {
        lemma_filter_keeps_all(s.drop_last(), pred);
        assert(s.drop_last().push(s.last()) =~= s);
    }
}

/// The track `keep` accepts at `i` sits in `s.filter(keep)` after the
/// accepted ones before it.
proof fn lemma_kept_at(s: Seq<TrackView>, keep: spec_fn(TrackView) -> bool, i: int)
    requires
        0 <= i < s.len(),
        keep(s[i]),
    ensures
        crate::queue_view::count_kept(s.take(i), keep) < s.filter(keep).len(),
        s.filter(keep)[crate::queue_view::count_kept(s.take(i), keep) as int] == s[i],
    decreases s.len(),
{
    reveal(Seq::filter);
    let d = s.drop_last();
    if i == s.len() - 1 {
        assert(s.take(i) =~= d);
        crate::queue_view::lemma_count_kept_filter(d, keep);
        assert(s.filter(keep) == d.filter(keep).push(s.last()));
    } else {
        assert(s.take(i) =~= d.take(i));
        lemma_kept_at(d, keep, i);
        assert(d[i] == s[i]);
        if keep(s.last()) {
            assert(s.filter(keep) == d.filter(keep).push(s.last()));
        } else {
            assert(s.filter(keep) == d.filter(keep));
        }
    }
}

/// A `filter_map` never lengthens a sequence.
proof fn lemma_filter_map_at_most<A, B>(s: Seq<A>, f: spec_fn(A) -> Option<B>)
    ensures
        s.filter_map(f).len() <= s.len(),
    decreases s.len(),
{
    if s.len() > 0 {
        lemma_filter_map_at_most(s.drop_last(), f);
    }
}

/// Keeping what `keep` accepts, as a `filter_map`.
pub open spec fn keeping(keep: spec_fn(TrackView) -> bool) -> spec_fn(TrackView) -> Option<TrackView> {
    |t: TrackView|
        if keep(t) {
            Some(t)
        } else {
            None
        }
}

/// A filter is the `filter_map` that keeps what it accepts.
proof fn lemma_filter_is_filter_map(s: Seq<TrackView>, keep: spec_fn(TrackView) -> bool)
    ensures
        s.filter(keep) == s.filter_map(keeping(keep)),
    decreases s.len(),
{
    reveal(Seq::filter);
    if s.len() > 0 {
        lemma_filter_is_filter_map(s.drop_last(), keep);
        if keep(s.last()) {
            assert(s.filter(keep) =~= s.drop_last().filter(keep) + seq![s.last()]);
        }
    }
}

/// Two `filter_map`s in a row are one, by the composed map `h`.
proof fn lemma_filter_map_compose<A, B, C>(
    s: Seq<A>,
    f: spec_fn(A) -> Option<B>,
    g: spec_fn(B) -> Option<C>,
    h: spec_fn(A) -> Option<C>,
)
    requires
        forall|x: A|
            #[trigger] h(x) == match f(x) {
                Some(y) => g(y),
                None => None,
            },
    ensures
        s.filter_map(f).filter_map(g) == s.filter_map(h),
    decreases s.len(),
{
    if s.len() > 0 {
        let d = s.drop_last();
        lemma_filter_map_compose(d, f, g, h);
        assert(h(s.last()) == match f(s.last()) {
            Some(y) => g(y),
            None => None,
        });
        match f(s.last()) {
            Some(y) => {
                lemma_filter_map_add(d.filter_map(f), seq![y], g);
                Seq::lemma_filter_map_singleton(y, g);
                match g(y) {
                    Some(z) => {
                        assert(s.filter_map(h) == d.filter_map(h) + seq![z]);
                    },
                    None => {
                        assert(seq![y].filter_map(g) =~= Seq::<C>::empty());
                        assert(d.filter_map(f).filter_map(g) + Seq::<C>::empty() =~= d.filter_map(f).filter_map(g));
                    },
                }
            },
            None => {},
        }
    }
}

/// Keeping only the tracks that `keep` accepts keeps the order of the
/// tracks to come, drops the others, and replays nothing from before
/// the current position: what comes next is the old upcoming list,
/// filtered. This covers `retain_local` and `remove_local`.
pub proof fn law_retain_filters_upcoming(q: QueueView, keep: spec_fn(TrackView) -> bool)
    requires
        q.wf(),
        q.bounded(),
    ensures
        q.retain(keep).upcoming() == q.upcoming().filter(keep),
{
    let q1 = q.retain(keep);
    let sel = keeping(keep);
    crate::queue_view::lemma_count_kept_filter(q.context, keep);
    crate::queue_view::lemma_count_kept_filter(q.user_queue, keep);
    match q.manual_order {
        Some(m) => {
            let f = |e: UpcomingEntry| q.kept_entry(keep, e);
            let g = |e: UpcomingEntry| q1.entry_track(e);
            let h = |e: UpcomingEntry|
                match q.entry_track(e) {
                    Some(t) => sel(t),
                    None => None,
                };
            assert forall|x: UpcomingEntry|
                #[trigger] h(x) == match f(x) {
                    Some(y) => g(y),
                    None => None,
                } by {
                match x {
                    UpcomingEntry::User(i) => {
                        if i < q.user_queue.len() && keep(q.user_queue[i as int]) {
                            lemma_kept_at(q.user_queue, keep, i as int);
                        }
                    },
                    UpcomingEntry::Context(i) => {
                        if i < q.context.len() && keep(q.context[i as int]) {
                            lemma_kept_at(q.context, keep, i as int);
                        }
                    },
                }
            }
            lemma_filter_map_compose(m, f, g, h);
            let tr = |e: UpcomingEntry| q.entry_track(e);
            assert forall|x: UpcomingEntry|
                #[trigger] h(x) == match tr(x) {
                    Some(y) => sel(y),
                    None => None,
                } by {}
            lemma_filter_map_compose(m, tr, sel, h);
            lemma_filter_is_filter_map(m.filter_map(tr), keep);
            assert(q1.upcoming() == m.filter_map(f).filter_map(g));
        },
        None => {
            let cm = |i: usize| kept_index(q.context, keep, i);
            let c1 = |i: usize| q1.context_get(i);
            let c0 = |i: usize| q.context_get(i);
            let h = |i: usize|
                match c0(i) {
                    Some(t) => sel(t),
                    None => None,
                };
            assert forall|x: usize|
                #[trigger] h(x) == match cm(x) {
                    Some(y) => c1(y),
                    None => None,
                } by {
                if x < q.context.len() && keep(q.context[x as int]) {
                    lemma_kept_at(q.context, keep, x as int);
                }
            }
            let r = q.rest();
            let r1 = q1.rest();
            let o = q.order;
            let o1 = q1.order;
            assert(o1 == o.filter_map(cm));
            match q.cursor {
                Some(c) => {
                    let ci = c as int;
                    assert(o =~= o.take(ci) + (seq![o[ci]] + o.skip(ci + 1)));
                    lemma_filter_map_add(o.take(ci), seq![o[ci]] + o.skip(ci + 1), cm);
                    lemma_filter_map_add(seq![o[ci]], o.skip(ci + 1), cm);
                    Seq::lemma_filter_map_singleton(o[ci], cm);
                    let bf = o.take(ci).filter_map(cm);
                    let mid = seq![o[ci]].filter_map(cm);
                    let af = o.skip(ci + 1).filter_map(cm);
                    assert(o1 == bf + (mid + af));
                    crate::seq_facts::lemma_filter_map_prefix_le(o, cm, ci);
                    lemma_filter_map_at_most(o, cm);
                    assert(bf.len() <= o.len());
                    assert(r =~= o.skip(ci + 1));
                    if cm(o[ci]) is Some {
                        assert(mid.len() == 1);
                        assert(q1.cursor == Some(bf.len() as usize));
                        assert(r1 =~= af);
                    } else if bf.len() > 0 {
                        assert(mid.len() == 0);
                        assert(q1.cursor == Some((bf.len() - 1) as usize));
                        assert(r1 =~= af);
                    } else {
                        assert(mid.len() == 0);
                        assert(q1.cursor is None);
                        assert(r1 =~= af);
                    }
                },
                None => {
                    assert(r1 == r.filter_map(cm));
                },
            }
            assert(r1 == r.filter_map(cm));
            lemma_filter_map_compose(r, cm, c1, h);
            assert forall|x: usize|
                #[trigger] h(x) == match c0(x) {
                    Some(y) => sel(y),
                    None => None,
                } by {}
            lemma_filter_map_compose(r, c0, sel, h);
            lemma_filter_is_filter_map(r.filter_map(c0), keep);
            Seq::filter_distributes_over_add(q.user_queue, r.filter_map(c0), keep);
            assert(q1.upcoming() == q1.user_queue + r1.filter_map(c1));
        },
    }
}

/// Previous steps back one track in the play order: from the track at
/// position `c > 0` it goes to the track at `c - 1` and plays it. At
/// the first position it wraps to the last one with repeat-all, and
/// otherwise replays the first.
pub proof fn law_previous_steps_back_one(q: QueueView)
    requires
        q.wf(),
        q.bounded(),
        q.cursor is Some,
    ensures
        ({
            let c = q.cursor->0;
            let p: int = if c > 0 {
                c - 1
            } else if q.repeat == RepeatMode::All && q.order.len() > 0 {
                q.order.len() - 1
            } else {
                0
            };
            &&& q.previous().0.cursor == Some(p as usize)
            &&& q.previous().1 == Some(q.context[q.order[p] as int])
            &&& q.previous().0.current_track() == Some(q.context[q.order[p] as int])
            &&& q.previous().0.context == q.context
            &&& q.previous().0.order == q.order
        }),
{
    let c = q.cursor->0;
    let pc = q.previous_cursor(c);
    let p: int = if c > 0 {
        c - 1
    } else if q.repeat == RepeatMode::All && q.order.len() > 0 {
        q.order.len() - 1
    } else {
        0
    };
    assert(pc as int == p);
    assert(q.track_at(pc) == q.context[q.order[p] as int]);
}

} // verus!
