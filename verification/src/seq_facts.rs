//! Facts about `filter_map` on sequences that the queue's index
//! remapping rests on.
use vstd::prelude::*;

verus! {

/// `filter_map` distributes over concatenation.
pub proof fn lemma_filter_map_add<A, B>(a: Seq<A>, b: Seq<A>, f: spec_fn(A) -> Option<B>)
    ensures
        (a + b).filter_map(f) == a.filter_map(f) + b.filter_map(f),
    decreases b.len(),
{
    if b.len() == 0 {
        assert(a + b =~= a);
        assert(a.filter_map(f) + b.filter_map(f) =~= a.filter_map(f));
    } else {
        lemma_filter_map_add(a, b.drop_last(), f);
        assert((a + b).drop_last() =~= a + b.drop_last());
        assert((a + b).last() == b.last());
        match f(b.last()) {
            Some(x) => {
                assert((a + b).filter_map(f) =~= (a + b.drop_last()).filter_map(f) + seq![x]);
                assert(b.filter_map(f) == b.drop_last().filter_map(f) + seq![x]);
                assert(a.filter_map(f) + b.filter_map(f) =~= a.filter_map(f) + b.drop_last().filter_map(
                    f,
                ) + seq![x]);
            },
            None => {},
        }
    }
}

/// The image of `s[p]` sits in `s.filter_map(f)` right after the images
/// of the elements before `p`.
pub proof fn lemma_filter_map_index<A, B>(s: Seq<A>, f: spec_fn(A) -> Option<B>, p: int)
    requires
        0 <= p < s.len(),
        f(s[p]) is Some,
    ensures
        s.take(p).filter_map(f).len() < s.filter_map(f).len(),
        s.filter_map(f)[s.take(p).filter_map(f).len() as int] == f(s[p])->0,
        s.take(p + 1).filter_map(f).len() == s.take(p).filter_map(f).len() + 1,
{
    let y = f(s[p])->0;
    assert(s =~= s.take(p) + (seq![s[p]] + s.skip(p + 1)));
    lemma_filter_map_add(s.take(p), seq![s[p]] + s.skip(p + 1), f);
    lemma_filter_map_add(seq![s[p]], s.skip(p + 1), f);
    Seq::lemma_filter_map_singleton(s[p], f);
    s.lemma_filter_map_take_succ(f, p);
}

/// A longer prefix keeps at least as many images.
pub proof fn lemma_filter_map_prefix_mono<A, B>(s: Seq<A>, f: spec_fn(A) -> Option<B>, a: int, b: int)
    requires
        0 <= a <= b <= s.len(),
    ensures
        s.take(a).filter_map(f).len() <= s.take(b).filter_map(f).len(),
    decreases b - a,
{
    if a < b {
        lemma_filter_map_prefix_mono(s, f, a, b - 1);
        s.lemma_filter_map_take_succ(f, b - 1);
    }
}

/// A prefix keeps no more images than the whole sequence.
pub proof fn lemma_filter_map_prefix_le<A, B>(s: Seq<A>, f: spec_fn(A) -> Option<B>, a: int)
    requires
        0 <= a <= s.len(),
    ensures
        s.take(a).filter_map(f).len() <= s.filter_map(f).len(),
{
    lemma_filter_map_prefix_mono(s, f, a, s.len() as int);
    assert(s.take(s.len() as int) =~= s);
}

/// Every element of `s.filter_map(f)` is the image of some element of `s`.
pub proof fn lemma_filter_map_source<A, B>(s: Seq<A>, f: spec_fn(A) -> Option<B>, k: int)
    requires
        0 <= k < s.filter_map(f).len(),
    ensures
        exists|p: int| 0 <= p < s.len() && f(#[trigger] s[p]) == Some(s.filter_map(f)[k]),
{
    let y = s.filter_map(f)[k];
    assert(s.filter_map(f).contains(y));
    s.lemma_filter_map_contains(f, y);
    let t = choose|t: A| #[trigger] s.contains(t) && f(t) == Some(y);
    let p = choose|p: int| 0 <= p < s.len() && s[p] == t;
    assert(f(s[p]) == Some(y));
}

/// A map that never sends two elements of `s` to the same image keeps
/// `s.filter_map(f)` free of duplicates.
pub proof fn lemma_filter_map_no_dups<A, B>(s: Seq<A>, f: spec_fn(A) -> Option<B>)
    requires
        s.no_duplicates(),
        forall|a: int, b: int|
            0 <= a < s.len() && 0 <= b < s.len() && a != b && (#[trigger] f(s[a])) is Some
                ==> f(s[a]) != #[trigger] f(s[b]),
    ensures
        s.filter_map(f).no_duplicates(),
    decreases s.len(),
{
    if s.len() > 0 {
        let d = s.drop_last();
        assert forall|a: int, b: int|
            0 <= a < d.len() && 0 <= b < d.len() && a != b && (#[trigger] f(d[a])) is Some implies f(
            d[a]) != #[trigger] f(d[b]) by {
            assert(d[a] == s[a]);
            assert(d[b] == s[b]);
        }
        lemma_filter_map_no_dups(d, f);
        match f(s.last()) {
            Some(x) => {
                let fd = d.filter_map(f);
                assert forall|k: int| 0 <= k < fd.len() implies fd[k] != x by {
                    lemma_filter_map_source(d, f, k);
                    let p = choose|p: int| 0 <= p < d.len() && f(#[trigger] d[p]) == Some(fd[k]);
                    assert(d[p] == s[p]);
                    assert(f(s[s.len() - 1]) != f(s[p]));
                }
            },
            None => {},
        }
    }
}

/// Mapping before `filter_map` changes nothing when the mapped filter
/// agrees with the original one on every element.
pub proof fn lemma_filter_map_map_values<A, B, C>(
    s: Seq<A>,
    g: spec_fn(A) -> B,
    f: spec_fn(A) -> Option<C>,
    h: spec_fn(B) -> Option<C>,
)
    requires
        forall|k: int| 0 <= k < s.len() ==> h(g(#[trigger] s[k])) == f(s[k]),
    ensures
        s.map_values(g).filter_map(h) == s.filter_map(f),
    decreases s.len(),
{
    if s.len() > 0 {
        let t = s.drop_last();
        assert(s.map_values(g).drop_last() =~= t.map_values(g));
        assert(s.map_values(g).last() == g(s.last()));
        assert(h(g(s[s.len() - 1])) == f(s[s.len() - 1]));
        lemma_filter_map_map_values(t, g, f, h);
    } else {
        assert(s.map_values(g) =~= Seq::<B>::empty());
    }
}

/// When `f` keeps every element, `filter_map` after removing the
/// element at `i` is `filter_map` with its result at `i` removed.
pub proof fn lemma_filter_map_remove<A, B>(s: Seq<A>, f: spec_fn(A) -> Option<B>, i: int)
    requires
        0 <= i < s.len(),
        forall|k: int| 0 <= k < s.len() ==> (#[trigger] f(s[k])) is Some,
    ensures
        s.remove(i).filter_map(f) == s.filter_map(f).remove(i),
{
    let a = s.take(i);
    let b = s.skip(i + 1);
    assert(s =~= a + seq![s[i]] + b);
    assert(s.remove(i) =~= a + b);
    assert forall|k: int| 0 <= k < a.len() implies (#[trigger] f(a[k])) is Some by {
        assert(a[k] == s[k]);
    }
    crate::queue_view::lemma_filter_map_len(a, f);
    lemma_filter_map_add(a, b, f);
    lemma_filter_map_add(a + seq![s[i]], b, f);
    lemma_filter_map_add(a, seq![s[i]], f);
    Seq::lemma_filter_map_singleton(s[i], f);
    assert(s.filter_map(f).remove(i) =~= a.filter_map(f) + b.filter_map(f));
}

/// When `f` keeps every element, `filter_map` is a plain map.
pub proof fn lemma_filter_map_all<A, B>(s: Seq<A>, f: spec_fn(A) -> Option<B>)
    requires
        forall|k: int| 0 <= k < s.len() ==> (#[trigger] f(s[k])) is Some,
    ensures
        s.filter_map(f) == s.map_values(|x: A| f(x)->0),
    decreases s.len(),
{
    if s.len() > 0 {
        let d = s.drop_last();
        assert forall|k: int| 0 <= k < d.len() implies (#[trigger] f(d[k])) is Some by {
            assert(d[k] == s[k]);
        }
        lemma_filter_map_all(d, f);
        assert(f(s[s.len() - 1]) is Some);
        assert(s.map_values(|x: A| f(x)->0) =~= d.map_values(|x: A| f(x)->0).push(f(s.last())->0));
    } else {
        assert(s.map_values(|x: A| f(x)->0) =~= Seq::<B>::empty());
    }
}

/// Picking after a map is mapping after picking.
pub proof fn lemma_picked_map<A, B>(s: Seq<A>, sel: spec_fn(int) -> bool, g: spec_fn(A) -> B)
    ensures
        crate::queue_view::picked(s.map_values(g), sel) == crate::queue_view::picked(s, sel).map_values(g),
    decreases s.len(),
{
    if s.len() > 0 {
        let d = s.drop_last();
        assert(s.map_values(g).drop_last() =~= d.map_values(g));
        lemma_picked_map(d, sel, g);
        let pd = crate::queue_view::picked(d, sel);
        assert(pd.push(s.last()).map_values(g) =~= pd.map_values(g).push(g(s.last())));
    } else {
        assert(s.map_values(g) =~= Seq::<B>::empty());
        assert(crate::queue_view::picked(s, sel).map_values(g) =~= Seq::<B>::empty());
    }
}

} // verus!
