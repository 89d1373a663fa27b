//! The source of random indices that shuffles draw from.
//!
//! The queue takes a source as a parameter, so its shuffle stays
//! deterministic in tests and the real randomness lives at the top
//! level.
use vstd::prelude::*;

verus! {

/// A source of random indices: `random_below(n)` returns a value in
/// `0..n`. Each bound asked for joins the record of requests, and each
/// value returned the record of draws.
pub trait RandomBelow {
    /// Every value this source has returned, oldest first. A source
    /// that keeps no record reports none; its `random_below` then
    /// cannot meet the contract below, so a verified source keeps one.
    open spec fn draws(&self) -> Seq<usize> {
        Seq::empty()
    }

    /// Every bound this source was asked for, oldest first; kept the
    /// same way as `draws`.
    open spec fn asked(&self) -> Seq<usize> {
        Seq::empty()
    }

    fn random_below(&mut self, n: usize) -> (r: usize)
        requires
            n > 0,
        ensures
            r < n,
            final(self).draws() == old(self).draws().push(r),
            final(self).asked() == old(self).asked().push(n),
    ;
}

/// What a source has recorded: the values it returned and the bounds
/// it was asked for.
pub open spec fn record<R: RandomBelow>(r: R) -> (Seq<usize>, Seq<usize>) {
    (r.draws(), r.asked())
}

/// The process-wide generator of the `fastrand` crate, with a record
/// of the bounds it was asked for and the values it handed out.
pub struct FastRand {
    drawn: Ghost<Seq<usize>>,
    bounds: Ghost<Seq<usize>>,
}

impl FastRand {
    /// A source that has drawn nothing yet.
    pub fn new() -> (r: Self)
        ensures
            r.draws() == Seq::<usize>::empty(),
            r.asked() == Seq::<usize>::empty(),
    {
        FastRand { drawn: Ghost(Seq::empty()), bounds: Ghost(Seq::empty()) }
    }
}

/// Calls `fastrand::usize(..n)`. Its documentation promises a value in
/// the range and a panic on an empty range, which `requires` leaves out.
/// Which value comes back is chance, so nothing more is stated.
#[verifier::external_body]
fn fastrand_below(n: usize) -> (r: usize)
    requires
        n > 0,
    ensures
        r < n,
{
    fastrand::usize(..n)
}

impl RandomBelow for FastRand {
    closed spec fn draws(&self) -> Seq<usize> {
        self.drawn@
    }

    closed spec fn asked(&self) -> Seq<usize> {
        self.bounds@
    }

    fn random_below(&mut self, n: usize) -> (r: usize) {
        let r = fastrand_below(n);
        self.drawn = Ghost(self.drawn@.push(r));
        self.bounds = Ghost(self.bounds@.push(n));
        r
    }
}

} // verus!
