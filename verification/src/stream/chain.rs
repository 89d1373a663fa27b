//! The resolver chain's decisions: which source to try next, what an
//! attempt's outcome means for the chain, and when a source's circuit
//! breaker counts a failure.
//!
//! YouTube changes its stream protection often, so sourcing will
//! break from time to time. Sources are tried in order until one
//! delivers bytes; the fetching itself belongs to the caller, which
//! reports each attempt's outcome back here.
use vstd::prelude::*;
use crate::text::{join, join_strings, string_views};

verus! {

/// How many failures with no chunk delivered trip a source's circuit
/// breaker.
pub const TRIP_THRESHOLD: u8 = 3;

/// Counts a source's no-chunk-delivered failures across the whole
/// session. Trips once the count reaches `TRIP_THRESHOLD`, and never
/// resets: a source that keeps failing stops wasting the user's time
/// on every later track.
#[derive(Debug)]
pub struct CircuitBreaker {
    pub failures: u8,
}

impl CircuitBreaker {
    /// A breaker with no failure counted.
    pub fn new() -> (r: Self)
        ensures
            r.failures == 0,
    {
        CircuitBreaker { failures: 0 }
    }

    /// Records one failure. Returns `true` on the call that reaches
    /// the trip threshold, so the caller logs the trip exactly once.
    pub fn record_failure(&mut self) -> (r: bool)
        requires
            old(self).failures < 255,
        ensures
            final(self).failures == old(self).failures + 1,
            r == (old(self).failures + 1 == TRIP_THRESHOLD),
    {
        let previous = self.failures;
        self.failures = previous + 1;
        previous + 1 == TRIP_THRESHOLD
    }

    /// True once the breaker has tripped.
    pub fn is_open(&self) -> (r: bool)
        ensures
            r == (self.failures >= TRIP_THRESHOLD),
    {
        self.failures >= TRIP_THRESHOLD
    }
}

/// Failures counted one by one from a fresh breaker: `counts[k]` is
/// the count before the `k`-th call of `record_failure` and `reports[k]`
/// what that call returned, as its contract says.
pub open spec fn failure_trace(counts: Seq<u8>, reports: Seq<bool>) -> bool {
    &&& counts.len() == reports.len() + 1
    &&& counts[0] == 0
    &&& forall|k: int|
        0 <= k < reports.len() ==> counts[k + 1] == counts[k] + 1 && #[trigger] reports[k] == (counts[k] + 1
            == TRIP_THRESHOLD)
}

/// From a fresh breaker, the breaker is open after `n` failures exactly
/// when `n` reaches the threshold, and of the calls that counted them
/// only the third reported the trip: the trip is reported once.
pub proof fn law_breaker_trips_once(counts: Seq<u8>, reports: Seq<bool>)
    requires
        failure_trace(counts, reports),
    ensures
        forall|k: int| 0 <= k < counts.len() ==> #[trigger] counts[k] == k,
        (counts.last() >= TRIP_THRESHOLD) == (reports.len() >= TRIP_THRESHOLD),
        forall|k: int| 0 <= k < reports.len() ==> #[trigger] reports[k] == (k + 1 == TRIP_THRESHOLD),
{
    assert forall|k: int| 0 <= k < counts.len() implies #[trigger] counts[k] == k by {
        lemma_trace_count(counts, reports, k);
    }
    assert forall|k: int| 0 <= k < reports.len() implies #[trigger] reports[k] == (k + 1 == TRIP_THRESHOLD) by {
        lemma_trace_count(counts, reports, k);
    }
    lemma_trace_count(counts, reports, counts.len() - 1);
}

proof fn lemma_trace_count(counts: Seq<u8>, reports: Seq<bool>, k: int)
    requires
        failure_trace(counts, reports),
        0 <= k < counts.len(),
    ensures
        counts[k] == k,
    decreases k,
{
    if k > 0 {
        lemma_trace_count(counts, reports, k - 1);
        assert(reports[k - 1] == (counts[k - 1] + 1 == TRIP_THRESHOLD));
    }
}

/// The text of a chain that ran out of sources.
pub open spec fn joined_failures(failures: Seq<Seq<char>>) -> Seq<char> {
    if failures.len() == 0 {
        ALL_TRIPPED@
    } else {
        NO_SOURCE@ + join(failures, " / "@)
    }
}

/// The message of a chain whose every source was skipped.
pub const ALL_TRIPPED: &'static str =
    "No source produced audio. Every source is tripped by earlier failures.";

/// The opening of a chain failure's message.
pub const NO_SOURCE: &'static str = "No source produced audio. ";

/// A single message that names every source failure, for the final
/// failure of the buffer when the whole chain runs out of sources.
pub fn join_failures(failures: &[String]) -> (r: String)
    ensures
        r@ == joined_failures(string_views(failures@)),
{
    if failures.len() == 0 {
        return ALL_TRIPPED.to_owned();
    }
    let mut message = NO_SOURCE.to_owned();
    let joined = join_strings(failures, " / ");
    message.append(joined.as_str());
    message
}

/// What one source attempt means for the chain.
#[derive(Debug, PartialEq, Eq)]
pub enum Attempt {
    /// The source finished the buffer. The chain stops here.
    Succeeded,
    /// The source failed after it delivered bytes. The buffer is
    /// already failed, so the chain stops here too.
    EndedTheChain(String),
    /// The source failed before it delivered any bytes. The chain
    /// tries the next source.
    Continue(String),
}

/// What an attempt's outcome means, given whether the buffer had
/// received any bytes.
pub fn classify(outcome: Result<(), String>, delivered_any: bool) -> (r: Attempt)
    ensures
        match outcome {
            Ok(_) => r == Attempt::Succeeded,
            Err(m) => if delivered_any {
                r == Attempt::EndedTheChain(m)
            } else {
                r == Attempt::Continue(m)
            },
        },
{
    match outcome {
        Ok(()) => Attempt::Succeeded,
        Err(message) => if delivered_any {
            Attempt::EndedTheChain(message)
        } else {
            Attempt::Continue(message)
        },
    }
}

/// What the caller does next.
#[derive(Debug, PartialEq, Eq)]
pub enum ChainStep {
    /// Hand the download to the source at this index.
    Try(usize),
    /// A source completed the buffer; the sources at these indices
    /// tripped their breakers on this run.
    Succeeded(Vec<usize>),
    /// A source failed after it delivered bytes: return its error.
    Ended(String),
    /// No source delivered: fail the buffer with this message, and
    /// return it.
    Exhausted(String),
}

/// One run of the chain over one video: where it stands, the failures
/// so far, and the sources that failed before any bytes.
pub struct ChainRun {
    /// The source being tried.
    pub current: usize,
    /// Each skipped source's failure, as "name: message".
    pub failures: Vec<String>,
    /// The sources that failed before any bytes, in the order tried.
    pub skipped: Vec<usize>,
}

/// The breakers of a chain, one per source, in the order tried.
pub struct ChainBreakers {
    pub breakers: Vec<CircuitBreaker>,
}

/// The failure counts of the breakers.
pub open spec fn counts(b: Seq<CircuitBreaker>) -> Seq<u8> {
    b.map_values(|c: CircuitBreaker| c.failures)
}

/// The first source at or after `from` whose breaker is closed.
pub open spec fn next_closed(b: Seq<CircuitBreaker>, from: int) -> Option<int>
    decreases b.len() - from,
{
    if from < 0 || from >= b.len() {
        None
    } else if b[from].failures < TRIP_THRESHOLD {
        Some(from)
    } else {
        next_closed(b, from + 1)
    }
}

/// The failure counts after a success: one more for every skipped source.
pub open spec fn counted_after_success(old_counts: Seq<u8>, skipped: Seq<usize>) -> Seq<int> {
    Seq::new(
        old_counts.len(),
        |i: int|
            if skipped.contains(i as usize) {
                old_counts[i] + 1
            } else {
                old_counts[i] as int
            },
    )
}

/// The skipped sources whose count reaches the threshold with this
/// success, in the order tried.
pub open spec fn tripped_by(old_counts: Seq<u8>, skipped: Seq<usize>) -> Seq<usize> {
    skipped.filter(|s: usize| old_counts[s as int] + 1 == TRIP_THRESHOLD)
}

impl ChainRun {
    /// The run is consistent with `breakers`: it stands at a source,
    /// and every skipped source was tried before it, once, with its
    /// breaker closed.
    pub open spec fn wf(&self, breakers: Seq<CircuitBreaker>) -> bool {
        &&& self.current < breakers.len()
        &&& breakers[self.current as int].failures < TRIP_THRESHOLD
        &&& forall|t: int| 0 <= t < self.skipped@.len() ==> #[trigger] self.skipped@[t] < self.current
        &&& forall|s: int, t: int|
            0 <= s < t < self.skipped@.len() ==> self.skipped@[s] < self.skipped@[t]
        &&& forall|t: int|
            0 <= t < self.skipped@.len() ==> breakers[#[trigger] self.skipped@[t] as int].failures
                < TRIP_THRESHOLD
    }
}

impl ChainBreakers {
    /// A chain of `n` sources, each with a fresh breaker.
    pub fn new(n: usize) -> (r: Self)
        ensures
            r.breakers@.len() == n,
            forall|i: int| 0 <= i < n ==> #[trigger] r.breakers@[i].failures == 0,
    {
        let mut breakers: Vec<CircuitBreaker> = Vec::new();
        let mut i: usize = 0;
        while i < n
            invariant
                i <= n,
                breakers@.len() == i,
                forall|k: int| 0 <= k < i ==> #[trigger] breakers@[k].failures == 0,
            decreases n - i,
        {
            breakers.push(CircuitBreaker::new());
            i = i + 1;
        }
        ChainBreakers { breakers }
    }

    /// The first source at or after `from` whose breaker is closed.
    pub fn next_closed_from(&self, from: usize) -> (r: Option<usize>)
        ensures
            match r {
                Some(i) => next_closed(self.breakers@, from as int) == Some(i as int),
                None => next_closed(self.breakers@, from as int) is None,
            },
    {
        let n = self.breakers.len();
        let mut i = from;
        while i < n
            invariant
                from <= i,
                n == self.breakers@.len(),
                next_closed(self.breakers@, from as int) == next_closed(self.breakers@, i as int),
            decreases n - i,
        {
            if !self.breakers[i].is_open() {
                return Some(i);
            }
            i = i + 1;
        }
        None
    }

    /// Starts a run over one video: the first source with a closed
    /// breaker, or, when every breaker is open, the chain's failure.
    pub fn start(&self) -> (r: (Option<ChainRun>, ChainStep))
        ensures
            match next_closed(self.breakers@, 0) {
                Some(i) => {
                    &&& r.1 == ChainStep::Try(i as usize)
                    &&& r.0 is Some
                    &&& r.0->0.wf(self.breakers@)
                    &&& r.0->0.current == i
                    &&& r.0->0.skipped@.len() == 0
                    &&& r.0->0.failures@.len() == 0
                },
                None => {
                    &&& r.0 is None
                    &&& r.1 is Exhausted
                    &&& r.1->Exhausted_0@ == ALL_TRIPPED@
                },
            },
    {
        match self.next_closed_from(0) {
            Some(i) => {
                let run = ChainRun { current: i, failures: Vec::new(), skipped: Vec::new() };
                proof {
                    lemma_next_closed_is_closed(self.breakers@, 0);
                }
                (Some(run), ChainStep::Try(i))
            },
            None => (None, ChainStep::Exhausted(ALL_TRIPPED.to_owned())),
        }
    }

    /// Takes the outcome of the attempt at `run.current`, from the
    /// source called `name`, and says what comes next. A source's
    /// failure counts toward its breaker only when a later source
    /// delivers the same video: a video no source can deliver is a bad
    /// video, not a broken source, and never disables the last source.
    pub fn advance(&mut self, run: &mut ChainRun, attempt: Attempt, name: &str) -> (r: ChainStep)
        requires
            old(run).wf(old(self).breakers@),
        ensures
            final(self).breakers@.len() == old(self).breakers@.len(),
            match attempt {
                Attempt::Succeeded => {
                    &&& counts(final(self).breakers@) =~= counted_after_success(
                        counts(old(self).breakers@),
                        old(run).skipped@,
                    ).map_values(|x: int| x as u8)
                    &&& r is Succeeded
                    &&& r->Succeeded_0@ == tripped_by(counts(old(self).breakers@), old(run).skipped@)
                },
                Attempt::EndedTheChain(m) => {
                    &&& final(self).breakers@ == old(self).breakers@
                    &&& r == ChainStep::Ended(m)
                },
                Attempt::Continue(m) => {
                    let failure = name@ + ": "@ + m@;
                    let failures = string_views(old(run).failures@).push(failure);
                    &&& final(self).breakers@ == old(self).breakers@
                    &&& string_views(final(run).failures@) == failures
                    &&& final(run).skipped@ == old(run).skipped@.push(old(run).current)
                    &&& match next_closed(old(self).breakers@, old(run).current + 1) {
                        Some(i) => r == ChainStep::Try(i as usize) && final(run).current == i
                            && final(run).wf(final(self).breakers@),
                        None => r is Exhausted && r->Exhausted_0@ == joined_failures(failures),
                    }
                },
            },
    {
        match attempt {
            Attempt::Succeeded => {
                let tripped = self.record_skipped(&run.skipped);
                ChainStep::Succeeded(tripped)
            },
            Attempt::EndedTheChain(message) => ChainStep::Ended(message),
            Attempt::Continue(message) => {
                let mut failure = name.to_owned();
                failure.append(": ");
                failure.append(message.as_str());
                let ghost before = run.failures@;
                run.failures.push(failure);
                proof {
                    assert(string_views(run.failures@) =~= string_views(before).push(
                        name@ + ": "@ + message@,
                    ));
                }
                let current = run.current;
                let n = self.breakers.len();
                assert(current < n);
                run.skipped.push(current);
                match self.next_closed_from(current + 1) {
                    Some(i) => {
                        run.current = i;
                        proof {
                            lemma_next_closed_is_closed(self.breakers@, current + 1);
                        }
                        ChainStep::Try(i)
                    },
                    None => ChainStep::Exhausted(join_failures(run.failures.as_slice())),
                }
            },
        }
    }

    /// Counts one failure on every skipped source; returns the ones that
    /// tripped, in order.
    fn record_skipped(&mut self, skipped: &Vec<usize>) -> (r: Vec<usize>)
        requires
            forall|t: int| 0 <= t < skipped@.len() ==> #[trigger] skipped@[t] < old(self).breakers@.len(),
            forall|s: int, t: int| 0 <= s < t < skipped@.len() ==> skipped@[s] < skipped@[t],
            forall|t: int|
                0 <= t < skipped@.len() ==> old(self).breakers@[#[trigger] skipped@[t] as int].failures
                    < TRIP_THRESHOLD,
        ensures
            final(self).breakers@.len() == old(self).breakers@.len(),
            counts(final(self).breakers@) =~= counted_after_success(
                counts(old(self).breakers@),
                skipped@,
            ).map_values(|x: int| x as u8),
            r@ == tripped_by(counts(old(self).breakers@), skipped@),
    {
        let ghost old_counts = counts(self.breakers@);
        let mut tripped: Vec<usize> = Vec::new();
        let mut t: usize = 0;
        while t < skipped.len()
            invariant
                t <= skipped@.len(),
                self.breakers@.len() == old_counts.len(),
                forall|u: int| 0 <= u < skipped@.len() ==> #[trigger] skipped@[u] < old_counts.len(),
                forall|a: int, b: int| 0 <= a < b < skipped@.len() ==> skipped@[a] < skipped@[b],
                forall|u: int|
                    0 <= u < skipped@.len() ==> old_counts[#[trigger] skipped@[u] as int] < TRIP_THRESHOLD,
                forall|i: int|
                    0 <= i < old_counts.len() ==> #[trigger] self.breakers@[i].failures == if skipped@.take(
                        t as int,
                    ).contains(i as usize) {
                        old_counts[i] + 1
                    } else {
                        old_counts[i] as int
                    },
                tripped@ == tripped_by(old_counts, skipped@.take(t as int)),
            decreases skipped@.len() - t,
        {
            let s = skipped[t];
            proof {
                assert(!skipped@.take(t as int).contains(s)) by {
                    if skipped@.take(t as int).contains(s) {
                        let pre0 = skipped@.take(t as int);
                        let u = choose|u: int| 0 <= u < pre0.len() && #[trigger] pre0[u] == s;
                        assert(skipped@[u] < skipped@[t as int]);
                    }
                }
                assert(skipped@.take(t + 1) =~= skipped@.take(t as int).push(s));
                assert(self.breakers@[s as int].failures == old_counts[s as int]);
            }
            let mut breaker = CircuitBreaker { failures: self.breakers[s].failures };
            let reached = breaker.record_failure();
            self.breakers.set(s, breaker);
            if reached {
                tripped.push(s);
            }
            proof {
                let p = |x: usize| old_counts[x as int] + 1 == TRIP_THRESHOLD;
                assert(skipped@.take(t + 1).drop_last() =~= skipped@.take(t as int));
                assert(tripped@ == skipped@.take(t + 1).filter(p)) by {
                    reveal(Seq::filter);
                }
                assert forall|i: int| 0 <= i < old_counts.len() implies #[trigger] self.breakers@[i].failures
                    == if skipped@.take(t + 1).contains(i as usize) {
                    old_counts[i] + 1
                } else {
                    old_counts[i] as int
                } by {
                    let pre0 = skipped@.take(t as int);
                    let pre1 = skipped@.take(t + 1);
                    assert(self.breakers@.len() <= usize::MAX) by {
                        broadcast use vstd::std_specs::vec::axiom_spec_len;

                        assert(self.breakers.len() == self.breakers@.len());
                    }
                    assert((i as usize) as int == i);
                    if i != s {
                        if pre1.contains(i as usize) {
                            let u = choose|u: int| 0 <= u < pre1.len() && #[trigger] pre1[u] == i as usize;
                            assert(pre1[t as int] == s);
                            assert(u != t);
                            assert(pre0[u] == i as usize);
                        }
                        if pre0.contains(i as usize) {
                            let u = choose|u: int| 0 <= u < pre0.len() && #[trigger] pre0[u] == i as usize;
                            assert(pre1[u] == i as usize);
                        }
                    } else {
                        assert(skipped@.take(t + 1)[t as int] == s);
                    }
                }
            }
            t = t + 1;
        }
        proof {
            assert(skipped@.take(skipped@.len() as int) =~= skipped@);
        }
        tripped
    }
}

/// The source that `next_closed` finds has a closed breaker and stands
/// at or after the start.
pub proof fn lemma_next_closed_is_closed(b: Seq<CircuitBreaker>, from: int)
    ensures
        match next_closed(b, from) {
            Some(i) => from <= i < b.len() && b[i].failures < TRIP_THRESHOLD,
            None => true,
        },
    decreases b.len() - from,
{
    if 0 <= from < b.len() && b[from].failures >= TRIP_THRESHOLD {
        lemma_next_closed_is_closed(b, from + 1);
    }
}

} // verus!
