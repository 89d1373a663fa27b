//! The playback position's arithmetic: samples played to a span of
//! time, a span back to samples, and a seek's base plus what played
//! since.
use vstd::prelude::*;
use crate::model::Span;

verus! {

/// One second in nanoseconds.
pub const NANOS_PER_SEC: u64 = 1_000_000_000;

/// The span that `samples` last at `samples_per_second` (samples of
/// every channel counted): whole seconds, then the nanoseconds of the
/// remainder, rounded down; zero for a rate of zero.
pub open spec fn played_span(samples: u64, samples_per_second: u64) -> Span {
    if samples_per_second == 0 {
        Span { secs: 0, nanos: 0 }
    } else {
        Span {
            secs: (samples / samples_per_second) as u64,
            nanos: ((samples % samples_per_second) * 1_000_000_000 / (samples_per_second as int)) as u32,
        }
    }
}

/// How long `samples` take to play at `samples_per_second`.
pub fn played_duration(samples: u64, samples_per_second: u64) -> (r: Span)
    requires
        samples_per_second > 0 ==> (samples % samples_per_second) * 1_000_000_000 <= u64::MAX,
    ensures
        r == played_span(samples, samples_per_second),
        r.wf(),
{
    if samples_per_second == 0 {
        return Span { secs: 0, nanos: 0 };
    }
    let seconds = samples / samples_per_second;
    let remainder = samples % samples_per_second;
    let nanos = remainder * NANOS_PER_SEC / samples_per_second;
    proof {
        assert(remainder < samples_per_second);
        assert(remainder * 1_000_000_000 < samples_per_second * 1_000_000_000) by (nonlinear_arith)
            requires
                remainder < samples_per_second,
        ;
        assert(remainder * 1_000_000_000 / (samples_per_second as int) < 1_000_000_000) by (nonlinear_arith)
            requires
                remainder * 1_000_000_000 < samples_per_second * 1_000_000_000,
                samples_per_second > 0,
        ;
    }
    Span { secs: seconds, nanos: nanos as u32 }
}

/// The samples played by `position` at `samples_per_second`: the
/// whole seconds' samples, then the fraction's, rounded down.
pub open spec fn samples_spec(position: Span, samples_per_second: u64) -> int {
    position.secs * samples_per_second + position.nanos * samples_per_second / 1_000_000_000
}

/// The sample count at `position`, the inverse of `played_duration`
/// up to rounding.
pub fn samples_at(position: Span, samples_per_second: u64) -> (r: u64)
    requires
        position.wf(),
        position.total_nanos() <= u64::MAX,
        position.secs * samples_per_second + position.nanos * samples_per_second <= u64::MAX,
    ensures
        r == samples_spec(position, samples_per_second),
{
    let total = position.secs * NANOS_PER_SEC + position.nanos as u64;
    let secs = total / NANOS_PER_SEC;
    let nanos = total % NANOS_PER_SEC;
    proof {
        assert(secs == position.secs && nanos == position.nanos) by (nonlinear_arith)
            requires
                total == position.secs * 1_000_000_000 + position.nanos,
                position.nanos < 1_000_000_000,
                secs == total / 1_000_000_000,
                nanos == total % 1_000_000_000,
        ;
        assert(secs * samples_per_second + nanos * samples_per_second <= u64::MAX);
        assert(nanos * samples_per_second <= u64::MAX) by (nonlinear_arith)
            requires
                secs * samples_per_second + nanos * samples_per_second <= u64::MAX,
                secs * samples_per_second >= 0,
        ;
        assert(nanos * samples_per_second / 1_000_000_000 <= nanos * samples_per_second) by (
        nonlinear_arith)
            requires
                nanos * samples_per_second >= 0,
        ;
    }
    secs * samples_per_second + nanos * samples_per_second / NANOS_PER_SEC
}

/// `base` plus `extra`, carrying whole seconds out of the nanoseconds.
pub open spec fn span_sum(base: Span, extra: Span) -> Span {
    let nanos = base.nanos + extra.nanos;
    if nanos >= 1_000_000_000 {
        Span { secs: (base.secs + extra.secs + 1) as u64, nanos: (nanos - 1_000_000_000) as u32 }
    } else {
        Span { secs: (base.secs + extra.secs) as u64, nanos: nanos as u32 }
    }
}

/// The sum of two spans fits a span's seconds (else `Duration`
/// addition panics).
pub open spec fn sum_fits(base: Span, extra: Span) -> bool {
    base.secs + extra.secs + (if base.nanos + extra.nanos >= 1_000_000_000 {
        1int
    } else {
        0int
    }) <= u64::MAX
}

/// The span of `nanos` nanoseconds.
pub open spec fn nanos_span(nanos: u64) -> Span {
    Span { secs: (nanos / 1_000_000_000) as u64, nanos: (nanos % 1_000_000_000) as u32 }
}

/// `base` plus `extra`, as `Duration` addition gives it.
pub fn add_spans(base: Span, extra: Span) -> (r: Span)
    requires
        base.wf(),
        extra.wf(),
        sum_fits(base, extra),
    ensures
        r == span_sum(base, extra),
        r.wf(),
        r.total_nanos() == base.total_nanos() + extra.total_nanos(),
{
    let nanos = base.nanos + extra.nanos;
    if nanos >= 1_000_000_000 {
        Span { secs: base.secs + extra.secs + 1, nanos: nanos - 1_000_000_000 }
    } else {
        Span { secs: base.secs + extra.secs, nanos }
    }
}

/// The playback position: where the last seek landed, plus the real
/// samples played since, at `samples_per_second`.
pub fn position_from(base_nanos: u64, samples: u64, samples_per_second: u64) -> (r: Span)
    requires
        samples_per_second > 0 ==> (samples % samples_per_second) * 1_000_000_000 <= u64::MAX,
        sum_fits(nanos_span(base_nanos), played_span(samples, samples_per_second)),
    ensures
        r.wf(),
        r.total_nanos() == base_nanos + played_span(samples, samples_per_second).total_nanos(),
{
    let base = Span { secs: base_nanos / NANOS_PER_SEC, nanos: (base_nanos % NANOS_PER_SEC) as u32 };
    let played = played_duration(samples, samples_per_second);
    assert(base == nanos_span(base_nanos));
    add_spans(base, played)
}

/// Reading back the samples of the span that `samples` play for gives
/// the same count, or one fewer when the span's nanoseconds were
/// rounded down; at rates up to a billion per second nothing more is
/// lost. (At 96 kHz, one sample plays for 10416 ns, which reads back
/// as none.)
pub proof fn law_samples_round_trip(samples: u64, samples_per_second: u64)
    requires
        0 < samples_per_second <= 1_000_000_000,
    ensures
        ({
            let back = samples_spec(played_span(samples, samples_per_second), samples_per_second);
            back == samples || back == samples - 1
        }),
        (samples % samples_per_second) * 1_000_000_000 % (samples_per_second as int) == 0
            ==> samples_spec(played_span(samples, samples_per_second), samples_per_second)
            == samples,
{
    let sps = samples_per_second as int;
    let q = samples / samples_per_second;
    let r = samples % samples_per_second;
    let n = r * 1_000_000_000 / sps;
    assert(samples == q * sps + r) by (nonlinear_arith)
        requires
            sps > 0,
            q == samples / samples_per_second,
            r == samples % samples_per_second,
            sps == samples_per_second,
    ;
    assert(r < sps);
    assert(n * sps <= r * 1_000_000_000 < n * sps + sps) by (nonlinear_arith)
        requires
            sps > 0,
            n == r * 1_000_000_000 / sps,
            r >= 0,
    ;
    assert(n < 1_000_000_000) by (nonlinear_arith)
        requires
            n * sps <= r * 1_000_000_000,
            r < sps,
            sps > 0,
            n >= 0,
    ;
    let back_frac = n * sps / 1_000_000_000;
    assert(back_frac == r || back_frac == r - 1) by (nonlinear_arith)
        requires
            n * sps <= r * 1_000_000_000 < n * sps + sps,
            sps <= 1_000_000_000,
            back_frac == n * sps / 1_000_000_000,
            n >= 0,
            r >= 0,
            sps > 0,
    ;
    if (r * 1_000_000_000) % sps == 0 {
        assert(n * sps == r * 1_000_000_000) by (nonlinear_arith)
            requires
                sps > 0,
                n == r * 1_000_000_000 / sps,
                (r * 1_000_000_000) % sps == 0,
        ;
        assert(back_frac == r) by (nonlinear_arith)
            requires
                n * sps == r * 1_000_000_000,
                back_frac == n * sps / 1_000_000_000,
        ;
    }
    let span = played_span(samples, samples_per_second);
    assert(span.secs == q && span.nanos == n);
}

} // verus!
