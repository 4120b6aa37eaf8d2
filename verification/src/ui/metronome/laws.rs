//! What tapping along comes to.

use vstd::prelude::*;
use vstd::std_specs::ops::DivSpec;

use crate::analysis::bpm::laws::reads_count;
use crate::reading::{
    about, about_sum, apart, product_from_zero, quotient_times_divisor, reads, regroup, spread,
    within_product, within_real,
};
use crate::sample::{clamped, count, finite, lt, num, Sample};
use crate::ui::metronome::{interval, intervals, seconds, tapped, MAX_BPM, MAX_TAPS, MIN_BPM};

verus! {

/// Seconds are what they should be.
pub open spec fn reads_seconds<S: Sample>(value: spec_fn(S) -> real, ns: nat, err: real) -> bool {
    about(value, seconds::<S>(ns), ns as real / 1_000_000_000real, err)
}

/// A span of nanoseconds comes to its thousand-millionth part in seconds.
pub proof fn nanoseconds_make_seconds<S: Sample>(
    value: spec_fn(S) -> real,
    top: real,
    err: real,
    ns: nat,
)
    requires
        reads(value, top, err),
        ns <= 1_000_000_000_000,
        top >= 2048real,
        err <= 1real,
        forall|n: nat| n <= 1_000_000_000 ==> #[trigger] reads_count::<S>(value, n),
    ensures
        reads_seconds::<S>(value, ns, 2real * err),
{
    let g: nat = 1_000_000_000;
    let q = ns / g;
    let r = ns % g;
    assert(ns == g * q + r);
    assert(reads_count::<S>(value, q) && reads_count::<S>(value, r) && reads_count::<S>(value, g));
    let part = count::<S>(r).div_spec(count::<S>(g));
    assert(0real <= r as real / 1_000_000_000real <= 1real);
    assert(about(value, part, r as real / 1_000_000_000real, err));
    let (qr, rr) = (q as real, r as real / 1_000_000_000real);
    about_sum(value, top, err, count::<S>(q), qr, 0real, part, rr, err);
    assert(ns as real == 1_000_000_000real * (q as real) + r as real);
}

/// The tempo of some taps, where it lies within the range of tempos, times the
/// time from the first to the last is sixty times the number of intervals.
pub proof fn taps_fill_a_minute<S: Sample>(
    value: spec_fn(S) -> real,
    top: real,
    err: real,
    taps: Seq<u64>,
)
    requires
        reads(value, top, err),
        top >= 65536real,
        err <= 1real / 1024real,
        2 <= taps.len() <= MAX_TAPS,
        forall|i: int| 0 <= i < taps.len() - 1 ==> #[trigger] taps[i] <= taps[i + 1],
        20_000_000 * (taps.len() - 1) <= taps.last() - taps[0] <= 60_000_000_000,
        reads_count::<S>(value, (taps.len() - 1) as nat),
        forall|ns: nat| ns <= 60_000_000_000 ==> #[trigger] reads_seconds::<S>(value, ns, err),
        tapped::<S>(taps) is Some,
        lt(num(MIN_BPM), tapped::<S>(taps)->0),
        lt(tapped::<S>(taps)->0, num(MAX_BPM)),
    ensures
        ({
            let n = (taps.len() - 1) as real;
            let span = (taps.last() - taps[0]) as real / 1_000_000_000real;
            apart(value(tapped::<S>(taps)->0) * span, 60real * n) <= 20000real * err
        }),
{
    let n = (taps.len() - 1) as nat;
    let nr = n as real;
    sum_of_taps(value, top, err, taps, n);
    let span = (taps.last() - taps[0]) as real / 1_000_000_000real;
    let sum = intervals::<S>(taps, n);
    let c = count::<S>(n);
    let sv = value(sum);
    errors_of(nr, err);
    product_from_zero(nr, 1real / 1024real - err);
    spread(1real / 1024real, err, nr);
    regroup(nr, err, 0real);
    assert(nr / 50real <= span <= 60real);
    quotient_times_divisor(sv, nr);
    let q = sv / nr;
    quotient_within(sv, nr, 100real);
    quotient_from(sv, nr, q);
    let mean = sum.div_spec(c);
    assert(about(value, mean, q, err));
    let m = value(mean);
    assert(1real / 100real <= m <= 101real);
    let t = tapped::<S>(taps)->0;
    let raw = num::<S>(60).div_spec(mean);
    let (lo, hi) = (num::<S>(MIN_BPM), num::<S>(MAX_BPM));
    assert(t == clamped(raw, lo, hi));
    assert(finite(lo) && finite(hi) && !lt(lo, lo) && !lt(hi, hi));
    assert(t == raw);
    assert(value(num::<S>(60)) == 60real);
    quotient_times_divisor(60real, m);
    let exact = 60real / m;
    assert(within_real(exact, 6000real)) by {
        let rest = m - 1real / 100real;
        spread(m, 1real / 100real, exact);
        regroup(exact, rest, 0real);
        regroup(exact, m, 0real);
        if exact > 6000real {
            product_from_zero(exact, rest);
        } else if exact < -6000real {
            product_from_zero(-exact, m);
            spread(exact, 0real, m);
        }
    }
    assert(about(value, raw, exact, err));
    let tv = value(t);
    assert(value(hi) == (MAX_BPM as int) as real && value(lo) == (MIN_BPM as int) as real);
    assert(0real <= tv <= 400real);
    tempo_times_span(tv, exact, m, q, nr, sv, span, err);
}

proof fn errors_of(n: real, err: real)
    requires
        0real <= n <= 8real,
        0real <= err,
    ensures
        0real <= n * err <= 8real * err,
{
    product_from_zero(n, err);
    product_from_zero(8real - n, err);
    spread(8real, n, err);
}

/// A mean is not below its share.
proof fn quotient_from(x: real, n: real, q: real)
    requires
        q * n == x,
        1real <= n <= 8real,
        x >= n / 64real,
    ensures
        q >= 1real / 64real,
{
    let b = 1real / 64real;
    if q < b {
        product_from_zero(b - q, n - 1real);
        spread(b, q, n - 1real);
        spread(n, 1real, b);
        spread(n, 1real, q);
        regroup(q, n, 0real);
        regroup(b, n, 0real);
        regroup(q, n - 1real, 0real);
        regroup(b, n - 1real, 0real);
    }
}

proof fn tempo_times_span(
    t: real,
    exact: real,
    m: real,
    q: real,
    n: real,
    sum: real,
    span: real,
    err: real,
)
    requires
        0real <= t <= 400real,
        apart(t, exact) <= err,
        exact * m == 60real,
        1real / 100real <= m <= 101real,
        apart(m, q) <= err,
        1real <= n <= 8real,
        q * n == sum,
        apart(span, sum) <= 16real * err,
        0real <= err,
    ensures
        apart(t * span, 60real * n) <= 20000real * err,
{
    let d = t - exact;
    within_product(d, m, err, 101real);
    spread(exact, d, m);
    let g = q - m;
    within_product(t, g, 400real, err);
    spread(m, g, t);
    regroup(err, 101real, 0real);
    let off = t * q - 60real;
    assert(within_real(off, 501real * err));
    within_product(off, n, 501real * err, 8real);
    spread(60real, off, n);
    regroup(t, q, n);
    let far = span - sum;
    within_product(t, far, 400real, 16real * err);
    spread(sum, far, t);
    regroup(501real * err, 8real, 0real);
    assert(t * span == 60real * n + off * n + t * far);
}

/// The time from the first tap to the `n`th after it.
proof fn sum_of_taps<S: Sample>(
    value: spec_fn(S) -> real,
    top: real,
    err: real,
    taps: Seq<u64>,
    n: nat,
)
    requires
        reads(value, top, err),
        top >= 65536real,
        err <= 1real / 1024real,
        2 <= taps.len() <= MAX_TAPS,
        n < taps.len(),
        forall|i: int| 0 <= i < taps.len() - 1 ==> #[trigger] taps[i] <= taps[i + 1],
        taps.last() - taps[0] <= 60_000_000_000,
        forall|ns: nat| ns <= 60_000_000_000 ==> #[trigger] reads_seconds::<S>(value, ns, err),
    ensures
        taps[0] <= taps[n as int] <= taps.last(),
        about(
            value,
            intervals::<S>(taps, n),
            (taps[n as int] - taps[0]) as real / 1_000_000_000real,
            2real * (n as real * err),
        ),
    decreases n,
{
    taps_rise(taps, n as int);
    let nr = n as real;
    if n == 0 {
        assert(value(num::<S>(0)) == 0real);
        assert(0real * err == 0real);
    } else {
        let m = (n - 1) as nat;
        let mr = m as real;
        sum_of_taps(value, top, err, taps, m);
        taps_rise(taps, m as int);
        let gap = interval(taps, m as int);
        assert(taps[m as int] <= taps[m as int + 1]);
        assert(reads_seconds::<S>(value, gap, err));
        assert(nr == mr + 1real);
        spread(mr, 1real, err);
        errors_of(mr, err);
        about_sum(
            value,
            top,
            err,
            intervals::<S>(taps, m),
            (taps[m as int] - taps[0]) as real / 1_000_000_000real,
            2real * (mr * err),
            seconds::<S>(gap),
            gap as real / 1_000_000_000real,
            err,
        );
    }
}

proof fn taps_rise(taps: Seq<u64>, n: int)
    requires
        0 <= n < taps.len(),
        forall|i: int| 0 <= i < taps.len() - 1 ==> #[trigger] taps[i] <= taps[i + 1],
    ensures
        taps[0] <= taps[n] <= taps.last(),
    decreases taps.len() - n,
{
    if n + 1 < taps.len() {
        taps_rise(taps, n + 1);
        assert(taps[n] <= taps[n + 1]);
    }
    from_first(taps, n);
}

proof fn from_first(taps: Seq<u64>, n: int)
    requires
        0 <= n < taps.len(),
        forall|i: int| 0 <= i < taps.len() - 1 ==> #[trigger] taps[i] <= taps[i + 1],
    ensures
        taps[0] <= taps[n],
    decreases n,
{
    if n > 0 {
        from_first(taps, n - 1);
        assert(taps[n - 1] <= taps[n - 1 + 1]);
    }
}

proof fn quotient_within(x: real, y: real, b: real)
    requires
        within_real(x, b),
        1real <= y,
        0real <= b,
    ensures
        within_real(x / y, b),
{
    quotient_times_divisor(x, y);
    let q = x / y;
    let rest = y - 1real;
    spread(y, 1real, q);
    regroup(q, rest, 0real);
    regroup(q, y, 0real);
    if q > b {
        product_from_zero(q, rest);
    } else if q < -b {
        product_from_zero(-q, rest);
        spread(q, 0real, rest);
    }
}

} // verus!
