//! How tempos and the distances of beats go together.

use vstd::prelude::*;
use vstd::std_specs::ops::{AddSpec, DivSpec, MulSpec};

use crate::analysis::bpm::{
    best_octave, bpm_at, lag_for, likeness, octave, octave_score, onset_rate, products, MAX_LAG,
};
use crate::reading::{
    about, about_product, about_sum, apart, product_from_zero, quotient_times_divisor, reads,
    regroup, spread, within_product, within_real,
};
use crate::sample::{count, finite, half, lt, nearest_count, num, order_laws, Sample};

verus! {

/// A count is read exactly.
pub open spec fn reads_count<S: Sample>(value: spec_fn(S) -> real, n: nat) -> bool {
    finite(count::<S>(n)) && value(count::<S>(n)) == n as real
}

/// Beats `lag` spectra apart, at the tempo that goes with this, fill a minute:
/// tempo times distance is sixty times the spectra of a second.
pub proof fn beats_fill_a_minute<S: Sample>(
    value: spec_fn(S) -> real,
    top: real,
    err: real,
    rate: S,
    lag: nat,
)
    requires
        reads(value, top, err),
        finite(rate),
        0real <= value(rate),
        60real * value(rate) + err <= top,
        0 < lag,
        reads_count::<S>(value, lag),
    ensures
        finite(bpm_at(rate, lag as int)),
        apart(value(bpm_at(rate, lag as int)) * lag as real, 60real * value(rate)) <= (lag as real
            + 1real) * err,
{
    let x = num::<S>(60).mul_spec(rate);
    let c = count::<S>(lag);
    let n = lag as real;
    assert(value(num::<S>(60)) == 60real);
    assert(about(value, x, 60real * value(rate), err));
    let xv = value(x);
    quotient_times_divisor(xv, n);
    let q = xv / n;
    let rest = n - 1real;
    assert(within_real(q, top)) by {
        spread(n, 1real, q);
        regroup(q, rest, 0real);
        regroup(q, n, 0real);
        if q > top {
            product_from_zero(q, rest);
        } else if q < -top {
            product_from_zero(-q, rest);
            spread(q, 0real, rest);
        }
    }
    let b = bpm_at(rate, lag as int);
    let off = value(b) - q;
    assert(within_real(off, err));
    within_product(off, n, err, n);
    spread(q, off, n);
    regroup(err, n, 0real);
    spread(n, 1real, err);
}

/// There are as many spectra in a second as it has frames, over the hop.
pub proof fn spectra_fill_a_second<S: Sample>(
    value: spec_fn(S) -> real,
    top: real,
    err: real,
    sample_rate: u32,
)
    requires
        reads(value, top, err),
        top >= 8_388_608real,
        reads_count::<S>(value, sample_rate as nat),
    ensures
        finite(onset_rate::<S>(sample_rate)),
        apart(
            value(onset_rate::<S>(sample_rate)) * 512real,
            (sample_rate as int) as real,
        ) <= 512real * err,
{
    let n = (sample_rate as int) as real;
    assert(value(num::<S>(512)) == 512real);
    assert(0real <= n / 512real <= 8_388_608real);
}

/// An octave below, the same and an octave above are half, once and twice the
/// tempo.
pub proof fn octaves_halve_and_double<S: Sample>(
    value: spec_fn(S) -> real,
    top: real,
    err: real,
    bpm: S,
)
    requires
        reads(value, top, err),
        top >= 1024real,
        err <= 1real / 16real,
        finite(bpm),
        0real <= value(bpm) <= 400real,
    ensures
        apart(2real * value(octave(bpm, 0)), value(bpm)) <= 900real * err,
        octave(bpm, 1) == bpm,
        apart(value(octave(bpm, 2)), 2real * value(bpm)) <= err,
{
    let h = 1real / 2real;
    let v = value(bpm);
    assert(value(num::<S>(1)) == 1real && value(num::<S>(2)) == 2real);
    assert(about(value, half::<S>(), h, err));
    about_product(value, top, err, bpm, v, 0real, 400real, half::<S>(), h, err, h);
}

/// The products of an envelope with itself at a distance, of the first `n`
/// places, as real numbers.
pub open spec fn true_products<S: Sample>(
    value: spec_fn(S) -> real,
    v: Seq<S>,
    lag: int,
    n: nat,
) -> real
    decreases n,
{
    if n == 0 {
        0real
    } else {
        true_products(value, v, lag, (n - 1) as nat) + value(v[n - 1]) * value(v[n - 1 + lag])
    }
}

/// The likeness at a distance is the mean of the products there.
pub proof fn likeness_is_the_mean_product<S: Sample>(
    value: spec_fn(S) -> real,
    top: real,
    err: real,
    v: Seq<S>,
    lag: int,
)
    requires
        reads(value, top, err),
        err <= 1real,
        0 <= lag < v.len(),
        4real * v.len() as real <= top,
        reads_count::<S>(value, (v.len() - lag) as nat),
        forall|i: int|
            0 <= i < v.len() ==> finite(#[trigger] v[i]) && within_real(value(v[i]), 1real),
    ensures
        ({
            let n = (v.len() - lag) as nat;
            &&& finite(likeness(v, lag))
            &&& apart(
                value(likeness(v, lag)) * n as real,
                true_products(value, v, lag, n),
            ) <= 3real * n as real * err
        }),
{
    let n = (v.len() - lag) as nat;
    let nr = n as real;
    products_read(value, top, err, v, lag, n);
    let sum = products(v, lag, n);
    let sv = value(sum);
    let t = true_products(value, v, lag, n);
    product_from_zero(nr, 1real - err);
    spread(1real, err, nr);
    regroup(nr, err, 0real);
    regroup(2real, nr, err);
    regroup(3real, nr, err);
    assert(within_real(sv, 3real * nr));
    quotient_times_divisor(sv, nr);
    let q = sv / nr;
    assert(within_real(q, 3real)) by {
        if q > 3real {
            product_from_zero(q - 3real, nr - 1real);
            spread(q, 3real, nr - 1real);
            spread(nr, 1real, q);
            regroup(q, nr, 0real);
            regroup(q, nr - 1real, 0real);
        } else if q < -3real {
            product_from_zero(-q - 3real, nr - 1real);
            spread(-q, 3real, nr - 1real);
            spread(q, 0real, nr - 1real);
            spread(nr, 1real, q);
            regroup(q, nr, 0real);
            regroup(q, nr - 1real, 0real);
        }
    }
    assert(4real <= top);
    let l = likeness(v, lag);
    let off = value(l) - q;
    within_product(off, nr, err, nr);
    spread(q, off, nr);
    regroup(err, nr, 0real);
}

proof fn products_read<S: Sample>(
    value: spec_fn(S) -> real,
    top: real,
    err: real,
    v: Seq<S>,
    lag: int,
    n: nat,
)
    requires
        reads(value, top, err),
        err <= 1real,
        0 <= lag < v.len(),
        n <= v.len() - lag,
        4real * v.len() as real <= top,
        forall|i: int|
            0 <= i < v.len() ==> finite(#[trigger] v[i]) && within_real(value(v[i]), 1real),
    ensures
        within_real(true_products(value, v, lag, n), n as real),
        about(value, products(v, lag, n), true_products(value, v, lag, n), 2real * n as real * err),
    decreases n,
{
    let nr = n as real;
    if n == 0 {
        assert(value(num::<S>(0)) == 0real);
        assert(2real * nr * err == 0real) by {
            assert(2real * nr == 0real);
            assert(0real * err == 0real);
        }
    } else {
        let m = (n - 1) as nat;
        let mr = m as real;
        products_read(value, top, err, v, lag, m);
        let (a, b) = (v[n - 1], v[n - 1 + lag]);
        assert(finite(a) && finite(b));
        within_product(value(a), value(b), 1real, 1real);
        let term = a.mul_spec(b);
        let t = true_products(value, v, lag, m);
        assert(nr == mr + 1real);
        regroup(2real, mr, err);
        regroup(2real, nr, err);
        spread(mr, 1real, err);
        product_from_zero(mr, 1real - err);
        spread(1real, err, mr);
        regroup(mr, err, 0real);
        about_sum(
            value,
            top,
            err,
            products(v, lag, m),
            t,
            2real * mr * err,
            term,
            value(a) * value(b),
            err,
        );
    }
}

/// The score of an octave that comes into question.
pub open spec fn octave_fits<S: Sample>(
    v: Seq<S>,
    rate: S,
    bpm: S,
    priors: Seq<S>,
    i: int,
    score: S,
) -> bool {
    octave_score(v, rate, octave(bpm, i), priors[i]) == Some(score)
}

/// Of half, the same and double of a tempo, none that comes into question fits
/// better than the one that is taken, and those before it fit less well.
pub proof fn the_best_octave_wins<S: Sample>(
    v: Seq<S>,
    rate: S,
    bpm: S,
    priors: Seq<S>,
    n: nat,
    i: int,
    score: S,
)
    requires
        order_laws::<S>(),
        0 <= i < n,
        octave_fits(v, rate, bpm, priors, i, score),
    ensures
        match best_octave(v, rate, bpm, priors, n) {
            Some((_, top)) => !lt(top, score),
            None => false,
        },
    decreases n,
{
    let last = n - 1;
    if i < last {
        the_best_octave_wins(v, rate, bpm, priors, last as nat, i, score);
    }
    if lt(score, score) {
        assert(!lt(score, score));
    }
}

/// The octave that is taken is one of the three, with its own score.
pub proof fn the_octave_taken_is_one_of_three<S: Sample>(
    v: Seq<S>,
    rate: S,
    bpm: S,
    priors: Seq<S>,
    n: nat,
) -> (i: int)
    ensures
        best_octave(v, rate, bpm, priors, n) matches Some((best, top)) ==> {
            &&& 0 <= i < n
            &&& best == octave(bpm, i)
            &&& octave_fits(v, rate, bpm, priors, i, top)
        },
    decreases n,
{
    if n == 0 {
        0
    } else {
        let last = n - 1;
        let before = the_octave_taken_is_one_of_three(v, rate, bpm, priors, last as nat);
        if best_octave(v, rate, bpm, priors, n) == best_octave(v, rate, bpm, priors, last as nat) {
            before
        } else {
            last
        }
    }
}

/// The distance that goes with a tempo, times the tempo, fills a minute, up to
/// half a spectrum.
pub proof fn lags_fill_a_minute<S: Sample>(
    value: spec_fn(S) -> real,
    top: real,
    err: real,
    rate: S,
    bpm: S,
)
    requires
        reads(value, top, err),
        err <= 1real / 16real,
        top >= 16_777_216real,
        finite(rate),
        0real <= value(rate) <= 100_000real,
        finite(bpm),
        1real <= value(bpm) <= 1000real,
        0 < lag_for(rate, bpm) < MAX_LAG,
        reads_count::<S>(value, lag_for(rate, bpm) as nat),
        reads_count::<S>(value, (lag_for(rate, bpm) - 1) as nat),
    ensures
        apart(lag_for(rate, bpm) as real * value(bpm), 60real * value(rate)) <= (1real / 2real
            + 5real * err) * value(bpm),
{
    let x = num::<S>(60).mul_spec(rate);
    assert(value(num::<S>(60)) == 60real);
    assert(about(value, x, 60real * value(rate), err));
    let (xv, s) = (value(x), value(bpm));
    quotient_times_divisor(xv, s);
    let exact = xv / s;
    let rest = s - 1real;
    spread(s, 1real, exact);
    regroup(exact, rest, 0real);
    regroup(exact, s, 0real);
    assert(within_real(exact, top)) by {
        if exact > top {
            product_from_zero(exact, rest);
        } else if exact < -top {
            product_from_zero(-exact, rest);
            spread(exact, 0real, rest);
        }
    }
    let y = x.div_spec(bpm);
    assert(about(value, y, exact, err));
    let k = lag_for(rate, bpm);
    first_count(y, 0, MAX_LAG as int);
    let h = 1real / 2real;
    assert(value(num::<S>(1)) == 1real && value(num::<S>(2)) == 2real);
    assert(about(value, half::<S>(), h, err));
    let here = count::<S>(k as nat);
    let before = count::<S>((k - 1) as nat);
    about_sum(value, top, err, here, k as real, 0real, half::<S>(), h, err);
    about_sum(value, top, err, before, (k - 1) as real, 0real, half::<S>(), h, err);
    assert((k - 1) as real == k as real - 1real);
    assert(value(y) < value(here.add_spec(half::<S>())));
    assert(!(value(y) < value(before.add_spec(half::<S>()))));
    let gap = k as real - exact;
    let most = h + 4real * err;
    assert(within_real(gap, most));
    within_product(gap, s, most, s);
    spread(k as real, exact, s);
    let wide = h + 5real * err;
    spread(wide, most, s);
    product_from_zero(err, rest);
    spread(s, 1real, err);
    regroup(err, s, 0real);
}

proof fn first_count<S: Sample>(x: S, lo: int, hi: int)
    requires
        0 <= lo <= hi,
    ensures
        ({
            let k = nearest_count(x, lo, hi);
            &&& lo <= k <= hi
            &&& k < hi ==> lt(x, count::<S>(k as nat).add_spec(half::<S>()))
            &&& k > lo ==> !lt(x, count::<S>((k - 1) as nat).add_spec(half::<S>()))
        }),
    decreases hi - lo,
{
    if lo < hi && !lt(x, count::<S>(lo as nat).add_spec(half::<S>())) {
        first_count(x, lo + 1, hi);
    }
}

} // verus!
