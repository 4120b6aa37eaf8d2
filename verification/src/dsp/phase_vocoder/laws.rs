//! How the phases of a stretched sound move on.

use vstd::prelude::*;
use vstd::std_specs::ops::{AddSpec, DivSpec, MulSpec, RemSpec, SubSpec};

use crate::dsp::phase_vocoder::{
    flux, is_peak, locked, loudest, mono_spectrum, next_phase, owner, peak_floor, peaks, wrapped,
    Onsets, NUM_BINS,
};
use crate::reading::{
    about, about_difference, about_product, about_sum, apart, product_from_zero,
    quotient_times_divisor, reads, regroup, spread, within_product, within_real,
};
use crate::sample::{finite, le, lt, num, order_laws, same, Sample};

verus! {

/// A remainder is what is left after taking away a whole number of times: `z`.
pub open spec fn leaves<S: Sample>(value: spec_fn(S) -> real, x: S, y: S, z: int) -> bool {
    let r = x.rem_spec(y);
    &&& finite(r)
    &&& value(r) == value(x) - z as real * value(y)
    &&& within_real(value(r), value(y))
}

/// Bringing a phase to within half a turn takes a whole number of turns away
/// from it, and nothing else.
pub proof fn wrapping_takes_whole_turns<S: Sample>(
    value: spec_fn(S) -> real,
    top: real,
    err: real,
    x: S,
    pi: S,
    z: int,
) -> (turns: int)
    requires
        order_laws::<S>(),
        reads(value, top, err),
        top >= 8192real,
        err <= 1real / 16real,
        finite(pi),
        3real <= value(pi) <= 4real,
        value(num::<S>(2).mul_spec(pi)) == 2real * value(pi),
        finite(x),
        within_real(value(x), 4096real),
        leaves(value, x.add_spec(pi), num::<S>(2).mul_spec(pi), z),
    ensures
        about(
            value,
            wrapped(x, pi),
            value(x) - turns as real * (2real * value(pi)),
            8real * err,
        ),
{
    let zero = num::<S>(0);
    let turn = num::<S>(2).mul_spec(pi);
    let p = value(pi);
    let t = 2real * p;
    assert(value(zero) == 0real && value(num::<S>(2)) == 2real);
    assert(finite(turn));
    about_sum(value, top, err, x, value(x), 0real, pi, p, 0real);
    let r = x.add_spec(pi).rem_spec(turn);
    let base = value(x) - z as real * t;
    assert(about(value, r, base + p, err));
    assert(lt(r, zero) <==> value(r) < 0real);
    let up = if lt(r, zero) {
        r.add_spec(turn)
    } else {
        r
    };
    let k = if lt(r, zero) {
        z - 1
    } else {
        z
    };
    spread(z as real, 1real, t);
    assert(k as real == z as real || k as real == z as real - 1real);
    let goal = value(x) - k as real * t;
    if lt(r, zero) {
        assert(about(value, up, value(r) + t, err));
        assert(about(value, up, goal + p, 2real * err));
        assert(value(up) >= -err);
    } else {
        assert(about(value, up, goal + p, err));
        assert(value(up) >= 0real);
    }
    assert(within_real(value(up) - p, top));
    let d = up.sub_spec(pi);
    assert(about(value, d, value(up) - p, err));
    assert(about(value, d, goal, 3real * err));
    let low = zero.sub_spec(pi);
    assert(about(value, low, -p, err));
    if le(d, low) {
        assert(!lt(low, d)) by {
            if lt(low, d) {
                assert(lt(d, low) || same(d, low));
            }
        }
        assert(!(value(low) < value(d)));
        spread(k as real, 1real, t);
        let turns = k - 1;
        assert(turns as real == k as real - 1real);
        turns
    } else {
        k
    }
}

/// A frequency's phase goes on by a synthesis hop as it went on by an analysis
/// hop. Over its own pace `omega`, it gains 512 times what it gained per
/// `hop` frames, whole turns apart. Where the two hops are the same, it moves on
/// by as much as it moved.
pub proof fn phases_move_on_at_their_pace<S: Sample>(
    value: spec_fn(S) -> real,
    top: real,
    err: real,
    out: S,
    prev: S,
    phase: S,
    k: int,
    hop: int,
    pi: S,
    z: int,
) -> (turns: int)
    requires
        order_laws::<S>(),
        reads(value, top, err),
        top >= 65536real,
        err <= 1real / 65536real,
        finite(pi),
        3real <= value(pi) <= 4real,
        value(num::<S>(2).mul_spec(pi)) == 2real * value(pi),
        0 <= k <= 1024,
        1 <= hop <= 4096,
        small_phase(value, out),
        small_phase(value, prev),
        small_phase(value, phase),
        finite(own_pace(k, pi)),
        0real <= value(own_pace(k, pi)) * hop as real <= 3000real,
        0real <= value(own_pace(k, pi)) <= 4real,
        ({
            let x = phase.sub_spec(prev).sub_spec(own_pace(k, pi).mul_spec(num(hop as i16)));
            leaves(value, x.add_spec(pi), num::<S>(2).mul_spec(pi), z)
        }),
    ensures
        ({
            let omega = value(own_pace(k, pi));
            let next = next_phase(out, prev, phase, k, hop, pi);
            let gained = value(next) - value(out) - 512real * omega;
            let moved = value(phase) - value(prev) - omega * hop as real - turns as real * (2real
                * value(pi));
            &&& finite(next)
            &&& apart(gained * hop as real, 512real * moved) <= (10000real + 2000real * hop as real)
                * err
            &&& hop == 512 ==> apart(
                value(next),
                value(out) + (value(phase) - value(prev)) - turns as real * (2real * value(pi)),
            ) <= 2100real * err
        }),
{
    let omega = own_pace(k, pi);
    let o = value(omega);
    let h = num::<S>(hop as i16);
    let hv = hop as real;
    assert(value(h) == hv && finite(h));
    let ohs = omega.mul_spec(h);
    assert(about(value, ohs, o * hv, err));
    let s1 = phase.sub_spec(prev);
    about_difference(value, top, err, phase, value(phase), 0real, prev, value(prev), 0real);
    let m1 = value(phase) - value(prev);
    about_difference(value, top, err, s1, m1, err, ohs, o * hv, err);
    let x = s1.sub_spec(ohs);
    assert(within_real(value(x), 4096real));
    let turns = wrapping_takes_whole_turns(value, top, err, x, pi, z);
    let d = wrapped(x, pi);
    let dv = value(d);
    let moved = m1 - o * hv - turns as real * (2real * value(pi));
    assert(apart(dv, moved) <= 11real * err);
    wrapped_is_small(value, top, err, x, pi, z);
    quotient_times_divisor(dv, hv);
    let q = dv / hv;
    within_quotient(dv, hv, 8real);
    let share = d.div_spec(h);
    assert(about(value, share, q, err));
    about_sum(value, top, err, omega, o, 0real, share, q, err);
    let pace = omega.add_spec(share);
    let n512 = num::<S>(512);
    assert(value(n512) == 512real);
    about_product(value, top, err, pace, o + q, 2real * err, 16real, n512, 512real, 0real, 512real);
    let step = pace.mul_spec(n512);
    about_sum(
        value,
        top,
        err,
        out,
        value(out),
        0real,
        step,
        (o + q) * 512real,
        1025real * err,
    );
    let next = next_phase(out, prev, phase, k, hop, pi);
    assert(next == out.add_spec(step));
    let gained = value(next) - value(out) - 512real * o;
    assert(apart(gained, 512real * q) <= 1026real * err);
    let off = gained - 512real * q;
    within_product(off, hv, 1026real * err, hv);
    spread(512real * q, off, hv);
    regroup(512real, q, hv);
    assert(gained * hv == 512real * dv + off * hv);
    regroup(1026real, err, hv);
    regroup(err, hv, 0real);
    regroup(2000real, hv, err);
    spread(10000real, 2000real * hv, err);
    product_from_zero(err, hv);
    assert(apart(gained * hv, 512real * moved) <= (10000real + 2000real * hv) * err);
    if hop == 512 {
        times_512(q, hv);
        times_512(o, hv);
        assert(value(next) == value(out) + 512real * o + 512real * q + off);
    }
    turns
}

/// What a frequency turns by from one frame of sound to the next.
pub open spec fn own_pace<S: Sample>(k: int, pi: S) -> S {
    num::<S>(2).mul_spec(pi).mul_spec(num(k as i16)).div_spec(num(2048))
}

/// A phase that is finite and not too large.
pub open spec fn small_phase<S: Sample>(value: spec_fn(S) -> real, x: S) -> bool {
    finite(x) && within_real(value(x), 500real)
}

proof fn times_512(x: real, h: real)
    requires
        h == 512real,
    ensures
        x * h == 512real * x,
{
    assert(x * 512real == 512real * x);
}

proof fn within_quotient(x: real, y: real, b: real)
    requires
        within_real(x, b),
        1real <= y,
        0real <= b,
    ensures
        within_real(x / y, b),
{
    quotient_times_divisor(x, y);
    let q = x / y;
    let rest = y - 1real;
    spread(y, 1real, q);
    regroup(q, rest, 0real);
    regroup(q, y, 0real);
    if q > b {
        product_from_zero(q, rest);
    } else if q < -b {
        product_from_zero(-q, rest);
        spread(q, 0real, rest);
    }
}

/// A wrapped phase is small.
proof fn wrapped_is_small<S: Sample>(
    value: spec_fn(S) -> real,
    top: real,
    err: real,
    x: S,
    pi: S,
    z: int,
)
    requires
        reads(value, top, err),
        top >= 8192real,
        err <= 1real / 16real,
        finite(pi),
        3real <= value(pi) <= 4real,
        value(num::<S>(2).mul_spec(pi)) == 2real * value(pi),
        leaves(value, x.add_spec(pi), num::<S>(2).mul_spec(pi), z),
    ensures
        finite(wrapped(x, pi)),
        within_real(value(wrapped(x, pi)), 8real),
{
    let zero = num::<S>(0);
    let turn = num::<S>(2).mul_spec(pi);
    let p = value(pi);
    assert(value(zero) == 0real && value(num::<S>(2)) == 2real);
    assert(finite(turn));
    let r = x.add_spec(pi).rem_spec(turn);
    assert(lt(r, zero) <==> value(r) < 0real);
    let up = if lt(r, zero) {
        r.add_spec(turn)
    } else {
        r
    };
    assert(finite(up) && -1real <= value(up) <= 2real * p + 1real);
    let d = up.sub_spec(pi);
    assert(about(value, d, value(up) - p, err));
}

/// The distance of two frequencies.
pub open spec fn steps_between(a: int, b: int) -> int {
    if a < b {
        b - a
    } else {
        a - b
    }
}

/// Every frequency belongs to the peak that is nearest to it.
pub proof fn frequencies_belong_to_the_nearest_peak(all: Seq<int>, p: int, k: int)
    requires
        0 <= p < all.len(),
        forall|i: int, j: int| 0 <= i < j < all.len() ==> all[i] < all[j],
    ensures
        all.contains(owner(all, p, k)),
        forall|q: int|
            p <= q < all.len() ==> steps_between(k, owner(all, p, k)) <= steps_between(
                k,
                #[trigger] all[q],
            ),
    decreases all.len() - p,
{
    if p + 1 < all.len() && k > (all[p] + all[p + 1]) / 2 {
        frequencies_belong_to_the_nearest_peak(all, p + 1, k);
        assert(all[p] < all[p + 1]);
        assert(steps_between(k, owner(all, p + 1, k)) <= steps_between(k, all[p + 1]));
    } else {
        assert(all.contains(all[p]));
    }
}

/// Peaks come in order, and each is one.
pub proof fn peaks_come_in_order<S: Sample>(m: Seq<S>, floor: S, n: nat)
    ensures
        forall|i: int, j: int|
            0 <= i < j < peaks(m, floor, n).len() ==> peaks(m, floor, n)[i] < peaks(m, floor, n)[j],
        forall|i: int|
            0 <= i < peaks(m, floor, n).len() ==> 0 <= #[trigger] peaks(m, floor, n)[i] < n
                && is_peak(m, floor, peaks(m, floor, n)[i]),
        forall|k: int|
            0 <= k < n && #[trigger] is_peak(m, floor, k) ==> peaks(m, floor, n).contains(k),
    decreases n,
{
    if n > 0 {
        let rest = peaks(m, floor, (n - 1) as nat);
        let all = peaks(m, floor, n);
        peaks_come_in_order(m, floor, (n - 1) as nat);
        assert forall|k: int| 0 <= k < n && #[trigger] is_peak(m, floor, k) implies all.contains(
            k,
        ) by {
            if k == n - 1 {
                assert(all[rest.len() as int] == k);
            } else {
                let i = rest.index_of(k);
                assert(all[i] == k);
            }
        }
    }
}

/// Around a peak, the phases of the output keep the distances that the frame
/// itself has there.
pub proof fn locked_phases_keep_their_distances<S: Sample>(
    value: spec_fn(S) -> real,
    top: real,
    err: real,
    out: Seq<S>,
    m: Seq<S>,
    cur: Seq<S>,
    k: int,
)
    requires
        reads(value, top, err),
        top >= 4096real,
        err <= 1real,
        out.len() == NUM_BINS,
        cur.len() == NUM_BINS,
        m.len() == NUM_BINS,
        0 <= k < NUM_BINS,
        peaks(m, peak_floor(m), NUM_BINS as nat).len() > 0,
        forall|i: int| 0 <= i < NUM_BINS ==> small_phase(value, #[trigger] out[i]),
        forall|i: int| 0 <= i < NUM_BINS ==> small_phase(value, #[trigger] cur[i]),
    ensures
        ({
            let p = owner(peaks(m, peak_floor(m), NUM_BINS as nat), 0, k);
            let r = locked(out, m, cur);
            &&& 0 <= p < NUM_BINS
            &&& r[p] == out[p]
            &&& apart(value(r[k]) - value(r[p]), value(cur[k]) - value(cur[p])) <= 2real * err
        }),
{
    let floor = peak_floor(m);
    let all = peaks(m, floor, NUM_BINS as nat);
    peaks_come_in_order(m, floor, NUM_BINS as nat);
    frequencies_belong_to_the_nearest_peak(all, 0, k);
    let p = owner(all, 0, k);
    let at = all.index_of(p);
    assert(all[at] == p);
    frequencies_belong_to_the_nearest_peak(all, 0, p);
    assert(steps_between(p, owner(all, 0, p)) <= steps_between(p, all[at]));
    assert(owner(all, 0, p) == p);
    let r = locked(out, m, cur);
    assert(small_phase(value, out[p]) && small_phase(value, cur[p]) && small_phase(value, cur[k]));
    if k != p {
        let (a, b) = (value(cur[k]), value(cur[p]));
        about_difference(value, top, err, cur[k], a, 0real, cur[p], b, 0real);
        let d = cur[k].sub_spec(cur[p]);
        about_sum(value, top, err, out[p], value(out[p]), 0real, d, a - b, err);
    }
}

/// The loudest magnitude is not exceeded, and is one of them unless all are zero
/// or less.
pub proof fn nothing_exceeds_the_loudest<S: Sample>(m: Seq<S>, n: nat)
    requires
        order_laws::<S>(),
        n <= m.len(),
        same(num::<S>(0), num::<S>(0)),
        forall|i: int| 0 <= i < n ==> same(#[trigger] m[i], m[i]),
    ensures
        le(num(0), loudest(m, n)),
        forall|i: int| 0 <= i < n ==> le(#[trigger] m[i], loudest(m, n)),
        loudest(m, n) == num::<S>(0) || exists|i: int|
            0 <= i < n && #[trigger] m[i] == loudest(m, n),
    decreases n,
{
    if n > 0 {
        let rest = loudest(m, (n - 1) as nat);
        nothing_exceeds_the_loudest(m, (n - 1) as nat);
        let last = m[n - 1];
        let top = loudest(m, n);
        assert(same(last, last) && same(rest, rest));
        assert(le(rest, top) && le(last, top));
        assert forall|i: int| 0 <= i < n implies le(#[trigger] m[i], top) by {
            if i < n - 1 {
                assert(le(m[i], rest));
            }
        }
    }
}

/// The slow average goes a twentieth of the way to each new frame.
pub proof fn averages_go_a_twentieth_of_the_way<S: Sample>(
    value: spec_fn(S) -> real,
    top: real,
    err: real,
    heard: Onsets<S>,
    mags: Seq<Seq<S>>,
)
    requires
        reads(value, top, err),
        top >= 4096real,
        err <= 1real / 4096real,
        finite(heard.flux_avg),
        0real <= value(heard.flux_avg) <= 1000real,
        ({
            let f = flux(mono_spectrum(mags), heard.prev_mag_mono@, NUM_BINS as nat);
            finite(f) && 0real <= value(f) <= 1000real
        }),
    ensures
        ({
            let f = flux(mono_spectrum(mags), heard.prev_mag_mono@, NUM_BINS as nat);
            let old = value(heard.flux_avg);
            let new = heard.smoothed(mags);
            &&& finite(new)
            &&& apart(20real * (value(new) - old), value(f) - old) <= 21000real * err
        }),
{
    let f = flux(mono_spectrum(mags), heard.prev_mag_mono@, NUM_BINS as nat);
    let a = heard.flux_avg;
    let (fv, av) = (value(f), value(a));
    about_difference(value, top, err, f, fv, 0real, a, av, 0real);
    let d = f.sub_spec(a);
    let dv = value(d);
    assert(value(num::<S>(1)) == 1real && value(num::<S>(20)) == 20real);
    let part = num::<S>(1).div_spec(num(20));
    let h = 1real / 20real;
    assert(about(value, part, h, err));
    about_product(value, top, err, d, dv, 0real, 1001real, part, h, err, h);
    let m = d.mul_spec(part);
    about_sum(value, top, err, a, av, 0real, m, dv * h, 1002real * err);
    assert(20real * (dv * h) == dv) by {
        regroup(20real, dv, h);
        regroup(dv, h, 0real);
        regroup(20real, h, dv);
        assert(20real * h == 1real);
        regroup(20real * h, dv, 0real);
    }
}

/// A frame is an attack where it is louder by more than 1.7 times the average,
/// but none where it is louder by less, nor right after another one.
pub proof fn attacks_stand_out<S: Sample>(
    value: spec_fn(S) -> real,
    top: real,
    err: real,
    heard: Onsets<S>,
    mags: Seq<Seq<S>>,
)
    requires
        reads(value, top, err),
        top >= 4096real,
        err <= 1real / 4096real,
        finite(heard.flux_avg),
        0real <= value(heard.flux_avg) <= 1000real,
        ({
            let f = flux(mono_spectrum(mags), heard.prev_mag_mono@, NUM_BINS as nat);
            finite(f) && 0real <= value(f) <= 1000real
        }),
    ensures
        ({
            let f = value(flux(mono_spectrum(mags), heard.prev_mag_mono@, NUM_BINS as nat));
            let a = value(heard.flux_avg);
            &&& heard.was_transient ==> !heard.strikes(mags)
            &&& !heard.was_transient && 10real * f > 17real * a + 11000real * err ==> heard.strikes(
                mags,
            )
            &&& 10real * f < 17real * a - 11000real * err ==> !heard.strikes(mags)
        }),
{
    let f = flux(mono_spectrum(mags), heard.prev_mag_mono@, NUM_BINS as nat);
    let a = heard.flux_avg;
    let av = value(a);
    assert(value(num::<S>(17)) == 17real && value(num::<S>(10)) == 10real);
    let ratio = num::<S>(17).div_spec(num(10));
    let h = 17real / 10real;
    assert(about(value, ratio, h, err));
    about_product(value, top, err, a, av, 0real, 1000real, ratio, h, err, h);
    let bar = a.mul_spec(ratio);
    assert(about(value, bar, av * h, 1001real * err));
    assert(10real * (av * h) == 17real * av) by {
        regroup(10real, av, h);
        regroup(av, h, 0real);
        regroup(10real, h, av);
        assert(10real * h == 17real);
        regroup(10real * h, av, 0real);
    }
    assert(lt(bar, f) <==> value(bar) < value(f));
}

} // verus!
