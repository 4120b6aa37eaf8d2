//! What an export holds: which sound goes through it, and what a sample of it
//! becomes in the file.

use vstd::prelude::*;
use vstd::std_specs::ops::{MulSpec, SubSpec};

use crate::dsp::stretch::laws::reads_order;
use crate::reading::{about, apart, reads, within_real};
use crate::render::{is_floor, is_pcm16, leads_to, one_pass, Renderer};
use crate::sample::{clamped, finite, le, lt, num, real_like, same, Sample};
use crate::track::frames_fit;

verus! {

/// The samples of the chunks of a pass that are its own, one after the other.
pub open spec fn own_inputs<S: Sample>(states: Seq<Renderer<S>>, n: nat) -> Seq<S>
    decreases n,
{
    if n == 0 {
        Seq::empty()
    } else {
        let s = states[n - 1];
        own_inputs(states, (n - 1) as nat) + s.next_input().take(s.tail() * s.track.channels)
    }
}

/// A pass reads the loop from its start to its end, every sample once and in
/// order.
pub proof fn a_pass_reads_the_loop_in_order<S: Sample>(states: Seq<Renderer<S>>)
    requires
        one_pass(states),
    ensures
        ({
            let r = states[0];
            own_inputs(states, (states.len() - 1) as nat) == r.track.slice(
                r.region.start as int,
                r.region.end as int,
            )
        }),
{
    let n = (states.len() - 1) as nat;
    read_so_far(states, n);
}

proof fn read_so_far<S: Sample>(states: Seq<Renderer<S>>, n: nat)
    requires
        one_pass(states),
        n < states.len(),
    ensures
        ({
            let (r, s) = (states[0], states[n as int]);
            &&& s.track == r.track
            &&& s.region == r.region
            &&& s.in_chunk == r.in_chunk
            &&& 0 <= s.consumed <= s.length()
            &&& own_inputs(states, n) == r.track.slice(
                r.region.start as int,
                r.region.start + s.consumed,
            )
        }),
    decreases n,
{
    let r = states[0];
    let start = r.region.start as int;
    let ch = r.track.channels as int;
    if n == 0 {
        frames_fit(&*r.track, start, start);
        assert(own_inputs(states, 0) =~= r.track.slice(start, start));
    } else {
        let m = (n - 1) as nat;
        read_so_far(states, m);
        let s = states[m as int];
        let next = states[n as int];
        assert(s.consumed < s.length() && next == states[m as int + 1]);
        assert(leads_to(s, next));
        let at = start + s.consumed;
        let to = at + s.tail();
        frames_fit(&*r.track, start, at);
        frames_fit(&*r.track, at, to);
        frames_fit(&*r.track, start, to);
        frames_fit(&*r.track, start, start + s.in_chunk - s.tail());
        let part = s.next_input().take(s.tail() * ch);
        assert(part =~= r.track.slice(at, to));
        assert(own_inputs(states, n) =~= r.track.slice(start, to));
    }
}

/// A louder sample is no smaller a number in the file.
pub proof fn louder_samples_are_larger<S: Sample>(x: S, y: S, p: i16, q: i16)
    requires
        real_like::<S>(),
        le(x, y),
        is_pcm16(x, p),
        is_pcm16(y, q),
    ensures
        p <= q,
{
    let (lo, hi) = (num::<S>(-1i16), num::<S>(1));
    let (a, b) = (clamped(x, lo, hi), clamped(y, lo, hi));
    let full = num::<S>(32767);
    let zero = num::<S>(0);
    assert(finite(lo) && finite(hi) && finite(full) && finite(zero));
    assert(lt(lo, hi) && lt(zero, full));
    assert(same(x, x) && same(y, y));
    assert(le(lo, a) && le(a, hi) && le(lo, b) && le(b, hi)) by {
        assert(lt(x, lo) || same(x, lo) || lt(lo, x));
        assert(lt(hi, x) || same(hi, x) || lt(x, hi));
        assert(lt(y, lo) || same(y, lo) || lt(lo, y));
        assert(lt(hi, y) || same(hi, y) || lt(y, hi));
    }
    assert(finite(a) && finite(b));
    assert(le(a, b)) by {
        assert(lt(x, lo) || same(x, lo) || lt(lo, x));
        assert(lt(hi, x) || same(hi, x) || lt(x, hi));
        assert(lt(y, lo) || same(y, lo) || lt(lo, y));
        assert(lt(hi, y) || same(hi, y) || lt(y, hi));
    }
    let (u, v) = (a.mul_spec(full), b.mul_spec(full));
    assert(le(u, v));
    assert(same(u, u) && same(v, v));
    assert(lt(u, zero) || same(u, zero) || lt(zero, u));
    assert(lt(v, zero) || same(v, zero) || lt(zero, v));
    let (mu, mv) = (zero.sub_spec(u), zero.sub_spec(v));
    assert(le(mv, mu));
    if le(zero, u) {
        assert(le(zero, v));
        floors_rise(u, v, p as int, q as int);
    } else if le(zero, v) {
        if !le(zero, mu) {
            assert(p == 0);
        }
    } else {
        assert(le(u, zero) && le(v, zero));
        assert(same(zero.sub_spec(zero), zero));
        assert(le(zero.sub_spec(zero), mu) && le(zero.sub_spec(zero), mv));
        assert(le(zero, mu) && le(zero, mv));
        floors_rise(mv, mu, -q as int, -p as int);
    }
}

proof fn floors_rise<S: Sample>(x: S, y: S, k: int, j: int)
    requires
        real_like::<S>(),
        le(x, y),
        is_floor(x, k),
        is_floor(y, j),
    ensures
        k <= j,
{
    if j < k {
        let next = num::<S>((j + 1) as i16);
        let top = num::<S>(k as i16);
        assert(le(next, top)) by {
            if j + 1 < k {
                assert(lt(next, top));
            } else {
                assert(finite(top));
            }
        }
        assert(le(next, y));
    }
}

/// Silence is zero in the file, and full scale is the largest number either way,
/// as is whatever lies beyond it.
pub proof fn full_scale_fills_the_file<S: Sample>(x: S, r: i16)
    requires
        real_like::<S>(),
        is_pcm16(x, r),
    ensures
        x == num::<S>(0) ==> r == 0,
        le(num(1), x) ==> r == 32767,
        le(x, num(-1i16)) ==> r == -32767,
{
    let (lo, hi) = (num::<S>(-1i16), num::<S>(1));
    let zero = num::<S>(0);
    let full = num::<S>(32767);
    assert(finite(lo) && finite(hi) && finite(full) && finite(zero));
    assert(lt(lo, zero) && lt(zero, hi) && lt(lo, hi) && lt(zero, full));
    let a = clamped(x, lo, hi);
    let y = a.mul_spec(full);
    let minus = zero.sub_spec(y);
    if x == zero {
        assert(same(y, zero));
        assert(le(zero, y));
        assert(lt(zero, hi));
        if r > 0 {
            assert(le(num::<S>(1), num::<S>(r)));
            assert(lt(zero, y));
        }
    }
    if le(hi, x) {
        assert(same(a, hi));
        assert(same(hi, a));
        assert(le(a, hi));
        assert(le(hi, a));
        assert(finite(a));
        assert(le(y, hi.mul_spec(full)) && le(hi.mul_spec(full), y));
        assert(same(hi.mul_spec(full), full));
        assert(le(full, y));
        if r < 32767 {
            assert(le(num::<S>((r + 1) as i16), full));
            assert(le(num::<S>((r + 1) as i16), y));
        }
    }
    if le(x, lo) {
        assert(same(a, lo));
        assert(same(lo, a));
        assert(le(a, lo));
        assert(le(lo, a));
        assert(finite(a));
        assert(le(y, lo.mul_spec(full)) && le(lo.mul_spec(full), y));
        let down = zero.sub_spec(full);
        assert(same(lo.mul_spec(full), down));
        assert(same(y, down));
        assert(lt(zero, full));
        assert(le(down, zero));
        full_comes_back(full, y);
        assert(le(full, minus));
        assert(lt(y, zero)) by {
            assert(lt(y, zero) || same(y, zero) || lt(zero, y));
            if same(y, zero) || lt(zero, y) {
                assert(le(zero, y));
                assert(le(minus, zero.sub_spec(zero)));
                assert(same(zero.sub_spec(zero), zero));
                assert(le(full, zero));
            }
        }
        if r > -32767 {
            let k = -r;
            assert(le(num::<S>((k + 1) as i16), full));
            assert(le(num::<S>((k + 1) as i16), minus));
        }
    }
}

/// Taking full scale from zero twice gives it back.
proof fn full_comes_back<S: Sample>(full: S, y: S)
    requires
        real_like::<S>(),
        full == num::<S>(32767),
        same(y, num::<S>(0).sub_spec(full)),
    ensures
        le(full, num::<S>(0).sub_spec(y)),
{
    let zero = num::<S>(0);
    let down = zero.sub_spec(full);
    let low = num::<S>(-32767i16);
    assert(finite(zero) && finite(low));
    assert(same(down, low));
    assert(le(y, low));
    assert(le(zero.sub_spec(low), zero.sub_spec(y)));
    assert(same(zero.sub_spec(low), full));
}

/// A sample within full scale is 32767 times as large in the file, up to one.
pub proof fn samples_keep_their_size<S: Sample>(
    value: spec_fn(S) -> real,
    top: real,
    err: real,
    x: S,
    r: i16,
)
    requires
        reads(value, top, err),
        reads_order(value),
        top >= 65536real,
        err <= 1real / 16real,
        finite(x),
        within_real(value(x), 1real),
        is_pcm16(x, r),
    ensures
        apart((r as int) as real, 32767real * value(x)) <= 1real + 3real * err,
{
    let (lo, hi, zero) = (num::<S>(-1i16), num::<S>(1), num::<S>(0));
    let full = num::<S>(32767);
    assert(value(lo) == -1real && value(hi) == 1real && value(zero) == 0real);
    assert(finite(full) && value(full) == 32767real);
    assert(!lt(x, lo) && !lt(hi, x));
    let v = value(x);
    assert(v * 32767real == 32767real * v);
    let y = x.mul_spec(full);
    assert(about(value, y, 32767real * v, err));
    let minus = zero.sub_spec(y);
    assert(about(value, minus, -value(y), err));
    if le(zero, y) {
        floor_reads(value, top, err, y, r as int);
    } else if le(zero, minus) {
        floor_reads(value, top, err, minus, -r as int);
        assert((-r as int) as real == -((r as int) as real));
    }
}

proof fn floor_reads<S: Sample>(value: spec_fn(S) -> real, top: real, err: real, y: S, k: int)
    requires
        reads(value, top, err),
        reads_order(value),
        finite(y),
        within_real(value(y), 32767real + 2real * err),
        is_floor(y, k),
    ensures
        k as real <= value(y) <= k as real + 1real + 2real * err,
{
    let here = num::<S>(k as i16);
    assert(finite(here) && value(here) == k as real);
    if k < 32767 {
        let above = num::<S>((k + 1) as i16);
        assert(finite(above) && value(above) == (k + 1) as real);
        assert((k + 1) as real == k as real + 1real);
        assert(!le(above, y));
    }
}

} // verus!
