//! What the shelves raise and lower.

use vstd::prelude::*;
use vstd::std_specs::ops::{AddSpec, MulSpec, SubSpec};

use crate::dsp::eq::laws::{
    all_divided, all_finite, changes_nothing, ends_of, fastest_gain, flat_from, reads_filters,
    ringing_of, rings, scaled_back, steady_gain, usable, width_bounds,
};
use crate::dsp::eq::passes::small_square;
use crate::dsp::eq::{BiquadCoeffs, Tone};
use crate::reading::{
    about, about_difference, about_product, about_sum, apart, product_from_zero, regroup, spread,
    within_product, within_real,
};
use crate::sample::{finite, num, Sample};

verus! {

/// What a shelf is put together from: the amplitude and one, added and taken
/// apart; the bend; and their sums over the cosine.
pub(crate) struct Planks<S> {
    up: S,
    down: S,
    bend: S,
    minus: S,
    plus: S,
    dip: S,
    rise: S,
}

/// How much a shelf bends: twice the root of its amplitude, times its half
/// width.
pub open spec fn shelf_bend<S: Sample>(t: Tone<S>, q: S) -> S {
    num::<S>(2).mul_spec(t.sqrt_amp).mul_spec(BiquadCoeffs::alpha_spec(t, q))
}

spec fn planks<S: Sample>(t: Tone<S>, q: S) -> Planks<S> {
    let up = t.amp.add_spec(num(1));
    let down = t.amp.sub_spec(num(1));
    Planks {
        up,
        down,
        bend: num::<S>(2).mul_spec(t.sqrt_amp).mul_spec(BiquadCoeffs::alpha_spec(t, q)),
        minus: up.sub_spec(down.mul_spec(t.cos_w)),
        plus: up.add_spec(down.mul_spec(t.cos_w)),
        dip: down.sub_spec(up.mul_spec(t.cos_w)),
        rise: down.add_spec(up.mul_spec(t.cos_w)),
    }
}

/// What the parts of a shelf stand for.
proof fn planks_read<S: Sample>(
    value: spec_fn(S) -> real,
    top: real,
    err: real,
    t: Tone<S>,
    q: S,
)
    requires
        reads_filters(value, top, err),
        usable(value, t, q),
    ensures
        ({
            let k = planks(t, q);
            let a = value(t.amp);
            let c = value(t.cos_w);
            let up = a + 1real;
            let down = a - 1real;
            &&& 0real <= err <= 1real / 1024real
            &&& finite(k.bend) && -(1real / 8real) <= value(k.bend) <= 6real
            &&& about(value, k.minus, up - down * c, 4real * err)
            &&& about(value, k.plus, up + down * c, 4real * err)
            &&& about(value, k.dip, down - up * c, 4real * err)
            &&& about(value, k.rise, down + up * c, 4real * err)
            &&& within_real(down * c, 3real) && within_real(up * c, 5real)
            &&& 1real / 2real <= up - down * c <= 8real
            &&& 1real / 2real <= up + down * c <= 8real
        }),
{
    width_bounds(value, top, err, t, q);
    reveal(reads_filters);
    let k = planks(t, q);
    let a = value(t.amp);
    let c = value(t.cos_w);
    let al = value(BiquadCoeffs::alpha_spec(t, q));
    let one = num::<S>(1);
    assert(value(one) == 1real && value(num::<S>(2)) == 2real);
    about_sum(value, top, err, t.amp, a, 0real, one, 1real, 0real);
    about_difference(value, top, err, t.amp, a, 0real, one, 1real, 0real);
    let down = a - 1real;
    let up = a + 1real;
    let size = if down < 0real {
        -down
    } else {
        down
    };
    within_product(down, c, size, 1real);
    within_product(up, c, up, 1real);
    about_product(value, top, err, k.down, down, err, size, t.cos_w, c, 0real, 1real);
    about_product(value, top, err, k.up, up, err, 5real, t.cos_w, c, 0real, 1real);
    let dc = k.down.mul_spec(t.cos_w);
    let uc = k.up.mul_spec(t.cos_w);
    about_difference(value, top, err, k.up, up, err, dc, down * c, 2real * err);
    about_sum(value, top, err, k.up, up, err, dc, down * c, 2real * err);
    about_difference(value, top, err, k.down, down, err, uc, up * c, 2real * err);
    about_sum(value, top, err, k.down, down, err, uc, up * c, 2real * err);
    let root = num::<S>(2).mul_spec(t.sqrt_amp);
    let rv = value(root);
    assert(1real - err <= rv <= 4real + err);
    let alpha = BiquadCoeffs::alpha_spec(t, q);
    bent(rv, al);
    assert(about(value, k.bend, rv * al, err));
}

proof fn bent(r: real, al: real)
    requires
        0real <= r <= 17real / 4real,
        -(1real / 64real) <= al <= 5real / 4real,
    ensures
        -(7real / 64real) <= r * al <= 11real / 2real,
{
    let b = 1real / 64real;
    product_from_zero(r, al + b);
    spread(al, b, r);
    product_from_zero(r, 5real / 4real - al);
    spread(5real / 4real, al, r);
}

/// The sides of a shelf before they are divided: what they stand for, and that
/// they balance. `c` is the cosine, turned round for the high shelf.
proof fn shelf_balances(
    a: real,
    c: real,
    bend: real,
    n: (real, real, real),
    d: real,
    p: (real, real),
    err: real,
)
    requires
        1real / 4real <= a <= 4real,
        within_real(c, 1real),
        0real <= err,
        apart(n.0, a * ((a + 1real) - (a - 1real) * c + bend)) <= 40real * err,
        apart(n.1, (2real * a) * ((a - 1real) - (a + 1real) * c)) <= 50real * err,
        apart(n.2, a * ((a + 1real) - (a - 1real) * c - bend)) <= 40real * err,
        apart(d, (a + 1real) + (a - 1real) * c + bend) <= 10real * err,
        apart(p.0, -2real * ((a - 1real) + (a + 1real) * c)) <= 10real * err,
        apart(p.1, (a + 1real) + (a - 1real) * c - bend) <= 10real * err,
    ensures
        0real <= a * a <= 16real,
        within_real(n.0 + n.1 + n.2 - (a * a) * (d + p.0 + p.1), 700real * err),
        within_real(n.0 - n.1 + n.2 - 1real * (d - p.0 + p.1), 700real * err),
        a == 1real ==> within_real(n.0 - d, 100real * err),
        a == 1real ==> within_real(n.1 - p.0, 100real * err),
        a == 1real ==> within_real(n.2 - p.1, 100real * err),
{
    let ac = a * c;
    let g = a * a;
    within_product(a, a, 4real, 4real);
    product_from_zero(a, a);
    spread(a, 1real, c);
    let minus = a + 1real - ac + c;
    let plus = a + 1real + ac - c;
    let dip = a - 1real - ac - c;
    let rise = a - 1real + ac + c;
    spread(minus, bend, a);
    spread(a, 1real, a);
    spread(a + 1real, ac, a);
    spread(a + 1real - ac, c, a);
    spread(a - 1real, ac, a);
    spread(a - 1real - ac, c, a);
    regroup(2real, a, dip);
    let am = g + a - a * ac + ac;
    let ad = g - a - a * ac - ac;
    assert(a * minus == am);
    assert(a * dip == ad);
    // Steady sounds: four squares of the amplitude, less their cosine part.
    let f = d + p.0 + p.1 - (4real - 4real * c);
    spread(4real - 4real * c, f, g);
    spread(4real, 4real * c, g);
    regroup(g, 4real, c);
    regroup(4real, g, c);
    regroup(g, 4real, 0real);
    regroup(a, a, c);
    within_product(g, f, 16real, 30real * err);
    assert(g * (d + p.0 + p.1) == 4real * g - 4real * (g * c) + g * f);
    assert(a * ac == g * c);
}

/// The low shelf raises or lowers steady sounds by the square of its amplitude
/// and leaves the fastest ones as they are. At 0 dB it changes nothing.
pub proof fn low_shelves_act_below<S: Sample>(
    value: spec_fn(S) -> real,
    top: real,
    err: real,
    t: Tone<S>,
    q: S,
)
    requires
        reads_filters(value, top, err),
        usable(value, t, q),
    ensures
        ({
            let c = BiquadCoeffs::low_shelf_spec(t, q);
            let amp = value(t.amp);
            &&& all_finite(c)
            &&& steady_gain(value, c, amp * amp, 6000real * err)
            &&& fastest_gain(value, c, 1real, 6000real * err)
            &&& amp == 1real ==> changes_nothing(value, c, 6000real * err)
            &&& rings(
                value,
                c,
                (amp + 1real) + (amp - 1real) * value(t.cos_w),
                value(shelf_bend(t, q)),
                30000real * err,
            )
        }),
{
    let k = planks(t, q);
    let two_a = num::<S>(2).mul_spec(t.amp);
    let n = (
        t.amp.mul_spec(k.minus.add_spec(k.bend)),
        two_a.mul_spec(k.dip),
        t.amp.mul_spec(k.minus.sub_spec(k.bend)),
    );
    let a0 = k.plus.add_spec(k.bend);
    let p = (num::<S>(-2i16).mul_spec(k.rise), k.plus.sub_spec(k.bend));
    let a = value(t.amp);
    let c = value(t.cos_w);
    planks_read(value, top, err, t, q);
    let up = a + 1real;
    let down = a - 1real;
    side_reads(value, top, err, t.amp, k.minus, k.bend, up - down * c);
    odd_reads(value, top, err, 2i16, t.amp, k.dip, down - up * c, k.rise, down + up * c);
    below_reads(value, top, err, k.plus, k.bend, up + down * c);
    let f = BiquadCoeffs::low_shelf_spec(t, q);
    shelf_ends(value, top, err, f, a, c, value(k.bend), n, a0, p);
    all_divided(value, top, err, n, a0, p, 79real);
    let nv = (value(n.0), value(n.1), value(n.2));
    let pv = (value(p.0), value(p.1));
    shelf_rings(value, f, up + down * c, value(k.bend), value(a0), nv, pv, err);
}

/// From the sides of a shelf to its gains.
proof fn shelf_ends<S: Sample>(
    value: spec_fn(S) -> real,
    top: real,
    err: real,
    f: BiquadCoeffs<S>,
    a: real,
    c: real,
    bend: real,
    n: (S, S, S),
    a0: S,
    p: (S, S),
)
    requires
        reads_filters(value, top, err),
        0real <= err <= 1real / 1024real,
        f == BiquadCoeffs::normalised_spec(n.0, n.1, n.2, a0, p.0, p.1),
        1real / 4real <= a <= 4real,
        within_real(c, 1real),
        about(value, n.0, a * ((a + 1real) - (a - 1real) * c + bend), 40real * err),
        about(value, n.1, (2real * a) * ((a - 1real) - (a + 1real) * c), 50real * err),
        about(value, n.2, a * ((a + 1real) - (a - 1real) * c - bend), 40real * err),
        about(value, a0, (a + 1real) + (a - 1real) * c + bend, 10real * err),
        about(value, p.0, -2real * ((a - 1real) + (a + 1real) * c), 10real * err),
        about(value, p.1, (a + 1real) + (a - 1real) * c - bend, 10real * err),
        within_real(value(n.0), 79real),
        within_real(value(n.1), 79real),
        within_real(value(n.2), 79real),
        within_real(value(p.0), 79real),
        within_real(value(p.1), 79real),
        1real / 4real <= value(a0) <= 79real,
    ensures
        all_finite(f),
        steady_gain(value, f, a * a, 6000real * err),
        fastest_gain(value, f, 1real, 6000real * err),
        a == 1real ==> changes_nothing(value, f, 6000real * err),
{
    all_divided(value, top, err, n, a0, p, 79real);
    let nv = (value(n.0), value(n.1), value(n.2));
    let pv = (value(p.0), value(p.1));
    let d = value(a0);
    shelf_balances(a, c, bend, nv, d, pv, err);
    ends_of(value, f, d, nv, pv, a * a, 1real, 80real, 700real, err);
    some_errors(35real * 80real + 4real * 700real, err);
    if a == 1real {
        flat_from(value, f, d, nv, pv, 80real, 100real, err);
        some_errors(2real * 80real + 4real * 100real, err);
    }
}

/// From the sides of a shelf to how it rings.
proof fn shelf_rings<S: Sample>(
    value: spec_fn(S) -> real,
    f: BiquadCoeffs<S>,
    s: real,
    bend: real,
    d: real,
    n: (real, real, real),
    p: (real, real),
    err: real,
)
    requires
        scaled_back(value, f, d, n, p, 80real * d * err),
        0real <= s <= 8real,
        within_real(bend, 6real),
        apart(d, s + bend) <= 10real * err,
        apart(p.1, s - bend) <= 10real * err,
        d >= 1real / 4real,
        0real <= err,
    ensures
        rings(value, f, s, bend, 30000real * err),
{
    let x = d - p.1 - 2real * bend;
    let y = d + p.1 - 2real * s;
    spread(2real * bend, x, s);
    spread(2real * s, y, bend);
    within_product(s, x, 8real, 20real * err);
    within_product(bend, y, 6real, 20real * err);
    regroup(s, 2real, bend);
    regroup(bend, 2real, s);
    regroup(2real, s, bend);
    regroup(2real, bend, s);
    regroup(s, bend, 0real);
    assert(s * (2real * bend) == bend * (2real * s));
    ringing_of(value, f, d, n, p, s, bend, 80real, 700real, err);
    let k = 35real * (8real * 80real) + 4real * 700real;
    product_from_zero(30000real - k, err);
    spread(30000real, k, err);
}

proof fn some_errors(n: real, err: real)
    requires
        n <= 6000real,
        0real <= err,
    ensures
        n * err <= 6000real * err,
{
    product_from_zero(6000real - n, err);
    spread(6000real, n, err);
}

/// The even sides of a shelf.
proof fn side_reads<S: Sample>(
    value: spec_fn(S) -> real,
    top: real,
    err: real,
    amp: S,
    m: S,
    b: S,
    x: real,
)
    requires
        reads_filters(value, top, err),
        0real <= err <= 1real / 1024real,
        finite(amp) && 1real / 4real <= value(amp) <= 4real,
        about(value, m, x, 4real * err),
        finite(b) && -(1real / 8real) <= value(b) <= 6real,
        1real / 2real <= x <= 8real,
    ensures
        about(value, amp.mul_spec(m.add_spec(b)), value(amp) * (x + value(b)), 40real * err),
        about(value, amp.mul_spec(m.sub_spec(b)), value(amp) * (x - value(b)), 40real * err),
        within_real(value(amp.mul_spec(m.add_spec(b))), 79real),
        within_real(value(amp.mul_spec(m.sub_spec(b))), 79real),
{
    reveal(reads_filters);
    let a = value(amp);
    let bv = value(b);
    about_sum(value, top, err, m, x, 4real * err, b, bv, 0real);
    about_difference(value, top, err, m, x, 4real * err, b, bv, 0real);
    let e = 5real * err;
    about_product(value, top, err, amp, a, 0real, 4real, m.add_spec(b), x + bv, e, 15real);
    about_product(value, top, err, amp, a, 0real, 4real, m.sub_spec(b), x - bv, e, 15real);
    within_product(a, x + bv, 4real, 15real);
    within_product(a, x - bv, 4real, 15real);
}

/// The odd sides of a shelf.
proof fn odd_reads<S: Sample>(
    value: spec_fn(S) -> real,
    top: real,
    err: real,
    two: i16,
    amp: S,
    m: S,
    x: real,
    o: S,
    y: real,
)
    requires
        reads_filters(value, top, err),
        0real <= err <= 1real / 1024real,
        two == 2 || two == -2,
        finite(amp) && 1real / 4real <= value(amp) <= 4real,
        about(value, m, x, 4real * err),
        about(value, o, y, 4real * err),
        within_real(x, 8real),
        within_real(y, 8real),
    ensures
        ({
            let t = (two as int) as real;
            let r = num::<S>(two).mul_spec(amp).mul_spec(m);
            let s = num::<S>((-two) as i16).mul_spec(o);
            &&& about(value, r, (t * value(amp)) * x, 50real * err)
            &&& about(value, s, (-t) * y, 10real * err)
            &&& within_real(value(r), 79real)
            &&& within_real(value(s), 79real)
        }),
{
    reveal(reads_filters);
    small_square(err);
    let a = value(amp);
    let t = (two as int) as real;
    let other = (-two) as i16;
    assert(value(num::<S>(two)) == t && value(num::<S>(other)) == -t);
    let e = 4real * err;
    within_product(t, a, 2real, 4real);
    about_product(value, top, err, num::<S>(two), t, 0real, 2real, amp, a, 0real, 4real);
    let ta = num::<S>(two).mul_spec(amp);
    regroup(err, 4real, err);
    regroup(4real, err, err);
    about_product(value, top, err, ta, t * a, err, 8real, m, x, e, 8real);
    about_product(value, top, err, num::<S>(other), -t, 0real, 2real, o, y, e, 8real);
    within_product(t * a, x, 8real, 8real);
    within_product(-t, y, 2real, 8real);
}

/// What a shelf is divided by, and its last side.
proof fn below_reads<S: Sample>(
    value: spec_fn(S) -> real,
    top: real,
    err: real,
    m: S,
    b: S,
    x: real,
)
    requires
        reads_filters(value, top, err),
        0real <= err <= 1real / 1024real,
        about(value, m, x, 4real * err),
        finite(b) && -(1real / 8real) <= value(b) <= 6real,
        1real / 2real <= x <= 8real,
    ensures
        about(value, m.add_spec(b), x + value(b), 10real * err),
        about(value, m.sub_spec(b), x - value(b), 10real * err),
        1real / 4real <= value(m.add_spec(b)) <= 79real,
        within_real(value(m.sub_spec(b)), 79real),
{
    reveal(reads_filters);
    about_sum(value, top, err, m, x, 4real * err, b, value(b), 0real);
    about_difference(value, top, err, m, x, 4real * err, b, value(b), 0real);
}

/// The high shelf raises or lowers the fastest sounds by the square of its
/// amplitude and leaves steady ones as they are. At 0 dB it changes nothing.
pub proof fn high_shelves_act_above<S: Sample>(
    value: spec_fn(S) -> real,
    top: real,
    err: real,
    t: Tone<S>,
    q: S,
)
    requires
        reads_filters(value, top, err),
        usable(value, t, q),
    ensures
        ({
            let c = BiquadCoeffs::high_shelf_spec(t, q);
            let amp = value(t.amp);
            &&& all_finite(c)
            &&& steady_gain(value, c, 1real, 6000real * err)
            &&& fastest_gain(value, c, amp * amp, 6000real * err)
            &&& amp == 1real ==> changes_nothing(value, c, 6000real * err)
            &&& rings(
                value,
                c,
                (amp + 1real) - (amp - 1real) * value(t.cos_w),
                value(shelf_bend(t, q)),
                30000real * err,
            )
        }),
{
    let k = planks(t, q);
    let two_a = num::<S>(-2i16).mul_spec(t.amp);
    let n = (
        t.amp.mul_spec(k.plus.add_spec(k.bend)),
        two_a.mul_spec(k.rise),
        t.amp.mul_spec(k.plus.sub_spec(k.bend)),
    );
    let a0 = k.minus.add_spec(k.bend);
    let p = (num::<S>(2).mul_spec(k.dip), k.minus.sub_spec(k.bend));
    let a = value(t.amp);
    let c = value(t.cos_w);
    let f = BiquadCoeffs::high_shelf_spec(t, q);
    planks_read(value, top, err, t, q);
    let up = a + 1real;
    let down = a - 1real;
    side_reads(value, top, err, t.amp, k.plus, k.bend, up + down * c);
    odd_reads(value, top, err, -2i16, t.amp, k.rise, down + up * c, k.dip, down - up * c);
    below_reads(value, top, err, k.minus, k.bend, up - down * c);
    all_divided(value, top, err, n, a0, p, 79real);
    let nv = (value(n.0), value(n.1), value(n.2));
    let pv = (value(p.0), value(p.1));
    let d = value(a0);
    // It is the low shelf with the cosine and the odd sides turned round.
    spread(c, 0real, down);
    spread(c, 0real, up);
    let r = down + up * c;
    spread(2real * a, 0real, r);
    regroup(-2real, a, 0real);
    let turned = (nv.0, -nv.1, nv.2);
    let below = (-pv.0, pv.1);
    shelf_balances(a, -c, value(k.bend), turned, d, below, err);
    ends_of(value, f, d, nv, pv, 1real, a * a, 80real, 700real, err);
    shelf_rings(value, f, up - down * c, value(k.bend), d, nv, pv, err);
    some_errors(35real * 80real + 4real * 700real, err);
    if a == 1real {
        flat_from(value, f, d, nv, pv, 80real, 100real, err);
        some_errors(2real * 80real + 4real * 100real, err);
    }
}

} // verus!
