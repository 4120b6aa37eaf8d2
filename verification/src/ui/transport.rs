//! The transport row: times as text, and the two halves of the pitch.

use vstd::prelude::*;
use vstd::std_specs::ops::{AddSpec, DivSpec, MulSpec, SubSpec};
use vstd::string::StringExecFns;

use crate::sample::{
    finite, is_finite, nearest_is_unique, nearest_signed, nearest_signed_within, num, real_like,
    rounding_is_nearest, rounds_to, total_arithmetic, whole, Sample,
};
use crate::text::{append_numeral, numeral};

pub mod laws;

verus! {

/// `a / b` as a whole number: the nearest one, and the even one of two that
/// are equally near.
pub open spec fn nearest_even(a: nat, b: nat) -> nat {
    let q = a / b;
    let r = a % b;
    if 2 * r < b || (2 * r == b && q % 2 == 0) {
        q
    } else {
        q + 1
    }
}

/// How much `a` exceeds `b`.
pub open spec fn excess(a: int, b: int) -> nat {
    if a > b {
        (a - b) as nat
    } else {
        0
    }
}

/// `n / d` with numerator and unit doubled until the quotient has all of the
/// 53 bits of a double-precision number.
pub open spec fn scaled(n: nat, unit: nat, d: nat) -> (nat, nat)
    decreases excess((4_503_599_627_370_496 * d) as int, n as int),
{
    if n == 0 || n >= 4_503_599_627_370_496 * d {
        (n, unit)
    } else {
        scaled(2 * n, 2 * unit, d)
    }
}

/// `n` rounded to 53 bits: to a multiple of the least power of two, from
/// `unit` on, with which it fits.
pub open spec fn shortened(n: nat, unit: nat) -> nat
    decreases excess(n as int, unit as int),
{
    if unit == 0 || n < 9_007_199_254_740_992 * unit {
        nearest_even(n, unit) * unit
    } else {
        shortened(n, 2 * unit)
    }
}

/// A quotient rounded to 53 bits where it has more of them before the point:
/// divisor and unit are doubled until it fits.
pub open spec fn wide_quotient(n: nat, d: nat, unit: nat) -> nat
    decreases excess(n as int, d as int),
{
    if d == 0 || n < 9_007_199_254_740_992 * d {
        nearest_even(n, d) * unit
    } else {
        wide_quotient(n, 2 * d, 2 * unit)
    }
}

/// A time in whole seconds and thousandths, as double-precision arithmetic
/// has it: the number of frames is rounded to 53 bits, so is the quotient,
/// and so is a thousand times its fraction, before that becomes the nearest
/// whole number. This may be a thousand.
pub open spec fn seconds_and_thousandths(frames: nat, sample_rate: nat) -> (nat, nat) {
    let f = shortened(frames, 1);
    if f >= 9_007_199_254_740_992 * sample_rate {
        let q = wide_quotient(f, sample_rate, 1);
        (
            if q > u64::MAX {
                u64::MAX as nat
            } else {
                q
            },
            0,
        )
    } else {
        let (n, unit) = scaled(f, 1, sample_rate);
        let q = nearest_even(n, sample_rate);
        let thousandths = shortened(((q % unit) * 1000) as nat, 1);
        (q / unit, (2 * thousandths + unit) / (2 * unit))
    }
}

/// A time as hours, minutes, seconds and thousandths; without the hours where
/// there are none.
pub open spec fn time_text(frames: nat, sample_rate: nat) -> Seq<char> {
    if sample_rate == 0 {
        "0:00.000"@
    } else {
        let (total, ms) = seconds_and_thousandths(frames, sample_rate);
        let h = total / 3600;
        let m = total % 3600 / 60;
        let s = total % 60;
        let tail = numeral(s, 10, 2) + "."@ + numeral(ms, 10, 3);
        if h > 0 {
            numeral(h, 10, 1) + ":"@ + numeral(m, 10, 2) + ":"@ + tail
        } else {
            numeral(m, 10, 1) + ":"@ + tail
        }
    }
}

/// `a / b` rounded to the nearest whole number, ties to even.
fn divide_nearest(a: u128, b: u128) -> (r: u128)
    requires
        b > 0,
        a < 0x1_0000_0000_0000_0000_0000_0000,
        b < 0x1_0000_0000_0000_0000_0000_0000,
    ensures
        r == nearest_even(a as nat, b as nat),
        r <= a / b + 1,
{
    let q: u128 = a / b;
    let r: u128 = a % b;
    if 2 * r < b || (2 * r == b && q % 2 == 0) {
        q
    } else {
        q + 1
    }
}

/// `n` rounded to 53 bits.
fn shorten(n: u128) -> (r: u128)
    requires
        n < 0x10_0000_0000_0000_0000,
    ensures
        r == shortened(n as nat, 1),
        r <= 2 * n + 1,
{
    let mut grain: u128 = 1;
    while n >= 9_007_199_254_740_992 * grain
        invariant
            grain >= 1,
            n < 0x10_0000_0000_0000_0000,
            grain <= n + 1,
            shortened(n as nat, grain as nat) == shortened(n as nat, 1),
        decreases excess(n as int, grain as int),
    {
        grain = grain * 2;
    }
    let count: u128 = divide_nearest(n, grain);
    assert(count * grain <= n + grain) by (nonlinear_arith)
        requires
            count <= n / grain + 1,
            grain >= 1,
    ;
    count * grain
}

/// `n / d` rounded to 53 bits where it has more of them before the point.
fn divide_wide(n: u128, d: u128) -> (r: u128)
    requires
        0 < d <= 0xFFFF_FFFF,
        n <= 0x10_0000_0000_0000_0000,
    ensures
        r == wide_quotient(n as nat, d as nat, 1),
{
    let mut unit: u128 = 1;
    let mut step: u128 = d;
    while n >= 9_007_199_254_740_992 * step
        invariant
            0 < d,
            unit >= 1,
            0 < step <= n + 0xFFFF_FFFF,
            n <= 0x10_0000_0000_0000_0000,
            unit <= step,
            wide_quotient(n as nat, step as nat, unit as nat) == wide_quotient(
                n as nat,
                d as nat,
                1,
            ),
        decreases excess(n as int, step as int),
    {
        unit = unit * 2;
        step = step * 2;
    }
    let count: u128 = divide_nearest(n, step);
    assert(count * unit <= n + step) by (nonlinear_arith)
        requires
            count <= n / step + 1,
            1 <= unit <= step,
    ;
    count * unit
}

/// Seconds and thousandths of a time.
fn split_seconds(frames: u64, sample_rate: u32) -> (r: (u64, u64))
    requires
        sample_rate > 0,
    ensures
        (r.0 as nat, r.1 as nat) == seconds_and_thousandths(frames as nat, sample_rate as nat),
{
    let d: u128 = sample_rate as u128;
    let f: u128 = shorten(frames as u128);
    if f >= 9_007_199_254_740_992 * d {
        let q: u128 = divide_wide(f, d);
        let total: u64 = if q > u64::MAX as u128 {
            u64::MAX
        } else {
            q as u64
        };
        return (total, 0);
    }
    let top: u128 = 4_503_599_627_370_496 * d;
    let mut n: u128 = f;
    let mut unit: u128 = 1;
    while n != 0 && n < top
        invariant
            d == sample_rate,
            0 < d <= 0xFFFF_FFFF,
            top == 4_503_599_627_370_496 * d,
            n == 0 || unit <= n,
            unit >= 1,
            n == 0 ==> unit == 1,
            n < 2 * top,
            scaled(n as nat, unit as nat, d as nat) == scaled(f as nat, 1, sample_rate as nat),
        decreases excess(top as int, n as int),
    {
        n = n * 2;
        unit = unit * 2;
    }
    let q: u128 = divide_nearest(n, d);
    assert(q <= 9_007_199_254_740_993) by (nonlinear_arith)
        requires
            q <= n / d + 1,
            n < 9_007_199_254_740_992 * d,
            d >= 1,
    ;
    let total: u128 = q / unit;
    assert(q % unit <= q && q % unit < unit) by (nonlinear_arith)
        requires
            unit >= 1,
    ;
    let fraction: u128 = (q % unit) * 1000;
    let thousandths: u128 = shorten(fraction);
    let ms: u128 = (2 * thousandths + unit) / (2 * unit);
    assert(ms <= 2003) by (nonlinear_arith)
        requires
            ms == (2 * thousandths + unit) / (2 * unit),
            thousandths <= 2 * fraction + 1,
            fraction <= unit * 1000,
            unit >= 1,
    ;
    assert(total <= q) by (nonlinear_arith)
        requires
            total == q / unit,
            unit >= 1,
    ;
    (total as u64, ms as u64)
}

/// A time as hours, minutes, seconds and thousandths; without the hours where
/// there are none.
pub fn format_time(frames: u64, sample_rate: u32) -> (r: String)
    ensures
        r@ == time_text(frames as nat, sample_rate as nat),
{
    if sample_rate == 0 {
        return String::from_str("0:00.000");
    }
    let (total, ms) = split_seconds(frames, sample_rate);
    let h: u64 = total / 3600;
    let m: u64 = total % 3600 / 60;
    let s: u64 = total % 60;
    let mut text: String = String::new();
    if h > 0 {
        append_numeral(&mut text, h, 10, 1);
        text.append(":");
        append_numeral(&mut text, m, 10, 2);
    } else {
        append_numeral(&mut text, m, 10, 1);
    }
    text.append(":");
    append_numeral(&mut text, s, 10, 2);
    text.append(".");
    append_numeral(&mut text, ms, 10, 3);
    assert(text@ =~= time_text(frames as nat, sample_rate as nat));
    text
}

/// A pitch as whole semitones and hundredths of one: the nearest semitone,
/// at most an octave away, and what is left, at most half a semitone. What is
/// no number is no pitch.
pub open spec fn pitch_halves<S: Sample>(total: S) -> (int, int) {
    let t = if finite(total) {
        total
    } else {
        num(0)
    };
    let coarse = nearest_signed(t, 12);
    let cents = nearest_signed(t.sub_spec(num(coarse as i16)).mul_spec(num(100)), 50);
    (coarse, cents)
}

/// A pitch as whole semitones and hundredths of one.
pub fn split_pitch<S: Sample>(total_semitones: S) -> (r: (i16, i16))
    requires
        total_arithmetic::<S>(),
    ensures
        (r.0 as int, r.1 as int) == pitch_halves(total_semitones),
        -12 <= r.0 <= 12,
        -50 <= r.1 <= 50,
{
    let total: S = if is_finite(total_semitones) {
        total_semitones
    } else {
        whole(0)
    };
    let coarse: i16 = nearest_signed_within(total, 12);
    let cents: i16 = nearest_signed_within((total - whole(coarse)) * whole(100), 50);
    (coarse, cents)
}

/// The pitch that two halves make together.
pub open spec fn pitch_total<S: Sample>(coarse: i16, cents: i16) -> S {
    num::<S>(coarse).add_spec(num::<S>(cents).div_spec(num(100)))
}

/// The pitch that two halves make together.
pub fn combined_pitch<S: Sample>(coarse: i16, cents: i16) -> (r: S)
    requires
        total_arithmetic::<S>(),
    ensures
        r == pitch_total::<S>(coarse, cents),
{
    whole::<S>(coarse) + whole::<S>(cents) / whole(100)
}

/// Both halves of a pitch are nearest to what they stand for: the semitones to
/// the whole pitch, and the hundredths to what is left of it.
pub proof fn halves_are_near<S: Sample>(total: S)
    requires
        finite(total),
    ensures
        ({
            let (coarse, cents) = pitch_halves(total);
            &&& rounds_to(total, coarse, 12)
            &&& rounds_to(total.sub_spec(num(coarse as i16)).mul_spec(num(100)), cents, 50)
        }),
{
    rounding_is_nearest(total, 12);
    let coarse = nearest_signed(total, 12);
    rounding_is_nearest(total.sub_spec(num(coarse as i16)).mul_spec(num(100)), 50);
}

/// The number type tells the hundredths of a semitone apart: what two halves
/// make together is nearest to its own semitone, and the rest of it to its
/// own hundredth.
pub open spec fn tells_cents<S: Sample>() -> bool {
    forall|coarse: i16, cents: i16|
        -12 <= coarse <= 12 && -50 < cents < 50 ==> {
            let total = #[trigger] pitch_total::<S>(coarse, cents);
            &&& finite(total)
            &&& rounds_to(total, coarse as int, 12)
            &&& rounds_to(total.sub_spec(num(coarse)).mul_spec(num(100)), cents as int, 50)
        }
}

/// Taking apart what two halves make together gives them back, so long as the
/// hundredths are fewer than half a semitone.
pub proof fn halves_come_back<S: Sample>(coarse: i16, cents: i16)
    requires
        real_like::<S>(),
        tells_cents::<S>(),
        -12 <= coarse <= 12,
        -50 < cents < 50,
    ensures
        pitch_halves(pitch_total::<S>(coarse, cents)) == (coarse as int, cents as int),
{
    let total = pitch_total::<S>(coarse, cents);
    nearest_is_unique(total, coarse as int, 12);
    nearest_is_unique(total.sub_spec(num(coarse)).mul_spec(num(100)), cents as int, 50);
}

} // verus!
