//! That numbers with a fixed number of binary places meet what the library
//! asks of numbers.

use vstd::arithmetic::div_mod::{lemma_div_is_ordered, lemma_div_multiples_vanish};
use vstd::prelude::*;
use vstd::std_specs::ops::{AddSpec, DivSpec, MulSpec, SubSpec};

use crate::analysis::bpm::laws::reads_count;
use crate::dsp::eq::laws::reads_filters;
use crate::dsp::stretch::laws::reads_order;
use crate::fixed::{held, Fixed, ONE};
use crate::reading::{apart, reads, within_real};
use crate::sample::{
    count, counts_rise, finite, half, le, lt, num, number_laws, order_laws, product_laws, real_like,
    rounds_to, same, sum_laws, total_arithmetic,
};
use crate::ui::metronome::{seconds, tells_time, MAX_TAPS, STALE_AFTER};
use crate::ui::transport::{pitch_total, tells_cents};

verus! {

/// Every operation of this number type is total and keeps to its
/// specification, so it meets what the library asks of a number type.
pub proof fn fixed_is_total()
    ensures
        total_arithmetic::<Fixed>(),
{
}

/// This number type is like the real numbers, as the laws of the library ask.
pub proof fn fixed_is_real_like()
    ensures
        real_like::<Fixed>(),
{
    assert(order_laws::<Fixed>());
    numbers();
    sums();
    products();
}

proof fn numbers()
    ensures
        number_laws::<Fixed>(),
{
    assert(half::<Fixed>().0 == ONE / 2);
}

proof fn sums()
    ensures
        sum_laws::<Fixed>(),
{
    assert(num::<Fixed>(0).0 == 0);
}

proof fn products()
    ensures
        product_laws::<Fixed>(),
{
    let one = ONE as int;
    assert(num::<Fixed>(0).0 == 0);
    assert(num::<Fixed>(1).0 == ONE);
    assert(num::<Fixed>(-1i16).0 == -ONE);
    assert forall|a: Fixed, b: Fixed, c: Fixed|
        le(a, b) && le(num(0), c) && finite(a) && finite(b) && finite(c) implies #[trigger] le(
        a.mul_spec(c),
        b.mul_spec(c),
    ) by {
        vstd::arithmetic::mul::lemma_mul_inequality(a.0 as int, b.0 as int, c.0 as int);
        lemma_div_is_ordered(a.0 * c.0, b.0 * c.0, one);
    }
    assert forall|a: Fixed, b: Fixed, c: Fixed|
        le(a, b) && le(num(0), c) && finite(a) && finite(b) && finite(c) implies #[trigger] le(
        c.mul_spec(a),
        c.mul_spec(b),
    ) by {
        vstd::arithmetic::mul::lemma_mul_inequality(a.0 as int, b.0 as int, c.0 as int);
        vstd::arithmetic::mul::lemma_mul_is_commutative(a.0 as int, c.0 as int);
        vstd::arithmetic::mul::lemma_mul_is_commutative(b.0 as int, c.0 as int);
        lemma_div_is_ordered(c.0 * a.0, c.0 * b.0, one);
    }
    assert forall|a: Fixed, b: Fixed, c: Fixed|
        le(a, b) && lt(num(0), c) && finite(c) implies #[trigger] le(
        a.div_spec(c),
        b.div_spec(c),
    ) by {
        lemma_div_is_ordered(a.0 * one, b.0 * one, c.0 as int);
    }
    assert forall|x: Fixed| finite(x) implies same(
        #[trigger] num::<Fixed>(1).mul_spec(x),
        x,
    ) by {
        lemma_div_multiples_vanish(x.0 as int, one);
    }
    assert forall|x: Fixed| finite(x) implies same(#[trigger] x.mul_spec(num(1)), x) by {
        lemma_div_multiples_vanish(x.0 as int, one);
        vstd::arithmetic::mul::lemma_mul_is_commutative(x.0 as int, one);
    }
    assert forall|x: Fixed| finite(x) implies same(#[trigger] x.mul_spec(num(0)), num(0)) by {
        vstd::arithmetic::mul::lemma_mul_basics(x.0 as int);
    }
    assert forall|x: Fixed| finite(x) implies same(
        #[trigger] num::<Fixed>(0).mul_spec(x),
        num(0),
    ) by {
        vstd::arithmetic::mul::lemma_mul_basics(x.0 as int);
    }
    assert forall|x: Fixed| finite(x) implies same(
        #[trigger] num::<Fixed>(-1i16).mul_spec(x),
        num::<Fixed>(0).sub_spec(x),
    ) by {
        lemma_div_multiples_vanish(-x.0, one);
        assert(-one * x.0 == one * (-x.0)) by (nonlinear_arith);
    }
    assert forall|x: Fixed| finite(x) && lt(num(0), x) implies same(
        #[trigger] x.div_spec(x),
        num(1),
    ) by {
        lemma_div_multiples_vanish(one, x.0 as int);
    }
    assert forall|x: Fixed| finite(x) && lt(num(0), x) implies same(
        #[trigger] num::<Fixed>(0).div_spec(x),
        num(0),
    ) by {
        vstd::arithmetic::div_mod::lemma_div_basics(x.0 as int);
    }
}

/// Counts below two to the power of thirty-one are exact.
proof fn counts_are_exact(n: nat)
    requires
        n < 0x8000_0000,
    ensures
        count::<Fixed>(n).0 == n * ONE,
    decreases n,
{
    let one = ONE as int;
    if n >= 16384 {
        let q = n / 16384;
        counts_are_exact(q);
        assert(num::<Fixed>(16384).0 == 16384 * ONE);
        assert((q * one) * (16384 * one) == one * (q * 16384 * one)) by (nonlinear_arith);
        lemma_div_multiples_vanish(q * 16384 * one, one);
        assert(n == q * 16384 + n % 16384);
    }
}

/// The counts of this number type rise, as far as they can be held.
pub proof fn fixed_counts_rise(top: nat)
    requires
        top < 0x8000_0000,
    ensures
        counts_rise::<Fixed>(top),
{
    assert forall|n: nat| 0 < n <= top implies lt(num(0), #[trigger] count::<Fixed>(n)) by {
        counts_are_exact(n);
    }
    assert forall|n: nat, m: nat| n <= m <= top implies le(
        #[trigger] count::<Fixed>(n),
        #[trigger] count::<Fixed>(m),
    ) by {
        counts_are_exact(n);
        counts_are_exact(m);
    }
}

/// This number type tells a nanosecond from none.
pub proof fn fixed_tells_time()
    ensures
        tells_time::<Fixed>(),
{
    fixed_counts_rise(MAX_TAPS as nat);
    time_of(0);
    assert forall|ns: nat| ns <= STALE_AFTER implies finite(#[trigger] seconds::<Fixed>(ns)) && le(
        num(0),
        seconds::<Fixed>(ns),
    ) by {
        time_of(ns);
    }
    assert forall|ns: nat, n: nat| 0 < ns <= STALE_AFTER && 0 < n <= MAX_TAPS implies lt(
        num(0),
        #[trigger] seconds::<Fixed>(ns).div_spec(#[trigger] count::<Fixed>(n)),
    ) by {
        time_of(ns);
        counts_are_exact(n);
        let s = seconds::<Fixed>(ns).0 as int;
        let one = ONE as int;
        let d = n * one;
        assert(s * one >= d) by (nonlinear_arith)
            requires
                s >= 4,
                n <= 4,
                d == n * one,
                one > 0,
        ;
        lemma_div_is_ordered(d, s * one, d);
        vstd::arithmetic::div_mod::lemma_div_basics(d);
    }
}

/// A nanosecond is four units, and no time is none.
proof fn time_of(ns: nat)
    requires
        ns <= STALE_AFTER,
    ensures
        seconds::<Fixed>(ns).0 >= 0,
        ns > 0 ==> seconds::<Fixed>(ns).0 >= 4,
        ns == 0 ==> seconds::<Fixed>(ns).0 == 0,
{
    let one = ONE as int;
    let second = 1_000_000_000int;
    let s = ns / 1_000_000_000;
    let r = ns % 1_000_000_000;
    counts_are_exact(s);
    counts_are_exact(r);
    counts_are_exact(1_000_000_000);
    let d = second * one;
    let x = (r * one) * one;
    let q = x / d;
    assert(q == (r * one) / second) by {
        same_quotient(r * one, second, one);
    }
    if r > 0 {
        lemma_div_is_ordered(one, r * one, second);
    }
}

/// A common factor leaves a quotient as it is.
proof fn same_quotient(a: int, b: int, c: int)
    requires
        0 < b,
        0 < c,
        0 <= a,
    ensures
        (a * c) / (b * c) == a / b,
{
    vstd::arithmetic::div_mod::lemma_div_denominator(a * c, c, b);
    vstd::arithmetic::mul::lemma_mul_is_commutative(b, c);
    lemma_div_multiples_vanish(a, c);
    vstd::arithmetic::mul::lemma_mul_is_commutative(a, c);
}

/// This number type tells the hundredths of a semitone apart.
pub proof fn fixed_tells_cents()
    ensures
        tells_cents::<Fixed>(),
{
    assert forall|coarse: i16, cents: i16|
        -12 <= coarse <= 12 && -50 < cents < 50 implies {
        let total = #[trigger] pitch_total::<Fixed>(coarse, cents);
        &&& finite(total)
        &&& rounds_to(total, coarse as int, 12)
        &&& rounds_to(total.sub_spec(num(coarse)).mul_spec(num(100)), cents as int, 50)
    } by {
        let one = ONE as int;
        let x = (cents * one) * one;
        let rest = x / (100 * one);
        hundredth(cents as int);
        assert(num::<Fixed>(cents).div_spec(num(100)).0 == rest);
        assert(pitch_total::<Fixed>(coarse, cents).0 == coarse * one + rest);
        assert(half::<Fixed>().0 == one / 2);
        let left = pitch_total::<Fixed>(coarse, cents).sub_spec(num(coarse));
        assert(left.0 == rest);
        assert(num::<Fixed>(100).0 == 100 * one);
        assert(rest * (100 * one) == one * (rest * 100)) by (nonlinear_arith);
        lemma_div_multiples_vanish(rest * 100, one);
        assert(left.mul_spec(num(100)).0 == rest * 100);
    }
}

/// A hundredth part, rounded down.
proof fn hundredth(k: int)
    requires
        -50 < k < 50,
    ensures
        ({
            let one = ONE as int;
            let rest = ((k * one) * one) / (100 * one);
            k * one - 100 < rest * 100 <= k * one
        }),
{
    let one = ONE as int;
    let d = 100 * one;
    let x = (k * one) * one;
    let q = x / d;
    vstd::arithmetic::div_mod::lemma_fundamental_div_mod(x, d);
    vstd::arithmetic::div_mod::lemma_mod_bound(x, d);
    assert(k * one - 100 < q * 100 <= k * one) by (nonlinear_arith)
        requires
            x == (k * one) * one,
            d == 100 * one,
            one > 0,
            x == d * q + x % d,
            0 <= x % d < d,
    ;
}

/// The real number that a number of this type stands for.
pub open spec fn fixed_value() -> spec_fn(Fixed) -> real {
    |x: Fixed| (x.0 as int) as real / (ONE as int) as real
}

/// The largest real number up to which results are looked at here.
pub open spec fn fixed_top() -> real {
    1_073_741_824real
}

/// One unit.
pub open spec fn fixed_err() -> real {
    1real / (ONE as int) as real
}

/// Results of this number type are off by no more than one unit.
pub proof fn fixed_reads()
    ensures
        reads(fixed_value(), fixed_top(), fixed_err()),
{
    let one = (ONE as int) as real;
    let value = fixed_value();
    let top = fixed_top();
    let err = fixed_err();
    assert(0real <= err) by (nonlinear_arith)
        requires
            err == 1real / one,
            one > 0real,
    ;
    assert forall|k: i16|
        finite(#[trigger] num::<Fixed>(k)) && value(num::<Fixed>(k)) == (k as int) as real by {
        let n = num::<Fixed>(k).0 as int;
        assert(n == k * ONE);
        assert(n as real / one == (k as int) as real) by (nonlinear_arith)
            requires
                n == k * ONE,
                one == (ONE as int) as real,
                one > 0real,
        ;
    }
    assert forall|a: Fixed, b: Fixed|
        finite(a) && finite(b) implies (#[trigger] lt(a, b) <==> value(a) < value(b)) by {
        let x = (a.0 as int) as real;
        let y = (b.0 as int) as real;
        assert(x < y <==> x / one < y / one) by (nonlinear_arith)
            requires
                one > 0real,
        ;
    }
    assert forall|a: Fixed, b: Fixed|
        finite(a) && finite(b) && within_real(value(a) + value(b), top) implies finite(
        #[trigger] a.add_spec(b),
    ) && apart(value(a.add_spec(b)), value(a) + value(b)) <= err by {
        sum_reads(a, b);
    }
    assert forall|a: Fixed, b: Fixed|
        finite(a) && finite(b) && within_real(value(a) - value(b), top) implies finite(
        #[trigger] a.sub_spec(b),
    ) && apart(value(a.sub_spec(b)), value(a) - value(b)) <= err by {
        difference_reads(a, b);
    }
    assert forall|a: Fixed, b: Fixed|
        finite(a) && finite(b) && within_real(value(a) * value(b), top) implies finite(
        #[trigger] a.mul_spec(b),
    ) && apart(value(a.mul_spec(b)), value(a) * value(b)) <= err by {
        product_reads(a, b);
    }
    assert forall|a: Fixed, b: Fixed|
        finite(a) && finite(b) && value(b) != 0real && within_real(
            value(a) / value(b),
            top,
        ) implies finite(#[trigger] a.div_spec(b)) && apart(
        value(a.div_spec(b)),
        value(a) / value(b),
    ) <= err by {
        quotient_reads(a, b);
    }
}

proof fn sum_reads(a: Fixed, b: Fixed)
    requires
        within_real(fixed_value()(a) + fixed_value()(b), fixed_top()),
    ensures
        fixed_value()(a.add_spec(b)) == fixed_value()(a) + fixed_value()(b),
{
    let one = (ONE as int) as real;
    let x = (a.0 as int) as real;
    let y = (b.0 as int) as real;
    let n = a.0 + b.0;
    assert(x / one + y / one == n as real / one) by (nonlinear_arith)
        requires
            one > 0real,
            n as real == x + y,
    ;
    held_exactly(n);
}

proof fn difference_reads(a: Fixed, b: Fixed)
    requires
        within_real(fixed_value()(a) - fixed_value()(b), fixed_top()),
    ensures
        fixed_value()(a.sub_spec(b)) == fixed_value()(a) - fixed_value()(b),
{
    let one = (ONE as int) as real;
    let x = (a.0 as int) as real;
    let y = (b.0 as int) as real;
    let n = a.0 - b.0;
    assert(x / one - y / one == n as real / one) by (nonlinear_arith)
        requires
            one > 0real,
            n as real == x - y,
    ;
    held_exactly(n);
}

/// What is not far beyond the top can be held.
proof fn held_exactly(n: int)
    requires
        within_real(n as real / (ONE as int) as real, fixed_top() + 1real),
    ensures
        held(n) == n,
{
    let one = (ONE as int) as real;
    let t = fixed_top() + 1real;
    assert(-(t * one) <= n as real <= t * one) by (nonlinear_arith)
        requires
            -t <= n as real / one <= t,
            one > 0real,
    ;
    let most: int = 4_611_686_022_722_355_200;
    assert(t * one == most as real) by (nonlinear_arith)
        requires
            t == 1_073_741_825real,
            one == 4_294_967_296real,
            most as real == 4_611_686_022_722_355_200real,
    ;
    assert(-most <= n <= most);
}

proof fn product_reads(a: Fixed, b: Fixed)
    requires
        within_real(fixed_value()(a) * fixed_value()(b), fixed_top()),
    ensures
        apart(
            fixed_value()(a.mul_spec(b)),
            fixed_value()(a) * fixed_value()(b),
        ) <= fixed_err(),
{
    let one = (ONE as int) as real;
    let x = (a.0 as int) as real;
    let y = (b.0 as int) as real;
    let p = a.0 * b.0;
    let q = p / (ONE as int);
    let r = p % (ONE as int);
    vstd::arithmetic::div_mod::lemma_fundamental_div_mod(p, ONE as int);
    vstd::arithmetic::div_mod::lemma_mod_bound(p, ONE as int);
    product_as_real(a.0 as int, b.0 as int);
    product_as_real(ONE as int, q);
    let (pr, qr, rr) = (p as real, q as real, r as real);
    assert((x / one) * (y / one) - qr / one == (rr / one) / one) by (nonlinear_arith)
        requires
            one > 0real,
            pr == x * y,
            pr == one * qr + rr,
    ;
    small_part(rr);
    held_exactly(q);
}

/// Less than one unit of units is less than a unit.
proof fn small_part(r: real)
    requires
        0real <= r <= (ONE as int) as real,
    ensures
        0real <= (r / (ONE as int) as real) / (ONE as int) as real <= fixed_err(),
        fixed_err() <= 1real,
{
    let one = (ONE as int) as real;
    assert(0real <= (r / one) / one <= 1real / one && 1real / one <= 1real) by (nonlinear_arith)
        requires
            one >= 1real,
            0real <= r <= one,
    ;
}

proof fn product_as_real(a: int, b: int)
    ensures
        (a * b) as real == a as real * b as real,
{
    assert((a * b) as real == a as real * b as real) by (nonlinear_arith);
}

proof fn quotient_reads(a: Fixed, b: Fixed)
    requires
        fixed_value()(b) != 0real,
        within_real(fixed_value()(a) / fixed_value()(b), fixed_top()),
    ensures
        apart(
            fixed_value()(a.div_spec(b)),
            fixed_value()(a) / fixed_value()(b),
        ) <= fixed_err(),
{
    let one = (ONE as int) as real;
    let x = (a.0 as int) as real;
    let y = (b.0 as int) as real;
    assert(b.0 != 0) by {
        if b.0 == 0 {
            assert(0real / one == 0real) by (nonlinear_arith)
                requires
                    one > 0real,
            ;
        }
    }
    let p = a.0 * ONE;
    let d = b.0 as int;
    let q = p / d;
    let r = p % d;
    assert(p == d * q + r && 0 <= r && (r < d || r < -d)) by (nonlinear_arith)
        requires
            d != 0,
            q == p / d,
            r == p % d,
    ;
    product_as_real(a.0 as int, ONE as int);
    product_as_real(d, q);
    let (qr, rr) = (q as real, r as real);
    assert((x / one) / (y / one) - qr / one == (rr / y) / one) by (nonlinear_arith)
        requires
            one > 0real,
            y != 0real,
            x * one == y * qr + rr,
    ;
    assert(-1real <= rr / y <= 1real) by (nonlinear_arith)
        requires
            y != 0real,
            0real <= rr,
            rr < y || rr < -y,
    ;
    assert(-(1real / one) <= (rr / y) / one <= 1real / one) by (nonlinear_arith)
        requires
            one > 0real,
            -1real <= rr / y <= 1real,
    ;
    small_part(0real);
    held_exactly(q);
}

/// The order of this number type is that of the real numbers.
pub proof fn fixed_reads_order()
    ensures
        reads_order(fixed_value()),
{
    let one = (ONE as int) as real;
    let value = fixed_value();
    assert forall|a: Fixed, b: Fixed|
        finite(a) && finite(b) implies (#[trigger] le(a, b) <==> value(a) <= value(b)) by {
        let x = (a.0 as int) as real;
        let y = (b.0 as int) as real;
        assert(x <= y <==> x / one <= y / one) by (nonlinear_arith)
            requires
                one > 0real,
        ;
    }
}

/// Counts below two to the power of thirty-one stand for themselves.
pub proof fn fixed_reads_counts(n: nat)
    requires
        n < 0x8000_0000,
    ensures
        reads_count::<Fixed>(fixed_value(), n),
{
    counts_are_exact(n);
    let one = (ONE as int) as real;
    let c = count::<Fixed>(n).0 as int;
    product_as_real(n as int, ONE as int);
    let nr = n as real;
    assert(c as real / one == nr) by (nonlinear_arith)
        requires
            c as real == nr * one,
            one > 0real,
    ;
}

/// This number type is read closely enough, and far enough, for filters, and
/// holds the inverse of a frame's length exactly.
pub proof fn fixed_reads_filters()
    ensures
        reads_filters(fixed_value(), fixed_top(), fixed_err()),
        fixed_value()(num::<Fixed>(1).div_spec(num(2048))) == 1real / 2048real,
{
    fixed_reads();
    reveal(reads_filters);
    let x = num::<Fixed>(1).div_spec(num(2048));
    assert(num::<Fixed>(1).0 == ONE && num::<Fixed>(2048).0 == 2048 * ONE);
    let part = (ONE * ONE) / (2048 * ONE);
    assert(part == 2_097_152);
    assert(x.0 == 2_097_152);
    let one = (ONE as int) as real;
    assert(1real / one <= 1real / 1024real && 2_097_152real / one == 1real / 2048real)
        by (nonlinear_arith)
        requires
            one == 4_294_967_296real,
    ;
}

} // verus!
