//! The numbers that audio is made of.
//!
//! Samples, gains, speeds and tempos are values of one number type. The
//! library is generic over it: the arithmetic comes from the operators of the
//! standard library, and the contracts speak of what those operators compute.

use core::ops::{Add, Div, Mul, Rem, Sub};
use vstd::prelude::*;
use vstd::std_specs::cmp::{PartialEqSpec, PartialOrdIs, PartialOrdSpec};
use vstd::std_specs::convert::FromSpec;
use vstd::std_specs::ops::{AddSpec, DivSpec, MulSpec, RemSpec, SubSpec};

verus! {

/// A number type with the four operations and remainders, an order, and a value for every
/// small whole number. `f32` and `f64` are such types.
pub trait Sample: Copy + PartialOrd + Add<Output = Self> + Sub<Output = Self> + Mul<
    Output = Self,
> + Div<Output = Self> + Rem<Output = Self> + From<i16> {

}

impl<
    T: Copy + PartialOrd + Add<Output = T> + Sub<Output = T> + Mul<Output = T> + Div<Output = T>
        + Rem<Output = T> + From<i16>,
> Sample for T {

}

/// The comparisons of `S` give what its specification says.
pub open spec fn ordered<S: Sample>() -> bool {
    S::obeys_partial_cmp_spec() && S::obeys_eq_spec()
}

/// The operations of `S` accept every pair of operands, and give what
/// its specification says.
pub open spec fn arithmetic<S: Sample>() -> bool {
    &&& S::obeys_add_spec()
    &&& S::obeys_sub_spec()
    &&& S::obeys_mul_spec()
    &&& S::obeys_div_spec()
    &&& S::obeys_rem_spec()
    &&& forall|a: S, b: S| #[trigger] a.add_req(b)
    &&& forall|a: S, b: S| #[trigger] a.sub_req(b)
    &&& forall|a: S, b: S| #[trigger] a.mul_req(b)
    &&& forall|a: S, b: S| #[trigger] a.div_req(b)
    &&& forall|a: S, b: S| #[trigger] a.rem_req(b)
}

/// Whole numbers become values of `S` as its specification says.
pub open spec fn counts<S: Sample>() -> bool {
    <S as FromSpec<i16>>::obeys_from_spec()
}

/// `S` is a number type whose operations never fail, and whose results depend
/// on the operands alone. The floating-point types are such, if all their
/// undefined numbers are taken for one.
pub open spec fn total_arithmetic<S: Sample>() -> bool {
    &&& ordered::<S>()
    &&& arithmetic::<S>()
    &&& counts::<S>()
}

/// What comparisons have in common with those of real numbers. A number that
/// does not equal itself compares with none.
pub open spec fn order_laws<S: Sample>() -> bool {
    &&& forall|a: S, b: S|
        #[trigger] lt(a, b) ==> !lt(b, a) && !same(a, b) && same(a, a) && same(b, b)
    &&& forall|a: S, b: S| #[trigger] le(a, b) <==> lt(a, b) || same(a, b)
    &&& forall|a: S, b: S| #[trigger] same(a, b) ==> same(b, a) && same(a, a)
    &&& forall|a: S, b: S|
        same(a, a) && same(b, b) ==> #[trigger] lt(a, b) || same(a, b) || lt(b, a)
    &&& forall|a: S, b: S, c: S| #[trigger] lt(a, b) && #[trigger] lt(b, c) ==> lt(a, c)
    &&& forall|a: S, b: S, c: S| #[trigger] same(a, b) && #[trigger] same(b, c) ==> same(a, c)
    &&& forall|a: S, b: S, c: S| #[trigger] same(a, b) && #[trigger] lt(b, c) ==> lt(a, c)
    &&& forall|a: S, b: S, c: S| #[trigger] lt(a, b) && #[trigger] same(b, c) ==> lt(a, c)
}

/// What whole numbers and finite ones have in common with real numbers.
pub open spec fn number_laws<S: Sample>() -> bool {
    &&& forall|x: S| #[trigger] finite(x) ==> same(x, x)
    &&& forall|k: i16| finite(#[trigger] num::<S>(k))
    &&& forall|j: i16, k: i16| j < k ==> lt(#[trigger] num::<S>(j), #[trigger] num::<S>(k))
    &&& forall|a: S, x: S, b: S|
        #[trigger] le(a, x) && #[trigger] le(x, b) && finite(a) && finite(b) ==> finite(x)
    &&& finite(half::<S>())
    &&& lt(num::<S>(0), half::<S>())
    &&& lt(half::<S>(), num::<S>(1))
    &&& forall|k: i16|
        k > i16::MIN ==> same(
            #[trigger] num::<S>(0).sub_spec(num(k)),
            num::<S>((-k) as i16),
        )
    &&& same(half::<S>().add_spec(num::<S>(1).sub_spec(half())), num::<S>(1))
}

/// What sums and differences have in common with those of real numbers. All
/// of this survives rounding.
pub open spec fn sum_laws<S: Sample>() -> bool {
    &&& forall|a: S, b: S, c: S|
        le(a, b) && finite(c) ==> #[trigger] le(c.add_spec(a), c.add_spec(b))
    &&& forall|a: S, b: S, c: S|
        le(a, b) && finite(c) ==> #[trigger] le(a.add_spec(c), b.add_spec(c))
    &&& forall|a: S, b: S, c: S|
        le(a, b) && finite(c) ==> #[trigger] le(a.sub_spec(c), b.sub_spec(c))
    &&& forall|a: S, b: S, c: S|
        le(a, b) && finite(c) ==> #[trigger] le(c.sub_spec(b), c.sub_spec(a))
    &&& forall|a: S, b: S|
        le(num(0), a) && le(num(0), b) ==> le(a, #[trigger] a.add_spec(b)) && le(b, a.add_spec(b))
    &&& forall|a: S, b: S| finite(a) && lt(num(0), b) ==> le(a, #[trigger] a.add_spec(b))
    &&& forall|a: S, b: S| finite(a) && lt(num(0), b) ==> le(#[trigger] a.sub_spec(b), a)
    &&& forall|a: S, b: S|
        finite(a) && finite(b) ==> (lt(num(0), #[trigger] a.sub_spec(b)) <==> lt(b, a))
    &&& forall|x: S|
        finite(x) ==> same(#[trigger] num::<S>(0).add_spec(x), x)
    &&& forall|x: S|
        finite(x) ==> same(#[trigger] x.add_spec(num(0)), x)
    &&& forall|x: S|
        finite(x) ==> same(#[trigger] x.sub_spec(num(0)), x)
    &&& forall|x: S| finite(x) ==> same(#[trigger] x.sub_spec(x), num(0))
}

/// What products and quotients have in common with those of real numbers. All
/// of this survives rounding.
pub open spec fn product_laws<S: Sample>() -> bool {
    &&& forall|a: S, b: S, c: S|
        le(a, b) && le(num(0), c) && finite(a) && finite(b) && finite(c) ==> #[trigger] le(
            a.mul_spec(c),
            b.mul_spec(c),
        )
    &&& forall|a: S, b: S, c: S|
        le(a, b) && le(num(0), c) && finite(a) && finite(b) && finite(c) ==> #[trigger] le(
            c.mul_spec(a),
            c.mul_spec(b),
        )
    &&& forall|a: S, b: S, c: S|
        le(a, b) && lt(num(0), c) && finite(c) ==> #[trigger] le(a.div_spec(c), b.div_spec(c))
    &&& forall|x: S| finite(x) ==> same(#[trigger] num::<S>(1).mul_spec(x), x)
    &&& forall|x: S| finite(x) ==> same(#[trigger] x.mul_spec(num(1)), x)
    &&& forall|x: S| finite(x) ==> same(#[trigger] x.mul_spec(num(0)), num(0))
    &&& forall|x: S| finite(x) ==> same(#[trigger] num::<S>(0).mul_spec(x), num(0))
    &&& forall|x: S|
        finite(x) ==> same(#[trigger] num::<S>(-1i16).mul_spec(x), num::<S>(0).sub_spec(x))
    &&& forall|x: S| finite(x) && lt(num(0), x) ==> same(#[trigger] x.div_spec(x), num(1))
    &&& forall|x: S|
        finite(x) && lt(num(0), x) ==> same(#[trigger] num::<S>(0).div_spec(x), num(0))
}

/// `S` behaves like the real numbers as far as numbers that are rounded to
/// the nearest one of a type can: the floating-point types do.
pub open spec fn real_like<S: Sample>() -> bool {
    &&& order_laws::<S>()
    &&& number_laws::<S>()
    &&& sum_laws::<S>()
    &&& product_laws::<S>()
}

/// The value of `S` that stands for the whole number `k`.
pub open spec fn num<S: Sample>(k: i16) -> S {
    <S as FromSpec<i16>>::from_spec(k)
}

/// `a < b`.
pub open spec fn lt<S: Sample>(a: S, b: S) -> bool {
    a.is_lt(&b)
}

/// `a <= b`.
pub open spec fn le<S: Sample>(a: S, b: S) -> bool {
    a.is_le(&b)
}

/// `a == b`, as the number type compares. Not every number need equal itself.
pub open spec fn same<S: Sample>(a: S, b: S) -> bool {
    a.eq_spec(&b)
}

/// Neither infinite nor undefined: what is left after taking `x` from itself
/// is a number.
pub open spec fn finite<S: Sample>(x: S) -> bool {
    same(x.sub_spec(x), x.sub_spec(x))
}

/// The larger of two numbers; an undefined one counts for nothing.
pub open spec fn larger<S: Sample>(a: S, b: S) -> S {
    if lt(a, b) || !same(a, a) {
        b
    } else {
        a
    }
}

/// The smaller of two numbers; an undefined one counts for nothing.
pub open spec fn smaller<S: Sample>(a: S, b: S) -> S {
    if lt(b, a) || !same(a, a) {
        b
    } else {
        a
    }
}

/// `x` brought into `lo..=hi`; an undefined number stays as it is.
pub open spec fn clamped<S: Sample>(x: S, lo: S, hi: S) -> S {
    if lt(x, lo) {
        lo
    } else if lt(hi, x) {
        hi
    } else {
        x
    }
}

/// `a` and `b` are less than `tolerance` apart.
pub open spec fn near<S: Sample>(a: S, b: S, tolerance: S) -> bool {
    lt(a.sub_spec(b), tolerance) && lt(b.sub_spec(a), tolerance)
}

/// One half.
pub open spec fn half<S: Sample>() -> S {
    num::<S>(1).div_spec(num::<S>(2))
}

/// The least whole number from `lo` on that is not below `x`, or `hi` where
/// none below `hi` is.
pub open spec fn ceiling<S: Sample>(x: S, lo: int, hi: int) -> int
    decreases hi - lo,
{
    if lo >= hi {
        hi
    } else if lt(num::<S>(lo as i16), x) {
        ceiling(x, lo + 1, hi)
    } else {
        lo
    }
}

/// The least whole number from `lo` on that `x` exceeds by less than one
/// half, or `hi` where none below `hi` is. For `x` from `lo` up this is the
/// whole number nearest to `x`, halves rounded up, held to `hi`.
pub open spec fn nearest<S: Sample>(x: S, lo: int, hi: int) -> int
    decreases hi - lo,
{
    if lo >= hi {
        hi
    } else if lt(x, num::<S>(lo as i16).add_spec(half::<S>())) {
        lo
    } else {
        nearest(x, lo + 1, hi)
    }
}

/// The whole number nearest to `x`, halves rounded away from zero, held to
/// `-bound..=bound`.
pub open spec fn nearest_signed<S: Sample>(x: S, bound: int) -> int {
    if lt(x, num::<S>(0)) {
        -nearest(num::<S>(0).sub_spec(x), 0, bound)
    } else {
        nearest(x, 0, bound)
    }
}

/// The number that stands for the whole number `k`.
pub fn whole<S: Sample>(k: i16) -> (r: S)
    requires
        counts::<S>(),
    ensures
        r == num::<S>(k),
{
    S::from(k)
}

/// The number that stands for the count `n`. Counts are put together from
/// digits to base 16384, the highest first.
pub open spec fn count<S: Sample>(n: nat) -> S
    decreases n,
{
    if n < 16384 {
        num(n as i16)
    } else {
        count::<S>(n / 16384).mul_spec(num(16384)).add_spec(num((n % 16384) as i16))
    }
}

/// The number that stands for the count `n`.
pub fn count_of<S: Sample>(n: u64) -> (r: S)
    requires
        total_arithmetic::<S>(),
    ensures
        r == count::<S>(n as nat),
    decreases n,
{
    if n < 16384 {
        whole(n as i16)
    } else {
        count_of::<S>(n / 16384) * whole(16384) + whole((n % 16384) as i16)
    }
}

/// Whether `x` is neither infinite nor undefined.
pub fn is_finite<S: Sample>(x: S) -> (r: bool)
    requires
        total_arithmetic::<S>(),
    ensures
        r == finite(x),
{
    x - x == x - x
}

/// The larger of two numbers.
pub fn larger_of<S: Sample>(a: S, b: S) -> (r: S)
    requires
        ordered::<S>(),
    ensures
        r == larger(a, b),
{
    if a < b {
        b
    } else if a == a {
        a
    } else {
        b
    }
}

/// The smaller of two numbers.
pub fn smaller_of<S: Sample>(a: S, b: S) -> (r: S)
    requires
        ordered::<S>(),
    ensures
        r == smaller(a, b),
{
    if b < a {
        b
    } else if a == a {
        a
    } else {
        b
    }
}

/// Brings `x` into `lo..=hi`.
pub fn clamp_to<S: Sample>(x: S, lo: S, hi: S) -> (r: S)
    requires
        ordered::<S>(),
    ensures
        r == clamped(x, lo, hi),
{
    if x < lo {
        lo
    } else if hi < x {
        hi
    } else {
        x
    }
}

/// Whether `a` and `b` are less than `tolerance` apart.
pub fn is_near<S: Sample>(a: S, b: S, tolerance: S) -> (r: bool)
    requires
        total_arithmetic::<S>(),
    ensures
        r == near(a, b, tolerance),
{
    a - b < tolerance && b - a < tolerance
}

/// Rounds `x` up to a whole number in `lo..=hi`.
pub fn ceiling_within<S: Sample>(x: S, lo: i16, hi: i16) -> (r: i16)
    requires
        total_arithmetic::<S>(),
        lo <= hi,
    ensures
        r == ceiling(x, lo as int, hi as int),
        lo <= r <= hi,
{
    let mut k: i16 = lo;
    while k < hi && whole::<S>(k) < x
        invariant
            total_arithmetic::<S>(),
            lo <= k <= hi,
            ceiling(x, k as int, hi as int) == ceiling(x, lo as int, hi as int),
        decreases hi - k,
    {
        k = k + 1;
    }
    k
}

/// Rounds `x` to the nearest whole number in `lo..=hi`.
pub fn nearest_within<S: Sample>(x: S, lo: i16, hi: i16) -> (r: i16)
    requires
        total_arithmetic::<S>(),
        lo <= hi,
    ensures
        r == nearest(x, lo as int, hi as int),
        lo <= r <= hi,
{
    let half: S = whole::<S>(1) / whole::<S>(2);
    let mut k: i16 = lo;
    while k < hi && !(x < whole::<S>(k) + half)
        invariant
            total_arithmetic::<S>(),
            half == self::half::<S>(),
            lo <= k <= hi,
            nearest(x, k as int, hi as int) == nearest(x, lo as int, hi as int),
        decreases hi - k,
    {
        k = k + 1;
    }
    k
}

/// Rounds `x` to the nearest whole number in `-bound..=bound`.
pub fn nearest_signed_within<S: Sample>(x: S, bound: i16) -> (r: i16)
    requires
        total_arithmetic::<S>(),
        0 <= bound,
    ensures
        r == nearest_signed(x, bound as int),
        -bound <= r <= bound,
{
    let zero: S = whole::<S>(0);
    if x < zero {
        -nearest_within(zero - x, 0, bound)
    } else {
        nearest_within(x, 0, bound)
    }
}

/// Rounding to the nearest stays within its bounds.
pub proof fn nearest_bounds<S: Sample>(x: S, lo: int, hi: int)
    requires
        lo <= hi,
    ensures
        lo <= nearest(x, lo, hi) <= hi,
    decreases hi - lo,
{
    if lo < hi && !lt(x, num::<S>(lo as i16).add_spec(half::<S>())) {
        nearest_bounds(x, lo + 1, hi);
    }
}

/// The least count from `lo` on that `x` exceeds by less than one half, or
/// `hi` where none below `hi` is.
pub open spec fn nearest_count<S: Sample>(x: S, lo: int, hi: int) -> int
    decreases hi - lo,
{
    if lo >= hi {
        hi
    } else if lt(x, count::<S>(lo as nat).add_spec(half::<S>())) {
        lo
    } else {
        nearest_count(x, lo + 1, hi)
    }
}

/// Rounds `x` to the nearest count in `0..=hi`.
pub fn nearest_count_up_to<S: Sample>(x: S, hi: usize) -> (r: usize)
    requires
        total_arithmetic::<S>(),
    ensures
        r == nearest_count(x, 0, hi as int),
        r <= hi,
{
    let half: S = whole::<S>(1) / whole::<S>(2);
    let mut k: usize = 0;
    while k < hi && !(x < count_of::<S>(k as u64) + half)
        invariant
            total_arithmetic::<S>(),
            half == self::half::<S>(),
            k <= hi,
            nearest_count(x, k as int, hi as int) == nearest_count(x, 0, hi as int),
        decreases hi - k,
    {
        k = k + 1;
    }
    k
}

/// The numbers of counts up to `top` are finite, and in the order of the
/// counts.
pub open spec fn counts_rise<S: Sample>(top: nat) -> bool {
    &&& forall|n: nat| n <= top ==> finite(#[trigger] count::<S>(n))
    &&& forall|n: nat| 0 < n <= top ==> lt(num(0), #[trigger] count::<S>(n))
    &&& forall|n: nat, m: nat|
        n <= m <= top ==> le(#[trigger] count::<S>(n), #[trigger] count::<S>(m))
}

/// `n` is nearest to `x` of the whole numbers in `-bound..=bound`, halves
/// going away from zero.
pub open spec fn rounds_to<S: Sample>(x: S, n: int, bound: int) -> bool {
    let (y, m) = if lt(x, num(0)) {
        (num::<S>(0).sub_spec(x), -n)
    } else {
        (x, n)
    };
    &&& 0 <= m <= bound
    &&& m < bound ==> lt(y, num::<S>(m as i16).add_spec(half::<S>()))
    &&& m > 0 ==> !lt(y, num::<S>((m - 1) as i16).add_spec(half::<S>()))
}

/// Rounding gives a nearest whole number.
pub proof fn rounding_is_nearest<S: Sample>(x: S, bound: int)
    requires
        0 <= bound <= i16::MAX,
    ensures
        rounds_to(x, nearest_signed(x, bound), bound),
{
    let y = if lt(x, num(0)) {
        num::<S>(0).sub_spec(x)
    } else {
        x
    };
    nearest_is_first(y, 0, bound);
}

/// Rounding gives the first whole number that is exceeded by less than one half.
pub(crate) proof fn nearest_is_first<S: Sample>(x: S, lo: int, hi: int)
    requires
        lo <= hi,
    ensures
        ({
            let k = nearest(x, lo, hi);
            &&& lo <= k <= hi
            &&& k < hi ==> lt(x, num::<S>(k as i16).add_spec(half::<S>()))
            &&& k > lo ==> !lt(x, num::<S>((k - 1) as i16).add_spec(half::<S>()))
        }),
    decreases hi - lo,
{
    if lo < hi && !lt(x, num::<S>(lo as i16).add_spec(half::<S>())) {
        nearest_is_first(x, lo + 1, hi);
    }
}

/// There is only one nearest whole number.
pub proof fn nearest_is_unique<S: Sample>(x: S, n: int, bound: int)
    requires
        real_like::<S>(),
        0 <= bound <= i16::MAX,
        rounds_to(x, n, bound),
    ensures
        nearest_signed(x, bound) == n,
{
    rounding_is_nearest(x, bound);
    let a = nearest_signed(x, bound);
    let (m, k) = if lt(x, num(0)) {
        (-n, -a)
    } else {
        (n, a)
    };
    if m < k {
        steps_rise::<S>(m, k - 1);
    } else if k < m {
        steps_rise::<S>(k, m - 1);
    }
}

/// Half above a whole number is not above half above a later one.
proof fn steps_rise<S: Sample>(j: int, k: int)
    requires
        real_like::<S>(),
        0 <= j <= k <= i16::MAX,
    ensures
        le(
            num::<S>(j as i16).add_spec(half::<S>()),
            num::<S>(k as i16).add_spec(half::<S>()),
        ),
{
    assert(finite(num::<S>(j as i16)));
    if j < k {
        assert(lt(num::<S>(j as i16), num::<S>(k as i16)));
    }
    assert(le(num::<S>(j as i16), num::<S>(k as i16)));
}

} // verus!
