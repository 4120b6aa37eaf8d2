//! Numbers read as real ones: what the operations of a number type have to do
//! with those of real numbers, up to rounding.

use vstd::prelude::*;
use vstd::std_specs::ops::{AddSpec, DivSpec, MulSpec, SubSpec};

use crate::sample::{finite, lt, num, Sample};

verus! {

/// The distance of two real numbers.
pub open spec fn apart(x: real, y: real) -> real {
    if x < y {
        y - x
    } else {
        x - y
    }
}

/// `x` is no further from zero than `bound`.
pub open spec fn within_real(x: real, bound: real) -> bool {
    -bound <= x <= bound
}

/// `value` tells which real number each finite number stands for. Whole
/// numbers stand for themselves, comparisons are those of the real numbers,
/// and an operation gives the true result up to `err`, so long as that is no
/// further from zero than `top`. The floating-point types can be read so, with
/// an `err` that grows with `top`.
pub open spec fn reads<S: Sample>(value: spec_fn(S) -> real, top: real, err: real) -> bool {
    &&& 0real <= err
    &&& forall|k: i16|
        finite(#[trigger] num::<S>(k)) && value(num::<S>(k)) == (k as int) as real
    &&& forall|a: S, b: S|
        finite(a) && finite(b) ==> (#[trigger] lt(a, b) <==> value(a) < value(b))
    &&& forall|a: S, b: S|
        finite(a) && finite(b) && within_real(value(a) + value(b), top) ==> finite(
            #[trigger] a.add_spec(b),
        ) && apart(value(a.add_spec(b)), value(a) + value(b)) <= err
    &&& forall|a: S, b: S|
        finite(a) && finite(b) && within_real(value(a) - value(b), top) ==> finite(
            #[trigger] a.sub_spec(b),
        ) && apart(value(a.sub_spec(b)), value(a) - value(b)) <= err
    &&& forall|a: S, b: S|
        finite(a) && finite(b) && within_real(value(a) * value(b), top) ==> finite(
            #[trigger] a.mul_spec(b),
        ) && apart(value(a.mul_spec(b)), value(a) * value(b)) <= err
    &&& forall|a: S, b: S|
        finite(a) && finite(b) && value(b) != 0real && within_real(value(a) / value(b), top)
            ==> finite(#[trigger] a.div_spec(b)) && apart(
            value(a.div_spec(b)),
            value(a) / value(b),
        ) <= err
}

/// `a` is finite, and stands for `x` up to `slack`.
pub open spec fn about<S: Sample>(value: spec_fn(S) -> real, a: S, x: real, slack: real) -> bool {
    finite(a) && apart(value(a), x) <= slack
}

/// What a sum stands for.
pub proof fn about_sum<S: Sample>(
    value: spec_fn(S) -> real,
    top: real,
    err: real,
    a: S,
    x: real,
    ea: real,
    b: S,
    y: real,
    eb: real,
)
    requires
        reads(value, top, err),
        about(value, a, x, ea),
        about(value, b, y, eb),
        within_real(x + y, top - ea - eb),
    ensures
        about(value, a.add_spec(b), x + y, ea + eb + err),
{
}

/// What a difference stands for.
pub proof fn about_difference<S: Sample>(
    value: spec_fn(S) -> real,
    top: real,
    err: real,
    a: S,
    x: real,
    ea: real,
    b: S,
    y: real,
    eb: real,
)
    requires
        reads(value, top, err),
        about(value, a, x, ea),
        about(value, b, y, eb),
        within_real(x - y, top - ea - eb),
    ensures
        about(value, a.sub_spec(b), x - y, ea + eb + err),
{
}

/// A product of real numbers within bounds is within the product of the
/// bounds.
pub proof fn within_product(x: real, y: real, bx: real, by: real)
    requires
        within_real(x, bx),
        within_real(y, by),
    ensures
        within_real(x * y, bx * by),
{
    assert(-(bx * by) <= x * y <= bx * by) by (nonlinear_arith)
        requires
            -bx <= x <= bx,
            -by <= y <= by,
    ;
}

/// What a product stands for, where `x` and `y` are within `bx` and `by`.
pub proof fn about_product<S: Sample>(
    value: spec_fn(S) -> real,
    top: real,
    err: real,
    a: S,
    x: real,
    ea: real,
    bx: real,
    b: S,
    y: real,
    eb: real,
    by: real,
)
    requires
        reads(value, top, err),
        about(value, a, x, ea),
        about(value, b, y, eb),
        within_real(x, bx),
        within_real(y, by),
        bx * by + bx * eb + by * ea + ea * eb <= top,
    ensures
        about(value, a.mul_spec(b), x * y, bx * eb + by * ea + ea * eb + err),
{
    let p = value(a);
    let q = value(b);
    let dp = p - x;
    let dq = q - y;
    assert(p * q == x * y + x * dq + y * dp + dp * dq) by (nonlinear_arith)
        requires
            p == x + dp,
            q == y + dq,
    ;
    within_product(x, y, bx, by);
    within_product(x, dq, bx, eb);
    within_product(y, dp, by, ea);
    within_product(dp, dq, ea, eb);
}

/// Multiplying a sum and a difference.
pub proof fn spread(a: real, b: real, d: real)
    ensures
        (a + b) * d == a * d + b * d,
        (a - b) * d == a * d - b * d,
        d * (a + b) == d * a + d * b,
        d * (a - b) == d * a - d * b,
        (-a) * d == -(a * d),
        d * (-a) == -(d * a),
{
    assert((a + b) * d == a * d + b * d) by (nonlinear_arith);
    assert((a - b) * d == a * d - b * d) by (nonlinear_arith);
    assert(d * (a + b) == d * a + d * b) by (nonlinear_arith);
    assert(d * (a - b) == d * a - d * b) by (nonlinear_arith);
    assert((-a) * d == -(a * d)) by (nonlinear_arith);
    assert(d * (-a) == -(d * a)) by (nonlinear_arith);
}

/// The order of factors does not matter.
pub proof fn regroup(a: real, b: real, c: real)
    ensures
        a * b == b * a,
        (a * b) * c == a * (b * c),
{
    assert(a * b == b * a) by (nonlinear_arith);
    assert((a * b) * c == a * (b * c)) by (nonlinear_arith);
}

/// A product of numbers from zero up is one.
pub proof fn product_from_zero(a: real, b: real)
    requires
        0real <= a,
        0real <= b,
    ensures
        0real <= a * b,
{
    assert(0real <= a * b) by (nonlinear_arith)
        requires
            0real <= a,
            0real <= b,
    ;
}

/// A quotient times its divisor.
pub proof fn quotient_times_divisor(a: real, b: real)
    requires
        b != 0real,
    ensures
        (a / b) * b == a,
{
    assert((a / b) * b == a) by (nonlinear_arith)
        requires
            b != 0real,
    ;
}

} // verus!
