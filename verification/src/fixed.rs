//! Numbers with a fixed number of binary places: a number type of the
//! library's own.

use core::ops::{Add, Div, Mul, Rem, Sub};
use vstd::prelude::*;
use vstd::std_specs::cmp::{PartialEqSpecImpl, PartialOrdSpecImpl};
use vstd::std_specs::convert::FromSpecImpl;
use vstd::std_specs::ops::{AddSpecImpl, DivSpecImpl, MulSpecImpl, RemSpecImpl, SubSpecImpl};

pub mod laws;

verus! {

/// A number with thirty-two binary places, given in units of the last place.
/// What is too large or too small stops at the largest or the smallest
/// number, and products and quotients are rounded down.
#[derive(Clone, Copy, Debug)]
pub struct Fixed(pub i64);

/// The units of one.
pub const ONE: i64 = 4_294_967_296;

/// The nearest number of units that can be held.
pub open spec fn held(x: int) -> i64 {
    if x > i64::MAX {
        i64::MAX
    } else if x < i64::MIN {
        i64::MIN
    } else {
        x as i64
    }
}

/// The nearest number of units that can be held.
fn hold(x: i128) -> (r: i64)
    ensures
        r == held(x as int),
{
    if x > i64::MAX as i128 {
        i64::MAX
    } else if x < i64::MIN as i128 {
        i64::MIN
    } else {
        x as i64
    }
}

/// `x / y`, rounded down for a `y` above zero; zero where `y` is.
pub open spec fn quotient(x: int, y: int) -> int {
    if y == 0 {
        0
    } else {
        x / y
    }
}

fn divide(x: i128, y: i128) -> (r: i128)
    requires
        -0x4000_0000_0000_0000_0000_0000_0000_0000 <= x
            <= 0x4000_0000_0000_0000_0000_0000_0000_0000,
    ensures
        r == quotient(x as int, y as int),
{
    if y == 0 {
        return 0;
    }
    proof {
        small_quotient(x as int, y as int);
    }
    match x.checked_div_euclid(y) {
        Some(q) => q,
        None => 0,
    }
}

/// A quotient is no further from zero than what is divided, but for one.
proof fn small_quotient(x: int, y: int)
    requires
        y != 0,
    ensures
        -1 - (if x < 0 {
            -x
        } else {
            x
        }) <= x / y <= 1 + (if x < 0 {
            -x
        } else {
            x
        }),
{
    let q = x / y;
    let r = x % y;
    assert(x == y * q + r && 0 <= r < (if y < 0 {
        -y
    } else {
        y
    })) by (nonlinear_arith)
        requires
            y != 0,
            q == x / y,
            r == x % y,
    ;
    assert(-1 - (if x < 0 {
        -x
    } else {
        x
    }) <= q <= 1 + (if x < 0 {
        -x
    } else {
        x
    })) by (nonlinear_arith)
        requires
            y != 0,
            x == y * q + r,
            0 <= r < (if y < 0 {
                -y
            } else {
                y
            }),
    ;
}

impl Add for Fixed {
    type Output = Fixed;

    fn add(self, other: Fixed) -> (r: Fixed) {
        Fixed(hold(self.0 as i128 + other.0 as i128))
    }
}

impl AddSpecImpl for Fixed {
    open spec fn obeys_add_spec() -> bool {
        true
    }

    open spec fn add_req(self, other: Fixed) -> bool {
        true
    }

    open spec fn add_spec(self, other: Fixed) -> Fixed {
        Fixed(held(self.0 + other.0))
    }
}

impl Sub for Fixed {
    type Output = Fixed;

    fn sub(self, other: Fixed) -> (r: Fixed) {
        Fixed(hold(self.0 as i128 - other.0 as i128))
    }
}

impl SubSpecImpl for Fixed {
    open spec fn obeys_sub_spec() -> bool {
        true
    }

    open spec fn sub_req(self, other: Fixed) -> bool {
        true
    }

    open spec fn sub_spec(self, other: Fixed) -> Fixed {
        Fixed(held(self.0 - other.0))
    }
}

/// The product of two numbers of units is bounded.
proof fn product_bounded(a: i64, b: i64)
    ensures
        -0x4000_0000_0000_0000_0000_0000_0000_0000 <= a * b
            <= 0x4000_0000_0000_0000_0000_0000_0000_0000,
{
    assert(-0x4000_0000_0000_0000_0000_0000_0000_0000 <= a * b
        <= 0x4000_0000_0000_0000_0000_0000_0000_0000) by (nonlinear_arith)
        requires
            -0x8000_0000_0000_0000 <= a <= 0x8000_0000_0000_0000,
            -0x8000_0000_0000_0000 <= b <= 0x8000_0000_0000_0000,
    ;
}

impl Mul for Fixed {
    type Output = Fixed;

    fn mul(self, other: Fixed) -> (r: Fixed) {
        proof {
            product_bounded(self.0, other.0);
        }
        Fixed(hold(divide(self.0 as i128 * other.0 as i128, ONE as i128)))
    }
}

impl MulSpecImpl for Fixed {
    open spec fn obeys_mul_spec() -> bool {
        true
    }

    open spec fn mul_req(self, other: Fixed) -> bool {
        true
    }

    open spec fn mul_spec(self, other: Fixed) -> Fixed {
        Fixed(held(quotient(self.0 * other.0, ONE as int)))
    }
}

impl Div for Fixed {
    type Output = Fixed;

    fn div(self, other: Fixed) -> (r: Fixed) {
        Fixed(hold(divide(self.0 as i128 * ONE as i128, other.0 as i128)))
    }
}

impl DivSpecImpl for Fixed {
    open spec fn obeys_div_spec() -> bool {
        true
    }

    open spec fn div_req(self, other: Fixed) -> bool {
        true
    }

    open spec fn div_spec(self, other: Fixed) -> Fixed {
        Fixed(held(quotient(self.0 * ONE, other.0 as int)))
    }
}

impl Rem for Fixed {
    type Output = Fixed;

    /// The remainder that is not negative; zero where there is none.
    fn rem(self, other: Fixed) -> (r: Fixed) {
        match self.0.checked_rem_euclid(other.0) {
            Some(q) => Fixed(q),
            None => Fixed(0),
        }
    }
}

impl RemSpecImpl for Fixed {
    open spec fn obeys_rem_spec() -> bool {
        true
    }

    open spec fn rem_req(self, other: Fixed) -> bool {
        true
    }

    open spec fn rem_spec(self, other: Fixed) -> Fixed {
        match self.0.checked_rem_euclid(other.0) {
            Some(q) => Fixed(q),
            None => Fixed(0),
        }
    }
}

impl PartialEq for Fixed {
    fn eq(&self, other: &Fixed) -> (r: bool) {
        self.0 == other.0
    }
}

impl PartialEqSpecImpl for Fixed {
    open spec fn obeys_eq_spec() -> bool {
        true
    }

    open spec fn eq_spec(&self, other: &Fixed) -> bool {
        self.0 == other.0
    }
}

impl PartialOrd for Fixed {
    fn partial_cmp(&self, other: &Fixed) -> (r: Option<core::cmp::Ordering>) {
        if self.0 < other.0 {
            Some(core::cmp::Ordering::Less)
        } else if self.0 == other.0 {
            Some(core::cmp::Ordering::Equal)
        } else {
            Some(core::cmp::Ordering::Greater)
        }
    }
}

impl PartialOrdSpecImpl for Fixed {
    open spec fn obeys_partial_cmp_spec() -> bool {
        true
    }

    open spec fn partial_cmp_spec(&self, other: &Fixed) -> Option<core::cmp::Ordering> {
        if self.0 < other.0 {
            Some(core::cmp::Ordering::Less)
        } else if self.0 == other.0 {
            Some(core::cmp::Ordering::Equal)
        } else {
            Some(core::cmp::Ordering::Greater)
        }
    }
}

impl From<i16> for Fixed {
    fn from(k: i16) -> (r: Fixed) {
        Fixed(k as i64 * ONE)
    }
}

impl FromSpecImpl<i16> for Fixed {
    open spec fn obeys_from_spec() -> bool {
        true
    }

    open spec fn from_spec(k: i16) -> Fixed {
        Fixed((k * ONE) as i64)
    }
}

} // verus!
