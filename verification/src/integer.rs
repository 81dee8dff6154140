//! Integer arithmetic of the carrier: quotient and remainder of signed
//! 64-bit integers, rounding toward zero and wrapping on overflow.

use vstd::prelude::*;

verus! {

/// The size of an integer without its sign.
pub open spec fn magnitude(x: int) -> int {
    if x < 0 {
        -x
    } else {
        x
    }
}

/// The quotient of `x` by `y`, rounded toward zero. The one quotient that
/// does not fit, of the least integer by minus one, wraps to the least
/// integer.
pub open spec fn quotient(x: i64, y: i64) -> i64 {
    let q = magnitude(x as int) / magnitude(y as int);
    if (x < 0) == (y < 0) {
        if q > i64::MAX {
            i64::MIN
        } else {
            q as i64
        }
    } else {
        (-q) as i64
    }
}

/// The remainder of `x` by `y`, with the sign of `x`.
pub open spec fn remainder(x: i64, y: i64) -> i64 {
    let m = magnitude(x as int) % magnitude(y as int);
    if x < 0 {
        (-m) as i64
    } else {
        m as i64
    }
}

fn magnitude_of(x: i64) -> (r: u64)
    ensures
        r == magnitude(x as int),
{
    if x >= 0 {
        x as u64
    } else if x == i64::MIN {
        9223372036854775808u64
    } else {
        (-x) as u64
    }
}

/// The quotient of `x` by `y`.
pub fn divide(x: i64, y: i64) -> (r: i64)
    requires
        y != 0,
    ensures
        r == quotient(x, y),
{
    let mx = magnitude_of(x);
    let my = magnitude_of(y);
    let q: u64 = mx / my;
    assert(q <= mx) by (nonlinear_arith)
        requires
            q == mx / my,
            my >= 1,
    ;
    if (x < 0) == (y < 0) {
        if q > 9223372036854775807u64 {
            i64::MIN
        } else {
            q as i64
        }
    } else {
        if q == 9223372036854775808u64 {
            i64::MIN
        } else {
            -(q as i64)
        }
    }
}

/// The remainder of `x` by `y`.
pub fn modulo(x: i64, y: i64) -> (r: i64)
    requires
        y != 0,
    ensures
        r == remainder(x, y),
{
    let mx = magnitude_of(x);
    let my = magnitude_of(y);
    let m: u64 = mx % my;
    assert(m < my);
    if x < 0 {
        -(m as i64)
    } else {
        m as i64
    }
}

} // verus!
