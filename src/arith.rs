use crate::reducer::Reducer;
use vstd::math::abs;
use vstd::prelude::*;

verus! {

/// An arithmetic step on an `i32` state.
#[derive(Debug, Clone, Copy, PartialEq, Eq)]
pub enum Arith {
    Add(i32),
    Sub(i32),
    Mul(i32),
    /// Division rounding toward zero.
    Div(i32),
}

/// The quotient of `a` by `b`, rounded toward zero.
pub open spec fn div_toward_zero(a: int, b: int) -> int {
    let q: int = abs(a) as int / abs(b) as int;
    if (a < 0) != (b < 0) {
        -q
    } else {
        q
    }
}

/// The exact result of the step, or `None` for a division by zero.
pub open spec fn arith_value(s: int, a: Arith) -> Option<int> {
    match a {
        Arith::Add(x) => Some(s + x),
        Arith::Sub(x) => Some(s - x),
        Arith::Mul(x) => Some(s * x),
        Arith::Div(x) => if x == 0 {
            None
        } else {
            Some(div_toward_zero(s, x as int))
        },
    }
}

/// The state after the step: its exact result, or the state unchanged where that result is
/// undefined or does not fit in an `i32`.
pub open spec fn arith_next(s: i32, a: Arith) -> i32 {
    match arith_value(s as int, a) {
        Some(v) => if i32::MIN <= v <= i32::MAX {
            v as i32
        } else {
            s
        },
        None => s,
    }
}

/// The quotient of `a` by `b`, rounded toward zero, computed on magnitudes.
fn quotient(a: i64, b: i64) -> (r: i64)
    requires
        b != 0,
        -0x1_0000_0000 < a < 0x1_0000_0000,
        -0x1_0000_0000 < b < 0x1_0000_0000,
    ensures
        r == div_toward_zero(a as int, b as int),
{
    let ua: u64 = if a < 0 {
        (-a) as u64
    } else {
        a as u64
    };
    let ub: u64 = if b < 0 {
        (-b) as u64
    } else {
        b as u64
    };
    let q: u64 = ua / ub;
    proof {
        assert(q <= ua) by (nonlinear_arith)
            requires
                ub >= 1,
                q == ua / ub,
        ;
    }
    if (a < 0) != (b < 0) {
        -(q as i64)
    } else {
        q as i64
    }
}

/// An `i32` reduced by arithmetic steps; a step whose result is undefined or out of range is
/// an illegal transition and leaves the state unchanged.
impl Reducer<Arith> for i32 {
    open spec fn reduces(self, action: Arith, next: Self) -> bool {
        next == arith_next(self, action)
    }

    fn reduce(&mut self, action: Arith) {
        let s = *self as i64;
        let v: Option<i64> = match action {
            Arith::Add(x) => Some(s + x as i64),
            Arith::Sub(x) => Some(s - x as i64),
            Arith::Mul(x) => {
                proof {
                    assert(-0x8000_0000 * 0x8000_0000 <= s * x <= 0x8000_0000 * 0x8000_0000)
                        by (nonlinear_arith)
                        requires
                            -0x8000_0000 <= s <= 0x8000_0000,
                            -0x8000_0000 <= x <= 0x8000_0000,
                    ;
                }
                Some(s * x as i64)
            },
            Arith::Div(x) => if x == 0 {
                None
            } else {
                Some(quotient(s, x as i64))
            },
        };
        if let Some(v) = v {
            if i32::MIN as i64 <= v && v <= i32::MAX as i64 {
                *self = v as i32;
            }
        }
    }
}

} // verus!
