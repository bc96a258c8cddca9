//! Integer helpers of the market: square root, minimum and absolute difference.
use crate::wide::{
    narrow_modulus, wide_as_u128, wide_checked_add, wide_checked_div, wide_from_u128, wide_lt,
    wide_modulus, Wide,
};
use vstd::prelude::*;

verus! {

/// `r` is the integer square root of `y`: the largest value whose square does not exceed `y`.
pub open spec fn is_isqrt(y: int, r: int) -> bool {
    0 <= r && r * r <= y && y < (r + 1) * (r + 1)
}

/// The integer square root of `y`.
pub open spec fn isqrt(y: int) -> int {
    choose|r: int| is_isqrt(y, r)
}

/// A value that meets `is_isqrt` is the integer square root.
pub proof fn lemma_isqrt_unique(y: int, r: int)
    requires
        is_isqrt(y, r),
    ensures
        isqrt(y) == r,
{
    let s = isqrt(y);
    assert(is_isqrt(y, s));
    if s < r {
        assert((s + 1) * (s + 1) <= r * r) by (nonlinear_arith)
            requires
                0 <= s < r,
        ;
    } else if r < s {
        assert((r + 1) * (r + 1) <= s * s) by (nonlinear_arith)
            requires
                0 <= r < s,
        ;
    }
}

/// Every natural number has an integer square root, and it is at most the number itself.
pub proof fn lemma_isqrt_exists(y: int)
    requires
        y >= 0,
    ensures
        is_isqrt(y, isqrt(y)),
        0 <= isqrt(y) <= y,
    decreases y,
{
    if y == 0 {
        lemma_isqrt_unique(0, 0);
    } else {
        lemma_isqrt_exists(y - 1);
        let r = isqrt(y - 1);
        if (r + 1) * (r + 1) <= y {
            assert(y < (r + 2) * (r + 2)) by (nonlinear_arith)
                requires
                    y - 1 < (r + 1) * (r + 1),
                    r >= 0,
            ;
            lemma_isqrt_unique(y, r + 1);
        } else {
            lemma_isqrt_unique(y, r);
        }
        let q = isqrt(y);
        assert(q <= y) by (nonlinear_arith)
            requires
                q * q <= y,
                q >= 0,
                y >= 1,
        ;
    }
}

/// The smaller of two values.
pub open spec fn min_spec(x: int, y: int) -> int {
    if x < y { x } else { y }
}

/// The distance between two values.
pub open spec fn absdiff_spec(x: int, y: int) -> int {
    if x < y { y - x } else { x - y }
}

/// One Newton step from `x` never lands below the square root of `y`.
proof fn lemma_newton_step_stays_above(y: int, x: int)
    requires
        y >= 0,
        x >= 1,
    ensures
        ((y / x + x) / 2 + 1) * ((y / x + x) / 2 + 1) > y,
{
    let q = y / x;
    let n = (q + x) / 2;
    assert(y < (q + 1) * x) by (nonlinear_arith)
        requires
            q == y / x,
            x >= 1,
            y >= 0,
    ;
    assert(2 * (n + 1) >= q + x + 1);
    assert(4 * (n + 1) * (n + 1) >= (q + x + 1) * (q + x + 1)) by (nonlinear_arith)
        requires
            2 * (n + 1) >= q + x + 1,
            q + x + 1 >= 0,
    ;
    assert((q + x + 1) * (q + x + 1) >= 4 * (q + 1) * x) by (nonlinear_arith);
    assert(4 * (q + 1) * x > 4 * y) by (nonlinear_arith)
        requires
            y < (q + 1) * x,
    ;
    assert((n + 1) * (n + 1) > y) by (nonlinear_arith)
        requires
            4 * (n + 1) * (n + 1) >= (q + x + 1) * (q + x + 1),
            (q + x + 1) * (q + x + 1) >= 4 * (q + 1) * x,
            4 * (q + 1) * x > 4 * y,
    ;
}

/// From a point above the square root, one Newton step strictly descends.
proof fn lemma_newton_step_descends(y: int, z: int)
    requires
        y >= 0,
        z >= 1,
        z * z > y,
    ensures
        (y / z + z) / 2 < z,
{
    assert(y / z < z) by (nonlinear_arith)
        requires
            z >= 1,
            z * z > y,
            y >= 0,
    ;
}

/// A Newton step from a point at least 2 stays within half the input plus one.
proof fn lemma_newton_step_bounded(y: int, x: int)
    requires
        y >= 4,
        2 <= x <= y / 2 + 1,
    ensures
        y / x <= y / 2,
        (y / x + x) / 2 <= y / 2 + 1,
{
    vstd::arithmetic::div_mod::lemma_div_is_ordered_by_denominator(y, 2, x);
}

/// Integer square root by Newton's method, starting from `y / 2 + 1`.
/// Inputs from 1 to 3 give 1, and 0 gives 0.
pub fn sqrt(y: u128) -> (r: u128)
    ensures
        is_isqrt(y as int, r as int),
        r == isqrt(y as int),
        y == 0 ==> r == 0,
        1 <= y <= 3 ==> r == 1,
{
    if y > 3 {
        let mut z: u128 = y;
        let mut x: u128 = y / 2 + 1;
        assert((y + 1) * (y + 1) > y) by (nonlinear_arith)
            requires
                y > 3,
        ;
        assert(y * y > y) by (nonlinear_arith)
            requires
                y > 3,
        ;
        assert((x + 1) * (x + 1) > y) by (nonlinear_arith)
            requires
                x == y / 2 + 1,
                y > 3,
        ;
        while x < z
            invariant
                y > 3,
                1 <= z,
                2 <= x <= y / 2 + 1,
                (x + 1) * (x + 1) > y,
                (z + 1) * (z + 1) > y,
                z * z > y ==> x < z,
            decreases z,
        {
            z = x;
            proof {
                lemma_newton_step_bounded(y as int, x as int);
            }
            x = (y / x + x) / 2;
            proof {
                lemma_newton_step_stays_above(y as int, z as int);
                if z * z > y {
                    lemma_newton_step_descends(y as int, z as int);
                }
                assert(x >= 2) by (nonlinear_arith)
                    requires
                        (x + 1) * (x + 1) > y,
                        y > 3,
                ;
            }
        }
        proof {
            lemma_isqrt_unique(y as int, z as int);
        }
        z
    } else if y != 0 {
        proof {
            lemma_isqrt_unique(y as int, 1);
        }
        1
    } else {
        proof {
            lemma_isqrt_unique(0, 0);
        }
        y
    }
}

/// Integer square root of a 256-bit value by the same Newton iteration as `sqrt`, carried out
/// on `Wide` values; the root of a 256-bit value always fits in 128 bits.
pub fn sqrt_wide(y: Wide) -> (r: u128)
    ensures
        r == isqrt(y.value() as int),
{
    let ghost yv: int = y.value() as int;
    let one = wide_from_u128(1);
    let two = wide_from_u128(2);
    let three = wide_from_u128(3);
    proof {
        y.lemma_value_bounds();
    }
    if wide_lt(three, y) {
        let mut z = y;
        let half = match wide_checked_div(y, two) {
            Some(v) => v,
            None => {
                return 0;
            },
        };
        proof {
            assert(yv / 2 + 1 < wide_modulus());
        }
        let mut x = match wide_checked_add(half, one) {
            Some(v) => v,
            None => {
                return 0;
            },
        };
        assert((yv + 1) * (yv + 1) > yv) by (nonlinear_arith)
            requires
                yv > 3,
        ;
        assert(yv * yv > yv) by (nonlinear_arith)
            requires
                yv > 3,
        ;
        assert((x.value() + 1) * (x.value() + 1) > yv) by (nonlinear_arith)
            requires
                x.value() == yv / 2 + 1,
                yv > 3,
        ;
        while wide_lt(x, z)
            invariant
                yv == y.value(),
                3 < yv < wide_modulus(),
                two.value() == 2,
                1 <= z.value(),
                2 <= x.value() <= yv / 2 + 1,
                (x.value() + 1) * (x.value() + 1) > yv,
                (z.value() + 1) * (z.value() + 1) > yv,
                z.value() * z.value() > yv ==> x.value() < z.value(),
            decreases z.value(),
        {
            z = x;
            let ghost xv: int = x.value() as int;
            proof {
                lemma_newton_step_bounded(yv, xv);
            }
            let q = match wide_checked_div(y, x) {
                Some(v) => v,
                None => {
                    return 0;
                },
            };
            proof {
                assert(yv / xv + xv < wide_modulus());
            }
            let s = match wide_checked_add(q, x) {
                Some(v) => v,
                None => {
                    return 0;
                },
            };
            x = match wide_checked_div(s, two) {
                Some(v) => v,
                None => {
                    return 0;
                },
            };
            proof {
                lemma_newton_step_stays_above(yv, xv);
                if xv * xv > yv {
                    lemma_newton_step_descends(yv, xv);
                }
                let nx = x.value() as int;
                assert(nx >= 2) by (nonlinear_arith)
                    requires
                        (nx + 1) * (nx + 1) > yv,
                        yv > 3,
                        nx >= 0,
                ;
            }
        }
        let ghost zv: int = z.value() as int;
        proof {
            lemma_isqrt_unique(yv, zv);
            assert(zv < narrow_modulus()) by (nonlinear_arith)
                requires
                    zv * zv <= yv,
                    yv < wide_modulus(),
                    wide_modulus() == narrow_modulus() * narrow_modulus(),
                    narrow_modulus() > 0,
                    zv >= 0,
            ;
            z.lemma_value_bounds();
        }
        wide_as_u128(z)
    } else if wide_lt(wide_from_u128(0), y) {
        proof {
            lemma_isqrt_unique(yv, 1);
        }
        1
    } else {
        proof {
            lemma_isqrt_unique(0, 0);
        }
        0
    }
}

/// The smaller of `x` and `y`.
pub fn min(x: u128, y: u128) -> (r: u128)
    ensures
        r == min_spec(x as int, y as int),
{
    if x < y {
        x
    } else {
        y
    }
}

/// The distance between `x` and `y`; it never overflows.
pub fn absdiff(x: u128, y: u128) -> (r: u128)
    ensures
        r == absdiff_spec(x as int, y as int),
{
    if x < y {
        y - x
    } else {
        x - y
    }
}

} // verus!
