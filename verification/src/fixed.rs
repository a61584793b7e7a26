//! 16.16 fixed-point arithmetic: the numeric representation used for all
//! fractional quantities (positions, angles in degrees, trig values).
//! A fixed-point value `v` stands for the rational `v / FP_ONE`.

use vstd::prelude::*;

verus! {

use vstd::arithmetic::div_mod::{
    lemma_fundamental_div_mod,
    lemma_fundamental_div_mod_converse,
    lemma_mod_bound,
};

/// Scale of the fixed-point representation: one grid unit / one degree.
pub const FP_ONE: i64 = 65536;

/// Half a fixed-point unit, used for rounding.
pub const FP_HALF: i64 = 32768;

/// One full turn, in fixed-point degrees.
pub const DEG_FULL: i64 = 360 * 65536;

/// Half a turn, in fixed-point degrees.
pub const DEG_HALF: i64 = 180 * 65536;

/// A quarter turn, in fixed-point degrees.
pub const DEG_QUARTER: i64 = 90 * 65536;

/// Floor division by a positive divisor; agrees with `/` on `int`.
pub fn div_floor(a: i64, d: i64) -> (r: i64)
    requires
        1 <= d,
    ensures
        r == a as int / d as int,
{
    if a >= 0 {
        let q = (a as u64) / (d as u64);
        proof {
            lemma_fundamental_div_mod(a as int, d as int);
        }
        q as i64
    } else {
        // floor(a / d) == -((-a - 1) / d) - 1 when a < 0 and d > 0.
        let m = ((-(a + 1)) as u64) / (d as u64);
        proof {
            let b: int = -((a + 1) as int);
            let q = b / d as int;
            let r = b % d as int;
            lemma_fundamental_div_mod(b, d as int);
            lemma_mod_bound(b, d as int);
            assert(a as int == (-q - 1) * (d as int) + (d - 1 - r)) by (nonlinear_arith)
                requires b == d * q + r, b == -(a as int) - 1;
            lemma_fundamental_div_mod_converse(a as int, d as int, -q - 1, d - 1 - r);
        }
        -(m as i64) - 1
    }
}

/// Euclidean remainder by a positive divisor; agrees with `%` on `int`.
pub fn euclid_mod(a: i64, d: i64) -> (r: i64)
    requires
        1 <= d,
        i64::MIN < a,
    ensures
        r == a as int % d as int,
        0 <= r < d,
{
    if a >= 0 {
        proof {
            lemma_fundamental_div_mod(a as int, d as int);
        }
        ((a as u64) % (d as u64)) as i64
    } else {
        let m = ((-a) as u64) % (d as u64);
        proof {
            let b: int = -(a as int);
            let q = b / d as int;
            let r = b % d as int;
            lemma_fundamental_div_mod(b, d as int);
            lemma_mod_bound(b, d as int);
            if r == 0 {
                assert(a as int == (-q) * (d as int) + 0) by (nonlinear_arith)
                    requires b == d * q + r, r == 0, b == -(a as int);
                lemma_fundamental_div_mod_converse(a as int, d as int, -q, 0);
            } else {
                assert(a as int == (-q - 1) * (d as int) + (d - r)) by (nonlinear_arith)
                    requires b == d * q + r, b == -(a as int);
                lemma_fundamental_div_mod_converse(a as int, d as int, -q - 1, d - r);
            }
        }
        if m == 0 {
            0
        } else {
            d - (m as i64)
        }
    }
}

/// Integer part of a nonnegative fixed-point value, as an index.
pub fn fx_floor(v: i64) -> (r: usize)
    requires
        0 <= v < 0x4000_0000_0000,
    ensures
        r == v as int / FP_ONE as int,
{
    proof {
        lemma_fundamental_div_mod(v as int, FP_ONE as int);
    }
    ((v as u64) / (FP_ONE as u64)) as usize
}

/// Integer part of a fixed-point value, clamped below at zero (negative
/// screen coordinates are treated as the top edge).
pub fn fx_floor_clamped(v: i64) -> (r: usize)
    requires
        v < 0x4000_0000_0000,
    ensures
        r == clamp0_floor(v as int),
{
    if v < 0 {
        0
    } else {
        fx_floor(v)
    }
}

/// Floor of a fixed-point value clamped below at zero.
pub open spec fn clamp0_floor(v: int) -> int {
    if v < 0 {
        0
    } else {
        v / FP_ONE as int
    }
}

/// A fixed-point value lies within the cell its floor names.
pub proof fn lemma_floor_cell(v: int)
    ensures
        (v / FP_ONE as int) * FP_ONE <= v < (v / FP_ONE as int + 1) * FP_ONE,
{
    lemma_fundamental_div_mod(v, FP_ONE as int);
    lemma_mod_bound(v, FP_ONE as int);
    assert((v / FP_ONE as int) * FP_ONE == (FP_ONE as int) * (v / FP_ONE as int))
        by (nonlinear_arith);
    assert((v / FP_ONE as int + 1) * FP_ONE == (FP_ONE as int) * (v / FP_ONE as int) + FP_ONE)
        by (nonlinear_arith);
}

/// The floor of a fixed-point value moves by at most one cell under a
/// displacement of at most one unit.
pub proof fn lemma_floor_adjacent(a: int, s: int)
    requires
        -(FP_ONE as int) <= s <= FP_ONE,
    ensures
        a / FP_ONE as int - 1 <= (a + s) / FP_ONE as int <= a / FP_ONE as int + 1,
{
    vstd::arithmetic::div_mod::lemma_div_is_ordered(a - FP_ONE, a + s, FP_ONE as int);
    vstd::arithmetic::div_mod::lemma_div_is_ordered(a + s, a + FP_ONE, FP_ONE as int);
    vstd::arithmetic::div_mod::lemma_div_plus_one(a, FP_ONE as int);
    vstd::arithmetic::div_mod::lemma_div_minus_one(a, FP_ONE as int);
}

/// A nonnegative fixed-point coordinate below `w` grid units floors to a
/// cell index inside a grid of `w` cells.
pub proof fn lemma_floor_in_grid(v: int, w: int)
    requires
        0 <= v,
        0 < w,
        v < w * FP_ONE,
    ensures
        0 <= v / (FP_ONE as int) < w,
{
    assert(0 <= v / 65536 < w) by (nonlinear_arith)
        requires 0 <= v < w * 65536;
}

/// Floors are monotone: positions in between floor to cells in between.
pub proof fn lemma_floor_between(a: int, b: int, m: int)
    requires
        a <= m <= b || b <= m <= a,
    ensures
        (a / FP_ONE as int <= m / FP_ONE as int <= b / FP_ONE as int) || (b / FP_ONE as int <= m
            / FP_ONE as int <= a / FP_ONE as int),
{
    if a <= m {
        vstd::arithmetic::div_mod::lemma_div_is_ordered(a, m, FP_ONE as int);
    } else {
        vstd::arithmetic::div_mod::lemma_div_is_ordered(m, a, FP_ONE as int);
    }
    if m <= b {
        vstd::arithmetic::div_mod::lemma_div_is_ordered(m, b, FP_ONE as int);
    } else {
        vstd::arithmetic::div_mod::lemma_div_is_ordered(b, m, FP_ONE as int);
    }
}

/// Integer square root: the largest `r` with `r * r <= n`.
pub fn isqrt(n: u64) -> (r: u64)
    requires
        n < 0x4000_0000_0000_0000,
    ensures
        r * r <= n < (r + 1) * (r + 1),
{
    if n == 0 {
        return 0;
    }
    let mut lo: u64 = 0;
    let mut hi: u64 = 0x8000_0000;
    proof {
        assert((0x8000_0000u64 as int) * (0x8000_0000u64 as int) > n) by (nonlinear_arith)
            requires n < 0x4000_0000_0000_0000;
    }
    while lo + 1 < hi
        invariant
            lo < hi <= 0x8000_0000,
            lo * lo <= n,
            n < hi * hi,
        decreases hi - lo,
    {
        let mid = lo + (hi - lo) / 2;
        proof {
            assert((mid as int) * (mid as int) < 0x8000_0000_0000_0000) by (nonlinear_arith)
                requires mid <= 0x8000_0000;
        }
        if mid * mid <= n {
            lo = mid;
        } else {
            hi = mid;
        }
    }
    lo
}

} // verus!
