//! Signed 16.16 fixed-point arithmetic: scaling constants, truncating
//! division and an exact integer square root, with the lemmas the geometry
//! modules build on.

use vstd::arithmetic::div_mod::{lemma_fundamental_div_mod, lemma_mod_bound};
use vstd::prelude::*;

verus! {

/// The fixed-point scale: one coordinate unit.
pub const ONE: i64 = 65536;

/// Largest coordinate magnitude the library accepts (2^27 fixed-point
/// units, i.e. 2048 coordinate units).  The bound leaves enough headroom
/// that every intermediate product fits in an `i128` and every emitted
/// coordinate fits in an `i64`.
pub const MAX_COORD: i64 = 134217728;

/// Division rounding toward zero (the rounding used throughout the
/// library).
pub open spec fn div0(a: int, b: int) -> int {
    if b >= 0 {
        if a >= 0 {
            a / b
        } else {
            -((-a) / b)
        }
    } else {
        if a >= 0 {
            -(a / (-b))
        } else {
            (-a) / (-b)
        }
    }
}

/// Truncating division rounds toward zero: the quotient times the divisor
/// lands within one divisor of the dividend, on the dividend's side of zero.
pub proof fn lemma_div0_char(a: int, b: int)
    requires
        b >= 1,
    ensures
        a >= 0 ==> b * div0(a, b) <= a < b * div0(a, b) + b && 0 <= div0(a, b) <= a,
        a < 0 ==> b * div0(a, b) - b < a <= b * div0(a, b) && a <= div0(a, b) <= 0,
{
    if a >= 0 {
        lemma_fundamental_div_mod(a, b);
        assert(b * (a / b) <= a < b * (a / b) + b);
        assert(a / b >= 0) by (nonlinear_arith)
            requires
                b >= 1,
                a >= 0,
                b * (a / b) <= a < b * (a / b) + b,
        ;
        assert(a / b <= a) by (nonlinear_arith)
            requires
                b >= 1,
                a >= 0,
                a / b >= 0,
                b * (a / b) <= a,
        ;
    } else {
        lemma_fundamental_div_mod(-a, b);
        assert(b * ((-a) / b) <= -a < b * ((-a) / b) + b);
        assert((-a) / b >= 0) by (nonlinear_arith)
            requires
                b >= 1,
                -a >= 0,
                b * ((-a) / b) <= -a < b * ((-a) / b) + b,
        ;
        assert((-a) / b <= -a) by (nonlinear_arith)
            requires
                b >= 1,
                -a >= 0,
                (-a) / b >= 0,
                b * ((-a) / b) <= -a,
        ;
        assert(b * div0(a, b) == -(b * ((-a) / b))) by (nonlinear_arith)
            requires
                div0(a, b) == -((-a) / b),
        ;
    }
}

/// Negating the divisor negates the truncated quotient.
pub proof fn lemma_div0_neg_divisor(a: int, b: int)
    requires
        b >= 1,
    ensures
        div0(a, -b) == -div0(a, b),
{
}

/// The truncated quotient by a positive divisor keeps a known bound: if the
/// dividend is at most `c` divisors, the quotient is at most `c`.
pub proof fn lemma_div0_le(a: int, b: int, c: int)
    requires
        b >= 1,
        0 <= c,
        -(c * b) <= a <= c * b,
    ensures
        -c <= div0(a, b) <= c,
{
    lemma_div0_char(a, b);
    let q = div0(a, b);
    if a >= 0 {
        assert(q <= c) by (nonlinear_arith)
            requires
                b >= 1,
                b * q <= a,
                a <= c * b,
                0 <= c,
        ;
    } else {
        assert(-c <= q) by (nonlinear_arith)
            requires
                b >= 1,
                a <= b * q,
                -(c * b) <= a,
                0 <= c,
        ;
    }
}

/// As [`lemma_div0_le`], for a divisor of either sign whose magnitude is at
/// least `m`.
pub proof fn lemma_div0_div_le(a: int, b: int, c: int, m: int)
    requires
        m >= 1,
        c >= 0,
        b >= m || -b >= m,
        -(c * m) <= a <= c * m,
    ensures
        -c <= div0(a, b) <= c,
{
    if b >= m {
        assert(c * m <= c * b) by (nonlinear_arith)
            requires
                m <= b,
                c >= 0,
        ;
        lemma_div0_le(a, b, c);
    } else {
        assert(c * m <= c * (-b)) by (nonlinear_arith)
            requires
                m <= -b,
                c >= 0,
        ;
        lemma_div0_le(a, -b, c);
        lemma_div0_neg_divisor(a, -b);
    }
}

/// The truncated quotient never exceeds the dividend in magnitude.
pub proof fn lemma_div0_abs(a: int, b: int)
    requires
        b != 0,
    ensures
        a >= 0 ==> 0 <= div0(a, b) <= a || -a <= div0(a, b) <= 0,
        a < 0 ==> a <= div0(a, b) <= -a,
{
    if b >= 1 {
        lemma_div0_char(a, b);
    } else {
        lemma_div0_char(a, -b);
        lemma_div0_neg_divisor(a, -b);
    }
}

/// A product of bounded factors is bounded.
pub proof fn lemma_abs_mul_le(x: int, y: int, bx: int, by: int)
    requires
        -bx <= x <= bx,
        -by <= y <= by,
        0 <= bx,
        0 <= by,
    ensures
        -(bx * by) <= x * y <= bx * by,
{
    assert(-(bx * by) <= x * y <= bx * by) by (nonlinear_arith)
        requires
            -bx <= x <= bx,
            -by <= y <= by,
            0 <= bx,
            0 <= by,
    ;
}

/// Absolute value.
pub open spec fn iabs(x: int) -> int {
    if x >= 0 {
        x
    } else {
        -x
    }
}

/// Mathematical integer square root, rounded down.
pub open spec fn sqrt_rec(n: nat) -> nat
    decreases n,
{
    if n == 0 {
        0
    } else {
        let r = 2 * sqrt_rec(n / 4);
        if (r + 1) * (r + 1) <= n {
            r + 1
        } else {
            r
        }
    }
}

/// `sqrt_rec(n)` is the exact rounded-down square root of `n`.
pub proof fn lemma_sqrt_rec_bounds(n: nat)
    ensures
        sqrt_rec(n) * sqrt_rec(n) <= n,
        n < (sqrt_rec(n) + 1) * (sqrt_rec(n) + 1),
    decreases n,
{
    if n == 0 {
        assert(sqrt_rec(n) == 0);
        assert(sqrt_rec(n) * sqrt_rec(n) <= n) by (nonlinear_arith)
            requires
                sqrt_rec(n) == 0,
                n == 0,
        ;
        assert(n < (sqrt_rec(n) + 1) * (sqrt_rec(n) + 1)) by (nonlinear_arith)
            requires
                sqrt_rec(n) == 0,
                n == 0,
        ;
    } else {
        let m: nat = n / 4;
        lemma_sqrt_rec_bounds(m);
        let r0: nat = sqrt_rec(m);
        let r: nat = 2 * r0;
        assert(4 * m <= n < 4 * m + 4) by {
            lemma_fundamental_div_mod(n as int, 4);
            lemma_mod_bound(n as int, 4);
        }
        assert(r * r <= n) by (nonlinear_arith)
            requires
                r == 2 * r0,
                r0 * r0 <= m,
                4 * m <= n,
        ;
        assert(n < (r + 2) * (r + 2)) by (nonlinear_arith)
            requires
                r == 2 * r0,
                m < (r0 + 1) * (r0 + 1),
                n < 4 * m + 4,
        ;
        if (r + 1) * (r + 1) <= n {
            assert(sqrt_rec(n) == r + 1);
            assert(sqrt_rec(n) * sqrt_rec(n) <= n);
            assert(n < (sqrt_rec(n) + 1) * (sqrt_rec(n) + 1));
        } else {
            assert(sqrt_rec(n) == r);
            assert(sqrt_rec(n) * sqrt_rec(n) <= n);
            assert(n < (sqrt_rec(n) + 1) * (sqrt_rec(n) + 1));
        }
    }
}

/// Any nonnegative integer whose square is at most `n` is at most
/// `sqrt_rec(n)`.
pub proof fn lemma_le_sqrt(x: int, n: nat)
    requires
        0 <= x,
        x * x <= n,
    ensures
        x <= sqrt_rec(n),
{
    lemma_sqrt_rec_bounds(n);
    let r = sqrt_rec(n);
    if x > r {
        assert((r + 1) * (r + 1) <= x * x) by (nonlinear_arith)
            requires
                0 <= r,
                r + 1 <= x,
        ;
    }
}

/// Truncating division of an `i128` by a positive divisor.
pub fn div_pos(a: i128, b: i128) -> (q: i128)
    requires
        1 <= b,
        i128::MIN < a,
    ensures
        q == div0(a as int, b as int),
{
    if a >= 0 {
        let ua: u128 = a as u128;
        let ub: u128 = b as u128;
        let uq: u128 = ua / ub;
        proof {
            lemma_div0_char(a as int, b as int);
        }
        uq as i128
    } else {
        let m: u128 = (-a) as u128;
        let ub: u128 = b as u128;
        let uq: u128 = m / ub;
        proof {
            lemma_div0_char(a as int, b as int);
        }
        -(uq as i128)
    }
}

/// Truncating division of an `i128` by a nonzero divisor.
pub fn div_any(a: i128, b: i128) -> (q: i128)
    requires
        b != 0,
        i128::MIN < a,
        i128::MIN < b,
    ensures
        q == div0(a as int, b as int),
{
    if b > 0 {
        div_pos(a, b)
    } else {
        let q0 = div_pos(a, -b);
        proof {
            lemma_div0_abs(a as int, (-b) as int);
            lemma_div0_neg_divisor(a as int, (-b) as int);
        }
        -q0
    }
}

/// Rounded-down square root of a `u64`.
pub fn isqrt64(n: u64) -> (r: u64)
    ensures
        r == sqrt_rec(n as nat),
        r * r <= n,
        n < (r + 1) * (r + 1),
{
    let mut lo: u64 = 0;
    let mut hi: u64 = 4294967296;
    proof {
        assert((4294967296int) * 4294967296 > n as int) by (nonlinear_arith)
            requires
                n <= u64::MAX,
        ;
    }
    while lo + 1 < hi
        invariant
            lo < hi <= 4294967296,
            (lo as int) * (lo as int) <= n as int,
            (n as int) < (hi as int) * (hi as int),
        decreases hi - lo,
    {
        let mid: u64 = lo + (hi - lo) / 2;
        proof {
            assert((mid as int) * (mid as int) <= 4294967296int * 4294967296) by (nonlinear_arith)
                requires
                    0 <= mid as int <= 4294967296,
            ;
        }
        let sq: u128 = (mid as u128) * (mid as u128);
        if sq <= n as u128 {
            lo = mid;
        } else {
            hi = mid;
        }
    }
    proof {
        lemma_sqrt_rec_bounds(n as nat);
        let s = sqrt_rec(n as nat);
        if lo < s {
            assert((lo + 1) * (lo + 1) <= s * s) by (nonlinear_arith)
                requires
                    0 <= lo + 1 <= s,
            ;
        }
        if s < lo {
            assert((s + 1) * (s + 1) <= lo * lo) by (nonlinear_arith)
                requires
                    0 <= s + 1 <= lo,
            ;
        }
    }
    lo
}

} // verus!
