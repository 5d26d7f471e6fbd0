//! Integer arithmetic shared by the rest of the crate: the scales of the
//! fixed-point quantities, division that rounds to the nearest whole number,
//! and the integer square root.
use vstd::prelude::*;

verus! {

/// Thousandths in one unit of length.
pub const UNIT: i32 = 1_000;

/// Millionths in one radian, and in a direction component of length one.
pub const MICRO: i32 = 1_000_000;

/// `MICRO` squared: the square of a length of one, in millionths.
pub const MICRO_SQUARED: i64 = 1_000_000_000_000;

/// The quotient of `a` by a positive `b`, rounded to the nearest whole
/// number, and away from zero where it lies halfway between two.
pub open spec fn rounded(a: int, b: int) -> int
    recommends
        b > 0,
{
    if a >= 0 {
        if 2 * (a % b) >= b {
            a / b + 1
        } else {
            a / b
        }
    } else {
        if 2 * ((-a) % b) >= b {
            -((-a) / b) - 1
        } else {
            -((-a) / b)
        }
    }
}

/// A rounded quotient is off the true one by no more than a half, and
/// rounding commutes with a change of sign.
pub proof fn lemma_rounded_is_near(a: int, b: int)
    requires
        b > 0,
    ensures
        -b <= 2 * (a - rounded(a, b) * b) <= b,
        rounded(-a, b) == -rounded(a, b),
{
    let m = if a >= 0 {
        a
    } else {
        -a
    };
    let q = m / b;
    let r = m % b;
    assert(m == q * b + r && 0 <= r < b) by (nonlinear_arith)
        requires
            b > 0,
            m >= 0,
            q == m / b,
            r == m % b,
    ;
    assert((q + 1) * b == q * b + b) by (nonlinear_arith);
    assert((-q) * b == -(q * b)) by (nonlinear_arith);
    assert((-q - 1) * b == -(q * b) - b) by (nonlinear_arith);
}

/// A rounded quotient lies between the bounds that the dividend keeps, scaled
/// by the divisor.
pub proof fn lemma_rounded_between(a: int, b: int, lo: int, hi: int)
    requires
        b > 0,
        lo <= 0 <= hi,
        lo * b <= a <= hi * b,
    ensures
        lo <= rounded(a, b) <= hi,
{
    let m = if a >= 0 {
        a
    } else {
        -a
    };
    let top = if a >= 0 {
        hi
    } else {
        -lo
    };
    let q = m / b;
    let r = m % b;
    assert((-lo) * b == -(lo * b)) by (nonlinear_arith);
    assert(m == q * b + r && 0 <= r < b && q >= 0) by (nonlinear_arith)
        requires
            b > 0,
            m >= 0,
            q == m / b,
            r == m % b,
    ;
    assert(q <= top && (r > 0 ==> q + 1 <= top)) by (nonlinear_arith)
        requires
            b > 0,
            q * b + r <= top * b,
            0 <= r < b,
    ;
}

/// A whole multiple of the divisor is divided without rounding.
pub proof fn lemma_rounded_of_multiple(k: int, b: int)
    requires
        b > 0,
    ensures
        rounded(k * b, b) == k,
{
    let m = if k >= 0 {
        k
    } else {
        -k
    };
    assert((-k) * b == -(k * b)) by (nonlinear_arith);
    assert((m * b) / b == m && (m * b) % b == 0 && m * b >= 0) by (nonlinear_arith)
        requires
            b > 0,
            m >= 0,
    ;
    if k < 0 {
        assert(k * b <= 0) by (nonlinear_arith)
            requires
                k < 0,
                b > 0,
        ;
    }
}

/// Divides `a` by a positive `b` and rounds to the nearest whole number.
pub(crate) fn divide(a: i128, b: i128) -> (q: i128)
    requires
        b > 0,
        a > i128::MIN,
    ensures
        q == rounded(a as int, b as int),
{
    let m: i128 = if a >= 0 {
        a
    } else {
        -a
    };
    let q: i128 = m / b;
    let r: i128 = m % b;
    assert(0 <= q && (b >= 2 ==> 2 * q <= m)) by (nonlinear_arith)
        requires
            b > 0,
            m >= 0,
            q == m / b,
    ;
    assert(0 <= r < b) by (nonlinear_arith)
        requires
            b > 0,
            m >= 0,
            r == m % b,
    ;
    let up = r >= b - r;
    if a >= 0 {
        if up {
            q + 1
        } else {
            q
        }
    } else {
        if up {
            -q - 1
        } else {
            -q
        }
    }
}

/// `r` is the integer square root of `n`: the largest number whose square does
/// not exceed `n`.
pub open spec fn is_floor_sqrt(n: nat, r: nat) -> bool {
    r * r <= n < (r + 1) * (r + 1)
}

/// The integer square root of `n`.
pub open spec fn floor_sqrt(n: nat) -> nat {
    choose|r: nat| is_floor_sqrt(n, r)
}

/// A number has at most one integer square root.
pub proof fn lemma_floor_sqrt_unique(n: nat, a: nat, b: nat)
    requires
        is_floor_sqrt(n, a),
        is_floor_sqrt(n, b),
    ensures
        a == b,
{
    if a < b {
        assert((a + 1) * (a + 1) <= b * b) by (nonlinear_arith)
            requires
                a + 1 <= b,
        ;
    } else if b < a {
        assert((b + 1) * (b + 1) <= a * a) by (nonlinear_arith)
            requires
                b + 1 <= a,
        ;
    }
}

/// Whatever passes for the integer square root of `n` is `floor_sqrt(n)`.
pub proof fn lemma_floor_sqrt_is(n: nat, r: nat)
    requires
        is_floor_sqrt(n, r),
    ensures
        floor_sqrt(n) == r,
{
    lemma_floor_sqrt_unique(n, floor_sqrt(n), r);
}

/// The integer square root, by bisection.
pub fn isqrt(n: u128) -> (r: u64)
    ensures
        is_floor_sqrt(n as nat, r as nat),
        r == floor_sqrt(n as nat),
{
    let mut lo: u128 = 0;
    let mut hi: u128 = 0x1_0000_0000_0000_0000;
    assert(0x1_0000_0000_0000_0000int * 0x1_0000_0000_0000_0000int > n) by (nonlinear_arith)
        requires
            n <= u128::MAX,
    ;
    while hi - lo > 1
        invariant
            lo < hi <= 0x1_0000_0000_0000_0000,
            lo * lo <= n < hi * hi,
        decreases hi - lo,
    {
        let mid: u128 = lo + (hi - lo) / 2;
        assert(mid * mid <= u128::MAX) by (nonlinear_arith)
            requires
                0 <= mid < 0x1_0000_0000_0000_0000,
        ;
        if mid * mid <= n {
            lo = mid;
        } else {
            hi = mid;
        }
    }
    proof {
        lemma_floor_sqrt_is(n as nat, lo as nat);
    }
    lo as u64
}

} // verus!
