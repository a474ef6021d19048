//! Fixed-point scalars.
//!
//! Every scalar of the simulation (a coordinate, a speed, a mass, a time
//! step, an interaction coefficient) is an `i64` that counts billionths: the
//! real number `s` is stored as the integer `s * ONE`. Results that leave the
//! range of `i64` are pinned to its nearest end, and quotients are rounded
//! toward zero, so every operation is total and repeatable bit for bit.

use vstd::prelude::*;

verus! {

/// The stored form of the real number one.
pub const ONE: i64 = 1_000_000_000;

/// The value of `ONE * ONE`, the square of a unit length.
pub const ONE_SQUARED: u128 = 1_000_000_000_000_000_000;

/// `v` pinned to the range of `i64`.
pub open spec fn saturate(v: int) -> int {
    if v < i64::MIN {
        i64::MIN as int
    } else if v > i64::MAX {
        i64::MAX as int
    } else {
        v
    }
}

/// The absolute value of `v`.
pub open spec fn magnitude(v: int) -> int {
    if v < 0 {
        -v
    } else {
        v
    }
}

/// The quotient of `a` by `b`, rounded toward zero.
pub open spec fn quotient(a: int, b: int) -> int
    recommends
        b != 0,
{
    if (a < 0) == (b < 0) {
        magnitude(a) / magnitude(b)
    } else {
        -(magnitude(a) / magnitude(b))
    }
}

/// The fixed-point product of two stored scalars.
pub open spec fn product(a: int, b: int) -> int {
    saturate(quotient(a * b, ONE as int))
}

/// `r` is the least natural number whose square reaches `n`.
pub open spec fn is_ceil_sqrt(n: nat, r: nat) -> bool {
    &&& r * r >= n
    &&& r > 0 ==> (r - 1) * (r - 1) < n
}

/// The square root of `n`, rounded up.
pub open spec fn ceil_sqrt(n: nat) -> nat {
    choose|r: nat| is_ceil_sqrt(n, r)
}

/// Squaring keeps the order of natural numbers.
pub proof fn lemma_square_monotonic(a: int, b: int)
    requires
        0 <= a <= b,
    ensures
        a * a <= b * b,
{
    assert(a * a <= b * b) by (nonlinear_arith)
        requires
            0 <= a <= b,
    ;
}

/// At most one number is the rounded-up square root of `n`.
pub proof fn lemma_ceil_sqrt_unique(n: nat, r: nat)
    requires
        is_ceil_sqrt(n, r),
    ensures
        ceil_sqrt(n) == r,
{
    let c = ceil_sqrt(n);
    assert(is_ceil_sqrt(n, c));
    if c < r {
        lemma_square_monotonic(c as int, r - 1);
    } else if r < c {
        lemma_square_monotonic(r as int, c - 1);
    }
}

/// The rounded-up square root is no smaller than any number whose square
/// fits under `n`.
pub proof fn lemma_ceil_sqrt_bounds(n: nat, a: int)
    requires
        0 <= a,
        a * a <= n,
    ensures
        a <= ceil_sqrt(n),
        is_ceil_sqrt(n, ceil_sqrt(n)),
{
    lemma_ceil_sqrt_exists(n);
    let c = ceil_sqrt(n) as int;
    if c < a {
        lemma_square_monotonic(c, a - 1);
        assert((a - 1) * (a - 1) < a * a) by (nonlinear_arith)
            requires
                a >= 1,
        ;
    }
}

/// Every natural number has a rounded-up square root.
pub proof fn lemma_ceil_sqrt_exists(n: nat)
    ensures
        is_ceil_sqrt(n, ceil_sqrt(n)),
    decreases n,
{
    if n == 0 {
        assert(is_ceil_sqrt(0, 0));
    } else {
        lemma_ceil_sqrt_exists((n - 1) as nat);
        let p = ceil_sqrt((n - 1) as nat);
        if p * p >= n {
            assert(is_ceil_sqrt(n, p)) by {
                if p > 0 {
                    assert((p - 1) * (p - 1) < n - 1);
                }
            }
        } else {
            assert(p * p == n - 1);
            assert((p + 1) * (p + 1) >= n) by (nonlinear_arith)
                requires
                    p * p == n - 1,
                    p >= 0,
            ;
            assert(is_ceil_sqrt(n, p + 1));
        }
    }
}

/// Narrows a wide intermediate result to a stored scalar.
pub fn narrow(v: i128) -> (r: i64)
    ensures
        r == saturate(v as int),
{
    if v < i64::MIN as i128 {
        i64::MIN
    } else if v > i64::MAX as i128 {
        i64::MAX
    } else {
        v as i64
    }
}

/// The sum of two scalars.
pub fn sat_add(a: i64, b: i64) -> (r: i64)
    ensures
        r == saturate(a + b),
{
    narrow(a as i128 + b as i128)
}

/// The difference of two scalars.
pub fn sat_sub(a: i64, b: i64) -> (r: i64)
    ensures
        r == saturate(a - b),
{
    narrow(a as i128 - b as i128)
}

/// The scalar with the opposite sign.
pub fn sat_neg(a: i64) -> (r: i64)
    ensures
        r == saturate(-a),
{
    narrow(-(a as i128))
}

/// The quotient of a wide numerator by a wide positive denominator, rounded
/// toward zero and narrowed to a stored scalar.
pub fn ratio(num: i128, den: u128) -> (r: i64)
    requires
        den > 0,
    ensures
        r == saturate(quotient(num as int, den as int)),
{
    if num < 0 {
        let mag: u128 = (-(num + 1)) as u128 + 1;
        let q: u128 = mag / den;
        assert(q <= mag) by (nonlinear_arith)
            requires
                q == mag / den,
                den > 0,
        ;
        if q > 0x8000_0000_0000_0000 {
            i64::MIN
        } else {
            narrow(-(q as i128))
        }
    } else {
        let mag: u128 = num as u128;
        let q: u128 = mag / den;
        assert(q <= mag) by (nonlinear_arith)
            requires
                q == mag / den,
                den > 0,
        ;
        narrow(q as i128)
    }
}

/// The fixed-point product of two scalars.
pub fn fixed_mul(a: i64, b: i64) -> (r: i64)
    ensures
        r == product(a as int, b as int),
{
    assert(-0x4000_0000_0000_0000_0000_0000_0000_0000 <= a * b
        <= 0x4000_0000_0000_0000_0000_0000_0000_0000) by (nonlinear_arith)
        requires
            -0x8000_0000_0000_0000 <= a <= 0x7fff_ffff_ffff_ffff,
            -0x8000_0000_0000_0000 <= b <= 0x7fff_ffff_ffff_ffff,
    ;
    ratio(a as i128 * b as i128, ONE as u128)
}

/// The square root of `n`, rounded up.
pub fn root_up(n: u128) -> (r: u128)
    ensures
        r == ceil_sqrt(n as nat),
        r <= 0x1_0000_0000_0000_0000,
{
    if n == 0 {
        proof {
            lemma_ceil_sqrt_unique(0, 0);
        }
        return 0;
    }
    let mut lo: u128 = 0;
    let mut hi: u128 = 0x1_0000_0000_0000_0000;
    assert(hi * hi > n) by (nonlinear_arith)
        requires
            hi == 0x1_0000_0000_0000_0000,
            n <= u128::MAX,
    ;
    while hi - lo > 1
        invariant
            lo < hi <= 0x1_0000_0000_0000_0000,
            lo * lo < n,
            hi * hi >= n,
        decreases hi - lo,
    {
        let mid: u128 = lo + (hi - lo) / 2;
        assert(mid * mid <= 0xffff_ffff_ffff_ffff * 0xffff_ffff_ffff_ffff) by (nonlinear_arith)
            requires
                0 <= mid <= 0xffff_ffff_ffff_ffff,
        ;
        if mid * mid >= n {
            hi = mid;
        } else {
            lo = mid;
        }
    }
    proof {
        assert(hi == lo + 1);
        lemma_ceil_sqrt_unique(n as nat, hi as nat);
    }
    hi
}

} // verus!
