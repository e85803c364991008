//! Fixed-point scalars.
//!
//! Every length, velocity, coefficient and time step of the simulation is an
//! `i64` that counts 1/65536ths of a unit. Products are formed in `i128`,
//! divided with truncation toward zero (so that opposite inputs give opposite
//! results) and brought back into the representable range by saturation.

use vstd::prelude::*;

verus! {

/// Raw value of the number one.
pub const ONE: i64 = 65536;

/// Largest magnitude of a stored coordinate, velocity or coefficient, as a raw value.
pub const LIMIT: i64 = 0x100_0000_0000;

/// `x` is a raw value that may be stored.
pub open spec fn in_range(x: int) -> bool {
    -LIMIT <= x <= LIMIT
}

/// The storable value nearest to `x`.
pub open spec fn saturated(x: int) -> int {
    if x < -LIMIT {
        -(LIMIT as int)
    } else if x > LIMIT {
        LIMIT as int
    } else {
        x
    }
}

/// Magnitude of `x`.
pub open spec fn magnitude(x: int) -> int {
    if x < 0 {
        -x
    } else {
        x
    }
}

/// Quotient of `a` by a positive `b`, rounded toward zero.
pub open spec fn trunc_div(a: int, b: int) -> int {
    if a >= 0 {
        a / b
    } else {
        -((-a) / b)
    }
}

/// Fixed-point product of two raw values, before saturation.
pub open spec fn scaled(a: int, b: int) -> int {
    trunc_div(a * b, ONE as int)
}

/// `r` is the integer square root of `n`.
pub open spec fn is_sqrt(n: int, r: int) -> bool {
    0 <= r && r * r <= n < (r + 1) * (r + 1)
}

/// The integer square root of a non-negative `n`: the largest `r` with `r * r <= n`.
pub open spec fn isqrt(n: int) -> int {
    choose|r: int| is_sqrt(n, r)
}

/// Squaring is monotone on the non-negative integers.
pub proof fn lemma_square_monotone(a: int, b: int)
    requires
        0 <= a <= b,
    ensures
        a * a <= b * b,
{
    assert(a * a <= b * b) by (nonlinear_arith)
        requires
            0 <= a <= b,
    ;
}

/// At most one number is the integer square root of `n`.
pub proof fn lemma_sqrt_unique(n: int, r: int, s: int)
    requires
        is_sqrt(n, r),
        is_sqrt(n, s),
    ensures
        r == s,
{
    if r < s {
        lemma_square_monotone(r + 1, s);
    } else if s < r {
        lemma_square_monotone(s + 1, r);
    }
}

/// Whatever satisfies `is_sqrt` is `isqrt`.
pub proof fn lemma_isqrt_is(n: int, r: int)
    requires
        is_sqrt(n, r),
    ensures
        isqrt(n) == r,
{
    lemma_sqrt_unique(n, r, isqrt(n));
}

/// Every non-negative number has an integer square root, and that of a
/// positive number is positive.
pub proof fn lemma_isqrt_exists(n: int)
    requires
        n >= 0,
    ensures
        is_sqrt(n, isqrt(n)),
        n > 0 ==> isqrt(n) >= 1,
    decreases n,
{
    if n == 0 {
        assert(is_sqrt(0, 0));
    } else {
        lemma_isqrt_exists(n - 1);
        let r = isqrt(n - 1);
        if (r + 1) * (r + 1) <= n {
            assert((r + 2) * (r + 2) > (r + 1) * (r + 1)) by (nonlinear_arith)
                requires
                    r >= 0,
            ;
            assert(is_sqrt(n, r + 1));
        } else {
            assert(is_sqrt(n, r));
            assert(r == 0 ==> (r + 1) * (r + 1) == 1) by (nonlinear_arith);
        }
    }
}

/// The square root of a square is the magnitude of its base, and the root of a
/// larger number is no smaller.
pub proof fn lemma_isqrt_bounds(n: int, r: int, a: int)
    requires
        is_sqrt(n, r),
        a * a <= n,
    ensures
        magnitude(a) <= r,
{
    let m = magnitude(a);
    assert(m * m == a * a) by (nonlinear_arith)
        requires
            m == a || m == -a,
    ;
    if m > r {
        lemma_square_monotone(r + 1, m);
    }
}

/// Truncating division never increases the magnitude and keeps the sign.
pub proof fn lemma_trunc_div_bounds(a: int, b: int)
    requires
        b > 0,
    ensures
        magnitude(trunc_div(a, b)) <= magnitude(a),
        a >= 0 ==> trunc_div(a, b) >= 0,
        a <= 0 ==> trunc_div(a, b) <= 0,
        trunc_div(-a, b) == -trunc_div(a, b),
        magnitude(trunc_div(a, b)) == magnitude(a) / b,
{
    let m = magnitude(a);
    assert(0 <= m / b <= m) by (nonlinear_arith)
        requires
            m >= 0,
            b > 0,
    ;
}

/// If `|a| <= k * b` then the truncated quotient has magnitude at most `k`.
pub proof fn lemma_trunc_div_le(a: int, b: int, k: int)
    requires
        b > 0,
        k >= 0,
        magnitude(a) <= k * b,
    ensures
        magnitude(trunc_div(a, b)) <= k,
{
    lemma_trunc_div_bounds(a, b);
    let m = magnitude(a);
    assert(m / b <= k) by (nonlinear_arith)
        requires
            0 <= m <= k * b,
            b > 0,
    ;
}

/// If `|a| < b` then the truncated quotient is zero.
pub proof fn lemma_trunc_div_small(a: int, b: int)
    requires
        b > 0,
        magnitude(a) < b,
    ensures
        trunc_div(a, b) == 0,
{
    let m = magnitude(a);
    assert(m / b == 0) by (nonlinear_arith)
        requires
            0 <= m < b,
    ;
}

/// Brings a wide value back into the storable range.
pub fn saturate(x: i128) -> (r: i64)
    ensures
        r == saturated(x as int),
        in_range(r as int),
{
    if x < -(LIMIT as i128) {
        -LIMIT
    } else if x > LIMIT as i128 {
        LIMIT
    } else {
        x as i64
    }
}

/// Quotient of `a` by a positive `b`, rounded toward zero.
pub fn div_trunc(a: i128, b: i128) -> (r: i128)
    requires
        b > 0,
    ensures
        r == trunc_div(a as int, b as int),
{
    a / b
}

/// Fixed-point product of two stored values, saturated.
pub fn scale(a: i64, b: i64) -> (r: i64)
    ensures
        r == saturated(scaled(a as int, b as int)),
        in_range(r as int),
{
    assert(-0x4000_0000_0000_0000_0000_0000_0000_0000 <= (a as int) * (b as int)
        <= 0x4000_0000_0000_0000_0000_0000_0000_0000) by (nonlinear_arith)
        requires
            -0x8000_0000_0000_0000 <= a <= 0x7fff_ffff_ffff_ffff,
            -0x8000_0000_0000_0000 <= b <= 0x7fff_ffff_ffff_ffff,
    ;
    let wide: i128 = (a as i128) * (b as i128);
    saturate(div_trunc(wide, ONE as i128))
}

/// Integer square root.
pub fn sqrt_floor(n: u128) -> (r: u64)
    ensures
        r == isqrt(n as int),
        is_sqrt(n as int, r as int),
{
    let mut lo: u128 = 0;
    let mut hi: u128 = 0x1_0000_0000_0000_0000;
    while hi - lo > 1
        invariant
            lo < hi <= 0x1_0000_0000_0000_0000,
            lo * lo <= n,
            n < hi * hi,
        decreases hi - lo,
    {
        let mid: u128 = lo + (hi - lo) / 2;
        assert(mid * mid <= 0xffff_ffff_ffff_ffff * 0xffff_ffff_ffff_ffff) by (nonlinear_arith)
            requires
                0 <= mid <= 0xffff_ffff_ffff_ffff,
        ;
        if mid * mid <= n {
            lo = mid;
        } else {
            hi = mid;
        }
    }
    proof {
        lemma_isqrt_is(n as int, lo as int);
    }
    lo as u64
}

} // verus!
