//! Fixed-point scalars: `ONE` units make 1.0. Every length, coordinate and
//! trigonometric value of the library is an `i32` count of such units.
use vstd::prelude::*;

verus! {

/// The number of units in 1.0.
pub const ONE: i32 = 0x1_0000;

/// The largest magnitude that the wide helpers accept (2^125).
pub const WIDE_MAX: i128 = 0x2000_0000_0000_0000_0000_0000_0000_0000;

/// `x` brought into the range of an `i32`.
pub open spec fn saturated(x: int) -> int {
    if x < i32::MIN {
        i32::MIN as int
    } else if x > i32::MAX {
        i32::MAX as int
    } else {
        x
    }
}

/// The magnitude of `x`.
pub open spec fn magnitude(x: int) -> int {
    if x < 0 {
        -x
    } else {
        x
    }
}

/// The quotient of `a` by a positive `b`, rounded toward zero.
pub open spec fn trunc_div(a: int, b: int) -> int
    recommends
        b > 0,
{
    if a >= 0 {
        a / b
    } else {
        -((-a) / b)
    }
}

/// The quotient of `a` by a positive `b`, rounded to the nearest integer;
/// a tie goes away from zero.
pub open spec fn round_div(a: int, b: int) -> int
    recommends
        b > 0,
{
    if a >= 0 {
        (2 * a + b) / (2 * b)
    } else {
        -((b - 2 * a) / (2 * b))
    }
}

/// Whether `r` is the square root of `n` rounded down.
pub open spec fn is_floor_sqrt(n: int, r: int) -> bool {
    0 <= r && r * r <= n < (r + 1) * (r + 1)
}

/// The square root of a non-negative `n`, rounded down.
pub open spec fn floor_sqrt(n: int) -> int
    recommends
        n >= 0,
{
    choose|r: int| is_floor_sqrt(n, r)
}

/// Two integers that both are the rounded-down root of `n` are equal.
pub proof fn lemma_floor_sqrt_unique(n: int, r: int, s: int)
    requires
        is_floor_sqrt(n, r),
        is_floor_sqrt(n, s),
    ensures
        r == s,
{
    if r < s {
        assert((r + 1) * (r + 1) <= s * s) by (nonlinear_arith)
            requires
                0 <= r,
                r + 1 <= s,
        ;
    } else if s < r {
        assert((s + 1) * (s + 1) <= r * r) by (nonlinear_arith)
            requires
                0 <= s,
                s + 1 <= r,
        ;
    }
}

/// Every non-negative integer has a rounded-down root.
pub proof fn lemma_floor_sqrt_exists(n: int)
    requires
        n >= 0,
    ensures
        is_floor_sqrt(n, floor_sqrt(n)),
    decreases n,
{
    if n == 0 {
        assert(is_floor_sqrt(0, 0));
    } else {
        lemma_floor_sqrt_exists(n - 1);
        let r = floor_sqrt(n - 1);
        if (r + 1) * (r + 1) <= n {
            assert((r + 1) * (r + 1) == n);
            assert(n < (r + 2) * (r + 2)) by (nonlinear_arith)
                requires
                    (r + 1) * (r + 1) == n,
                    0 <= r,
            ;
            assert(is_floor_sqrt(n, r + 1));
        } else {
            assert(r * r <= n);
            assert(is_floor_sqrt(n, r));
        }
    }
}

/// The rounded-down root of `n` is the one integer that `is_floor_sqrt` accepts.
pub proof fn lemma_floor_sqrt_is(n: int, r: int)
    requires
        is_floor_sqrt(n, r),
    ensures
        floor_sqrt(n) == r,
{
    lemma_floor_sqrt_unique(n, r, floor_sqrt(n));
}

/// Brings a wide value into the range of an `i32`.
pub fn saturate(x: i128) -> (r: i32)
    ensures
        r == saturated(x as int),
{
    if x < -0x8000_0000 {
        -0x8000_0000
    } else if x > 0x7fff_ffff {
        0x7fff_ffff
    } else {
        x as i32
    }
}

/// A rounded quotient is no larger in magnitude than what was divided.
pub proof fn lemma_round_div_bound(a: int, b: int)
    requires
        b > 0,
    ensures
        magnitude(round_div(a, b)) <= magnitude(a),
        a >= 0 ==> round_div(a, b) >= 0,
        a <= 0 ==> round_div(a, b) <= 0,
{
    let m = magnitude(a);
    let q = (2 * m + b) / (2 * b);
    assert(0 <= q <= m) by (nonlinear_arith)
        requires
            q == (2 * m + b) / (2 * b),
            m >= 0,
            b >= 1,
    ;
}

/// A quotient rounds to an integer between the integers that bound it.
pub proof fn lemma_round_div_within(a: int, b: int, low: int, high: int)
    requires
        b > 0,
        low * b <= a <= high * b,
    ensures
        low <= round_div(a, b) <= high,
{
    if a >= 0 {
        let q = (2 * a + b) / (2 * b);
        assert(q >= 0 && q <= high && q >= low) by (nonlinear_arith)
            requires
                q == (2 * a + b) / (2 * b),
                b > 0,
                0 <= a <= high * b,
                low * b <= a,
        ;
    } else {
        let q = (b - 2 * a) / (2 * b);
        assert(q >= 0 && -q >= low && -q <= high) by (nonlinear_arith)
            requires
                q == (b - 2 * a) / (2 * b),
                b > 0,
                low * b <= a < 0,
                a <= high * b,
        ;
    }
}

/// A rounded quotient, multiplied back, misses what was divided by no more
/// than half the divisor.
pub proof fn lemma_round_div_error(a: int, b: int)
    requires
        b > 0,
    ensures
        -b <= 2 * (round_div(a, b) * b - a) <= b,
{
    let m = magnitude(a);
    let q = (2 * m + b) / (2 * b);
    assert(-b <= 2 * (q * b - m) <= b) by (nonlinear_arith)
        requires
            q == (2 * m + b) / (2 * b),
            b > 0,
    ;
    if a < 0 {
        assert((-q) * b == -(q * b)) by (nonlinear_arith);
    }
}

/// A multiple of the divisor divides without rounding.
pub proof fn lemma_round_div_exact(q: int, b: int)
    requires
        b > 0,
    ensures
        round_div(q * b, b) == q,
{
    lemma_round_div_error(q * b, b);
    let r = round_div(q * b, b);
    assert(r == q) by (nonlinear_arith)
        requires
            -b <= 2 * (r * b - q * b) <= b,
            b > 0,
    ;
}

/// How far the square of a rounded quotient, multiplied back, lies from the
/// square of what was divided.
pub proof fn lemma_round_div_square(a: int, b: int)
    requires
        b > 0,
    ensures
        ({
            let s = round_div(a, b) * b;
            &&& 4 * (a * a) - 4 * (magnitude(a) * b) <= 4 * (s * s)
            &&& 4 * (s * s) <= 4 * (a * a) + 4 * (magnitude(a) * b) + b * b
        }),
{
    let s = round_div(a, b) * b;
    let e = s - a;
    let m = magnitude(a);
    lemma_round_div_error(a, b);
    assert(4 * (s * s) == 4 * (a * a) + 4 * (a * (2 * e)) + (2 * e) * (2 * e)) by (nonlinear_arith)
        requires
            s == a + e,
    ;
    assert(-(m * b) <= a * (2 * e) <= m * b) by (nonlinear_arith)
        requires
            -m <= a <= m,
            -b <= 2 * e <= b,
    ;
    assert(0 <= (2 * e) * (2 * e) <= b * b) by (nonlinear_arith)
        requires
            -b <= 2 * e <= b,
    ;
}

/// The product of two bounded integers is bounded by the product of the bounds.
pub proof fn lemma_mul_bound(a: int, b: int, ma: int, mb: int)
    by (nonlinear_arith)
    requires
        -ma <= a <= ma,
        -mb <= b <= mb,
    ensures
        -(ma * mb) <= a * b <= ma * mb,
{
}

/// Divides by a positive number and rounds to the nearest integer, a tie
/// away from zero.
pub fn div_round(a: i128, b: i128) -> (q: i128)
    requires
        0 < b <= WIDE_MAX,
        -WIDE_MAX <= a <= WIDE_MAX,
    ensures
        q == round_div(a as int, b as int),
        magnitude(q as int) <= magnitude(a as int),
{
    proof {
        lemma_round_div_bound(a as int, b as int);
    }
    if a >= 0 {
        (2 * a + b) / (2 * b)
    } else {
        let q: i128 = (b - 2 * a) / (2 * b);
        -q
    }
}

/// The square root of `n`, rounded down.
pub fn isqrt(n: u128) -> (r: u64)
    ensures
        r == floor_sqrt(n as int),
        is_floor_sqrt(n as int, r as int),
{
    let mut lo: u128 = 0;
    let mut hi: u128 = 0x1_0000_0000_0000_0000;
    assert(hi * hi > n) by (nonlinear_arith)
        requires
            hi == 0x1_0000_0000_0000_0000,
            n <= u128::MAX,
    ;
    while hi - lo > 1
        invariant
            lo < hi <= 0x1_0000_0000_0000_0000,
            lo * lo <= n < hi * hi,
        decreases hi - lo,
    {
        let mid: u128 = lo + (hi - lo) / 2;
        assert(mid * mid <= 0xffff_ffff_ffff_ffff * 0xffff_ffff_ffff_ffff) by (nonlinear_arith)
            requires
                0 <= mid <= 0xffff_ffff_ffff_ffff,
        ;
        if mid * mid <= n {
            lo = mid;
        } else {
            hi = mid;
        }
    }
    proof {
        assert(hi == lo + 1);
        lemma_floor_sqrt_is(n as int, lo as int);
    }
    lo as u64
}

} // verus!
