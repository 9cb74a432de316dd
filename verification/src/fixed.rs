//! Fixed-point scalars.
//!
//! Every length, speed, time span and colour channel of the library is an
//! `i64` counting millionths of its unit: `ONE` stands for 1.0, a time span
//! is a number of microseconds. Sums and products that leave the range of
//! `i64` stop at its ends, and quotients round down.

use vstd::prelude::*;

verus! {

/// The fixed-point representation of 1.0.
pub const ONE: i64 = 1_000_000;

/// The `i64` nearest to `v`.
pub open spec fn saturate(v: int) -> i64 {
    if v < i64::MIN {
        i64::MIN
    } else if v > i64::MAX {
        i64::MAX
    } else {
        v as i64
    }
}

/// The product of two fixed-point numbers, before it is cut to `i64`.
pub open spec fn product(a: int, b: int) -> int {
    a * b / (ONE as int)
}

/// The quotient of two fixed-point numbers, before it is cut to `i64`.
/// Dividing by zero gives zero.
pub open spec fn quotient(a: int, b: int) -> int {
    if b > 0 {
        a * ONE / b
    } else if b < 0 {
        (-a * ONE) / (-b)
    } else {
        0
    }
}

/// `r` is the square root of `n`, rounded down.
pub open spec fn is_int_sqrt(n: int, r: int) -> bool {
    0 <= r && r * r <= n && n < (r + 1) * (r + 1)
}

/// The square root of `n`, rounded down (zero for a negative `n`).
pub open spec fn int_sqrt(n: int) -> int {
    if n < 0 {
        0
    } else {
        choose|r: int| is_int_sqrt(n, r)
    }
}

/// Every number from zero on has a rounded-down square root.
pub proof fn lemma_int_sqrt(n: int)
    requires
        0 <= n,
    ensures
        is_int_sqrt(n, int_sqrt(n)),
    decreases n,
{
    if n == 0 {
        assert(is_int_sqrt(0, 0));
    } else {
        lemma_int_sqrt(n - 1);
        let r = int_sqrt(n - 1);
        if n < (r + 1) * (r + 1) {
            assert(is_int_sqrt(n, r));
        } else {
            assert(is_int_sqrt(n, r + 1)) by (nonlinear_arith)
                requires
                    0 <= r,
                    n - 1 < (r + 1) * (r + 1),
                    n >= (r + 1) * (r + 1),
            ;
        }
    }
}

/// At most one number is the rounded-down square root of `n`.
pub proof fn lemma_int_sqrt_unique(n: int, r: int)
    requires
        is_int_sqrt(n, r),
    ensures
        int_sqrt(n) == r,
{
    let s = int_sqrt(n);
    assert(0 <= n) by (nonlinear_arith)
        requires
            r * r <= n,
    ;
    assert(is_int_sqrt(n, s));
    assert(s == r) by (nonlinear_arith)
        requires
            0 <= r,
            0 <= s,
            r * r <= n,
            n < (r + 1) * (r + 1),
            s * s <= n,
            n < (s + 1) * (s + 1),
    ;
}

/// The product of two `i64` fits `i128` with room to spare.
pub proof fn lemma_product_range(a: int, b: int)
    requires
        i64::MIN <= a <= i64::MAX,
        i64::MIN <= b <= i64::MAX,
    ensures
        -0x3fff_ffff_ffff_ffff_8000_0000_0000_0000 <= a * b
            <= 0x4000_0000_0000_0000_0000_0000_0000_0000,
{
    assert(-0x3fff_ffff_ffff_ffff_8000_0000_0000_0000 <= a * b
        <= 0x4000_0000_0000_0000_0000_0000_0000_0000) by (nonlinear_arith)
        requires
            -0x8000_0000_0000_0000 <= a <= 0x7fff_ffff_ffff_ffff,
            -0x8000_0000_0000_0000 <= b <= 0x7fff_ffff_ffff_ffff,
    ;
}

/// Cuts a wide intermediate result to `i64`.
pub fn narrow(v: i128) -> (r: i64)
    ensures
        r == saturate(v as int),
{
    if v > i64::MAX as i128 {
        i64::MAX
    } else if v < i64::MIN as i128 {
        i64::MIN
    } else {
        v as i64
    }
}

/// Addition that stops at the ends of `i64`.
pub fn sat_add(a: i64, b: i64) -> (r: i64)
    ensures
        r == saturate(a + b),
{
    narrow(a as i128 + b as i128)
}

/// Subtraction that stops at the ends of `i64`.
pub fn sat_sub(a: i64, b: i64) -> (r: i64)
    ensures
        r == saturate(a - b),
{
    narrow(a as i128 - b as i128)
}

/// Division of wide integers that rounds down, as `/` does in contracts.
pub fn floor_div(p: i128, d: i128) -> (q: i128)
    requires
        d > 0,
        p > i128::MIN,
    ensures
        q == (p as int) / (d as int),
{
    let t: i128 = p / d;
    let m: i128 = p % d;
    proof {
        if p < 0 {
            let n: int = -(p as int);
            let dd: int = d as int;
            assert(p as int / dd == if n % dd == 0 {
                -(n / dd)
            } else {
                -(n / dd) - 1
            }) by (nonlinear_arith)
                requires
                    n == -(p as int),
                    dd > 0,
            ;
        }
    }
    if m < 0 {
        t - 1
    } else {
        t
    }
}

/// Multiplies two fixed-point numbers.
pub fn fixed_mul(a: i64, b: i64) -> (r: i64)
    ensures
        r == saturate(product(a as int, b as int)),
{
    proof {
        lemma_product_range(a as int, b as int);
    }
    let p: i128 = (a as i128) * (b as i128);
    narrow(floor_div(p, ONE as i128))
}

/// Divides one fixed-point number by another; by zero it gives zero.
pub fn fixed_div(a: i64, b: i64) -> (r: i64)
    ensures
        r == saturate(quotient(a as int, b as int)),
{
    proof {
        lemma_product_range(a as int, ONE as int);
    }
    if b > 0 {
        narrow(floor_div((a as i128) * (ONE as i128), b as i128))
    } else if b < 0 {
        narrow(floor_div(-((a as i128) * (ONE as i128)), -(b as i128)))
    } else {
        0
    }
}

/// The square root of `n`, rounded down.
pub fn isqrt(n: u128) -> (r: u64)
    ensures
        r == int_sqrt(n as int),
        is_int_sqrt(n as int, r as int),
{
    let mut lo: u128 = 0;
    let mut hi: u128 = 0x1_0000_0000_0000_0000;
    assert(n < hi * hi) by (nonlinear_arith)
        requires
            hi == 0x1_0000_0000_0000_0000,
            n <= u128::MAX,
    ;
    while hi - lo > 1
        invariant
            lo < hi <= 0x1_0000_0000_0000_0000,
            lo * lo <= n,
            n < hi * hi,
        decreases hi - lo,
    {
        let mid: u128 = lo + (hi - lo) / 2;
        assert(mid * mid <= u128::MAX) by (nonlinear_arith)
            requires
                mid < 0x1_0000_0000_0000_0000,
        ;
        if mid * mid <= n {
            lo = mid;
        } else {
            hi = mid;
        }
    }
    proof {
        lemma_int_sqrt_unique(n as int, lo as int);
    }
    lo as u64
}

} // verus!
