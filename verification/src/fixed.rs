//! Fixed-point scalars.
//!
//! A scalar is an `i64` counting quanta of `1 / ONE` world units: the value
//! `ONE` stands for the real number one. Products and quotients are computed
//! in `i128` and rounded toward zero, the rounding of machine division.

use vstd::prelude::*;

verus! {

/// One world unit, in quanta.
pub const ONE: i64 = 1_000_000;

/// Offset applied along a surface normal to keep a bounced ray from
/// immediately re-hitting its own surface (a thousandth of a unit).
pub const EPS: i64 = 1_000;

/// Absolute value on mathematical integers.
pub open spec fn iabs(a: int) -> int {
    if a < 0 {
        -a
    } else {
        a
    }
}

/// Division rounding toward zero, the semantics of `/` on machine integers
/// (spec-level `/` on `int` rounds toward negative infinity instead).
pub open spec fn tdiv(a: int, b: int) -> int
    recommends
        b != 0,
{
    if (a < 0) == (b < 0) {
        iabs(a) / iabs(b)
    } else {
        -(iabs(a) / iabs(b))
    }
}

/// `r` is the integer square root of `n` rounded down.
pub open spec fn is_sqrt(n: int, r: int) -> bool {
    0 <= r && r * r <= n && n < (r + 1) * (r + 1)
}

/// The integer square root of `n` rounded down (meaningful for `n >= 0`).
pub closed spec fn sqrt_floor(n: int) -> int {
    choose|r: int| is_sqrt(n, r)
}

/// Every non-negative integer has a rounded-down square root.
pub proof fn lemma_sqrt_exists(n: int)
    requires
        n >= 0,
    ensures
        is_sqrt(n, sqrt_floor(n)),
    decreases n,
{
    if n == 0 {
        assert(is_sqrt(0, 0));
    } else {
        lemma_sqrt_exists(n - 1);
        let r = sqrt_floor(n - 1);
        if n < (r + 1) * (r + 1) {
            assert(is_sqrt(n, r));
        } else {
            assert(n == (r + 1) * (r + 1));
            assert((r + 1) * (r + 1) < (r + 2) * (r + 2)) by (nonlinear_arith)
                requires r >= 0;
            assert(is_sqrt(n, r + 1));
        }
        assert(exists|q: int| is_sqrt(n, q));
    }
}

/// The rounded-down square root is unique.
pub proof fn lemma_sqrt_unique(n: int, r1: int, r2: int)
    requires
        is_sqrt(n, r1),
        is_sqrt(n, r2),
    ensures
        r1 == r2,
{
    if r1 < r2 {
        assert((r1 + 1) * (r1 + 1) <= r2 * r2) by (nonlinear_arith)
            requires 0 <= r1, 0 <= r2, r1 + 1 <= r2;
    }
    if r2 < r1 {
        assert((r2 + 1) * (r2 + 1) <= r1 * r1) by (nonlinear_arith)
            requires 0 <= r1, 0 <= r2, r2 + 1 <= r1;
    }
}

/// Squares grow with their argument.
pub proof fn lemma_sqrt_monotonic(a: int, b: int)
    requires
        0 <= a <= b,
    ensures
        sqrt_floor(a) <= sqrt_floor(b),
{
    lemma_sqrt_exists(a);
    lemma_sqrt_exists(b);
    let ra = sqrt_floor(a);
    let rb = sqrt_floor(b);
    if rb < ra {
        assert((rb + 1) * (rb + 1) <= ra * ra) by (nonlinear_arith)
            requires 0 <= rb, rb + 1 <= ra;
    }
}

/// The square root of a perfect square.
pub proof fn lemma_sqrt_square(k: int)
    requires
        k >= 0,
    ensures
        sqrt_floor(k * k) == k,
{
    assert(k * k < (k + 1) * (k + 1)) by (nonlinear_arith)
        requires k >= 0;
    assert(is_sqrt(k * k, k));
    lemma_sqrt_exists(k * k);
    lemma_sqrt_unique(k * k, sqrt_floor(k * k), k);
}

/// Rounded-down integer square root, by binary search.
pub fn isqrt_u128(n: u128) -> (r: u128)
    ensures
        is_sqrt(n as int, r as int),
        r == sqrt_floor(n as int),
{
    let mut lo: u128 = 0;
    let mut hi: u128 = 0x1_0000_0000_0000_0000;
    if n < hi {
        hi = n + 1;
    }
    proof {
        if n < 0x1_0000_0000_0000_0000u128 {
            assert((hi as int) * (hi as int) > n as int) by (nonlinear_arith)
                requires
                    1 <= (hi as int),
                    (n as int) < (hi as int);
        } else {
            assert((hi as int) * (hi as int) > n as int) by (nonlinear_arith)
                requires
                    (hi as int) == 0x1_0000_0000_0000_0000int,
                    (n as int) < 0x1_0000_0000_0000_0000_0000_0000_0000_0000int;
        }
    }
    while lo + 1 < hi
        invariant
            0 <= lo < hi,
            hi <= 0x1_0000_0000_0000_0000u128,
            (lo as int) * (lo as int) <= n as int,
            (hi as int) * (hi as int) > n as int,
        decreases hi - lo,
    {
        let mid = lo + (hi - lo) / 2;
        assert(mid * mid <= 0xffff_ffff_ffff_ffffu128 * 0xffff_ffff_ffff_ffffu128) by (nonlinear_arith)
            requires 0 <= mid <= 0xffff_ffff_ffff_ffffu128;
        if mid * mid <= n {
            lo = mid;
        } else {
            hi = mid;
        }
    }
    assert(is_sqrt(n as int, lo as int));
    proof {
        lemma_sqrt_exists(n as int);
        lemma_sqrt_unique(n as int, sqrt_floor(n as int), lo as int);
    }
    lo
}

/// What truncating division returns: magnitude `iabs(a) / iabs(b)`, never
/// larger in magnitude than the exact quotient, and within one quantum of it.
pub proof fn lemma_tdiv_char(a: int, b: int)
    requires
        b != 0,
    ensures
        iabs(tdiv(a, b)) == iabs(a) / iabs(b),
        0 <= iabs(a) / iabs(b) <= iabs(a),
        iabs(a - tdiv(a, b) * b) < iabs(b),
        iabs(tdiv(a, b) * b) <= iabs(a),
        a >= 0 ==> tdiv(a, b) * b <= a,
        a <= 0 ==> tdiv(a, b) * b >= a,
{
    let aa = iabs(a);
    let bb = iabs(b);
    let q0 = aa / bb;
    let r0 = aa % bb;
    vstd::arithmetic::div_mod::lemma_fundamental_div_mod(aa, bb);
    assert(aa == bb * q0 + r0);
    assert(0 <= r0 < bb) by {
        vstd::arithmetic::div_mod::lemma_mod_division_less_than_divisor(aa, bb);
    };
    assert(q0 >= 0) by {
        if q0 < 0 {
            assert(bb * q0 <= -bb) by (nonlinear_arith)
                requires bb >= 1, q0 <= -1;
        }
    };
    assert(q0 <= aa) by (nonlinear_arith)
        requires aa == bb * q0 + r0, r0 >= 0, bb >= 1, q0 >= 0;
    assert(bb * q0 == q0 * bb) by (nonlinear_arith);
    let q = tdiv(a, b);
    if a >= 0 {
        if b > 0 {
            assert(q == q0 && q * b == q0 * bb) by (nonlinear_arith)
                requires q == q0, b == bb;
        } else {
            assert(q * b == q0 * bb) by (nonlinear_arith)
                requires q == -q0, b == -bb;
        }
        assert(q * b == aa - r0);
    } else {
        if b > 0 {
            assert(q * b == -(q0 * bb)) by (nonlinear_arith)
                requires q == -q0, b == bb;
        } else {
            assert(q * b == -(q0 * bb)) by (nonlinear_arith)
                requires q == q0, b == -bb;
        }
        assert(q * b == -(aa - r0));
    }
}

/// If the numerator is at most `m` times the divisor's magnitude, the
/// truncated quotient's magnitude is at most `m`.
pub proof fn lemma_tdiv_bound(a: int, b: int, m: int)
    requires
        b != 0,
        m >= 0,
        iabs(a) <= m * iabs(b),
    ensures
        iabs(tdiv(a, b)) <= m,
{
    lemma_tdiv_char(a, b);
    let aa = iabs(a);
    let bb = iabs(b);
    assert(aa / bb <= (m * bb) / bb) by {
        vstd::arithmetic::div_mod::lemma_div_is_ordered(aa, m * bb, bb);
    };
    assert((m * bb) / bb == m) by {
        vstd::arithmetic::div_mod::lemma_div_by_multiple(m, bb);
        assert(m * bb == bb * m) by (nonlinear_arith);
    };
}

/// Dividing an exact multiple recovers the factor.
pub proof fn lemma_tdiv_exact(k: int, b: int)
    requires
        b != 0,
    ensures
        tdiv(k * b, b) == k,
{
    lemma_tdiv_char(k * b, b);
    let q = tdiv(k * b, b);
    assert(iabs(q * b - k * b) < iabs(b));
    assert(q == k) by (nonlinear_arith)
        requires b != 0, iabs(q * b - k * b) < iabs(b);
}

/// Two truncated quotients over one divisor differ by little more than the
/// scaled difference of their numerators.
pub proof fn lemma_tdiv_diff(a: int, b: int, c: int)
    requires
        c >= 1,
    ensures
        iabs(tdiv(a, c) - tdiv(b, c)) * c <= iabs(a - b) + 2 * c,
{
    lemma_tdiv_char(a, c);
    lemma_tdiv_char(b, c);
    let qa = tdiv(a, c);
    let qb = tdiv(b, c);
    assert((qa - qb) * c == qa * c - qb * c) by (nonlinear_arith);
    assert(iabs((qa - qb) * c) <= iabs(a - b) + 2 * c);
    assert(iabs(qa - qb) * c == iabs((qa - qb) * c)) by (nonlinear_arith)
        requires c >= 1;
}

/// A numerator is within one divisor's width of its truncated quotient
/// rescaled: a bound on the quotient bounds the numerator.
pub proof fn lemma_tdiv_inv_bound(a: int, c: int, m: int)
    requires
        c >= 1,
        m >= 0,
        iabs(tdiv(a, c)) <= m,
    ensures
        iabs(a) < (m + 1) * c,
{
    lemma_tdiv_char(a, c);
    let q = tdiv(a, c);
    assert(iabs(q * c) <= m * c) by (nonlinear_arith)
        requires iabs(q) <= m, c >= 1, m >= 0;
    assert(iabs(a) <= iabs(q * c) + iabs(a - q * c));
    assert(m * c + c == (m + 1) * c) by (nonlinear_arith);
}

/// Magnitude bound on a product, from bounds on its factors.
pub proof fn lemma_mul_bound(a: int, b: int, ma: int, mb: int)
    requires
        iabs(a) <= ma,
        iabs(b) <= mb,
    ensures
        iabs(a * b) <= ma * mb,
{
    assert(iabs(a * b) <= ma * mb) by (nonlinear_arith)
        requires iabs(a) <= ma, iabs(b) <= mb;
}

/// Division of `i128` values rounding toward zero, via unsigned division.
pub fn div_i128(a: i128, b: i128) -> (r: i128)
    requires
        b != 0,
        a != i128::MIN,
    ensures
        r == tdiv(a as int, b as int),
{
    let ua: u128 = if a < 0 {
        (-a) as u128
    } else {
        a as u128
    };
    let ub: u128 = if b < 0 {
        if b == i128::MIN {
            0x8000_0000_0000_0000_0000_0000_0000_0000u128
        } else {
            (-b) as u128
        }
    } else {
        b as u128
    };
    let uq = ua / ub;
    assert(ua as int == iabs(a as int));
    assert(ub as int == iabs(b as int));
    assert(uq as int <= ua as int) by {
        assert(ua as int / ub as int <= ua as int) by (nonlinear_arith)
            requires ua >= 0, ub >= 1;
    };
    if (a < 0) == (b < 0) {
        uq as i128
    } else {
        -(uq as i128)
    }
}

} // verus!
