//! Three-component fixed-point vectors.
//!
//! Components are scalars in quanta of `1 / fixed::ONE` (see `fixed`). The
//! spec-level model `V3` carries the components as mathematical integers, and
//! every executable operation states its result exactly over that model.

use vstd::prelude::*;

use crate::fixed::{iabs, is_sqrt, sqrt_floor, tdiv, ONE};
use crate::fixed;

verus! {

/// Spec-level vector: the mathematical value of a `Vec3`.
pub ghost struct V3 {
    pub x: int,
    pub y: int,
    pub z: int,
}

/// A point or direction in space, components in fixed-point quanta.
#[derive(Clone, Copy, Debug, PartialEq, Eq, Structural)]
pub struct Vec3 {
    pub x: i64,
    pub y: i64,
    pub z: i64,
}

impl View for Vec3 {
    type V = V3;

    open spec fn view(&self) -> V3 {
        V3 { x: self.x as int, y: self.y as int, z: self.z as int }
    }
}

/// Every component's magnitude is at most `m`.
pub open spec fn bounded(v: V3, m: int) -> bool {
    iabs(v.x) <= m && iabs(v.y) <= m && iabs(v.z) <= m
}

pub open spec fn sv_add(a: V3, b: V3) -> V3 {
    V3 { x: a.x + b.x, y: a.y + b.y, z: a.z + b.z }
}

pub open spec fn sv_sub(a: V3, b: V3) -> V3 {
    V3 { x: a.x - b.x, y: a.y - b.y, z: a.z - b.z }
}

pub open spec fn sv_is_zero(a: V3) -> bool {
    a.x == 0 && a.y == 0 && a.z == 0
}

/// Dot product of the raw components (scale `ONE * ONE` when both arguments
/// are fixed-point values).
pub open spec fn sv_dot_raw(a: V3, b: V3) -> int {
    a.x * b.x + a.y * b.y + a.z * b.z
}

pub open spec fn sv_norm_sq(a: V3) -> int {
    sv_dot_raw(a, a)
}

/// Euclidean length, rounded down, at the scale of the components.
pub open spec fn sv_norm(a: V3) -> int {
    sqrt_floor(sv_norm_sq(a))
}

/// Dot product of two fixed-point vectors, rescaled back to fixed point.
pub open spec fn sv_dot_fx(a: V3, b: V3) -> int {
    tdiv(sv_dot_raw(a, b), ONE as int)
}

/// Cross product of two fixed-point vectors, rescaled back to fixed point.
pub open spec fn sv_cross_fx(a: V3, b: V3) -> V3 {
    V3 {
        x: tdiv(a.y * b.z - a.z * b.y, ONE as int),
        y: tdiv(a.z * b.x - a.x * b.z, ONE as int),
        z: tdiv(a.x * b.y - a.y * b.x, ONE as int),
    }
}

/// Cross product of the raw components, not rescaled (scale `ONE * ONE`
/// when both arguments are fixed-point values).
pub open spec fn sv_cross_raw(a: V3, b: V3) -> V3 {
    V3 {
        x: a.y * b.z - a.z * b.y,
        y: a.z * b.x - a.x * b.z,
        z: a.x * b.y - a.y * b.x,
    }
}

/// The vector scaled by the fixed-point factor `t`.
pub open spec fn sv_scale_fx(a: V3, t: int) -> V3 {
    V3 {
        x: tdiv(a.x * t, ONE as int),
        y: tdiv(a.y * t, ONE as int),
        z: tdiv(a.z * t, ONE as int),
    }
}

/// The vector rescaled to length `ONE` (meaningful when its norm is nonzero).
pub open spec fn sv_normalize(a: V3) -> V3 {
    V3 {
        x: tdiv(a.x * ONE as int, sv_norm(a)),
        y: tdiv(a.y * ONE as int, sv_norm(a)),
        z: tdiv(a.z * ONE as int, sv_norm(a)),
    }
}

/// A squared norm is never negative.
pub proof fn lemma_norm_sq_nonneg(a: V3)
    ensures
        sv_norm_sq(a) >= 0,
        sv_norm_sq(a) >= a.x * a.x,
        sv_norm_sq(a) >= a.y * a.y,
        sv_norm_sq(a) >= a.z * a.z,
{
    assert(a.x * a.x >= 0 && a.y * a.y >= 0 && a.z * a.z >= 0) by (nonlinear_arith);
}

/// The norm is non-negative and bounded by twice the largest component.
pub proof fn lemma_norm_bound(a: V3, m: int)
    requires
        bounded(a, m),
        m >= 0,
    ensures
        0 <= sv_norm(a) <= 2 * m,
{
    lemma_norm_sq_nonneg(a);
    fixed::lemma_sqrt_exists(sv_norm_sq(a));
    assert(sv_norm_sq(a) <= 2 * m * (2 * m)) by (nonlinear_arith)
        requires iabs(a.x) <= m, iabs(a.y) <= m, iabs(a.z) <= m, m >= 0;
    fixed::lemma_sqrt_monotonic(sv_norm_sq(a), 2 * m * (2 * m));
    fixed::lemma_sqrt_square(2 * m);
}

/// No component is larger in magnitude than the norm.
pub proof fn lemma_comp_le_norm(a: V3)
    ensures
        bounded(a, sv_norm(a)),
{
    lemma_norm_sq_nonneg(a);
    fixed::lemma_sqrt_square(iabs(a.x));
    assert(iabs(a.x) * iabs(a.x) == a.x * a.x) by (nonlinear_arith);
    fixed::lemma_sqrt_monotonic(iabs(a.x) * iabs(a.x), sv_norm_sq(a));
    fixed::lemma_sqrt_square(iabs(a.y));
    assert(iabs(a.y) * iabs(a.y) == a.y * a.y) by (nonlinear_arith);
    fixed::lemma_sqrt_monotonic(iabs(a.y) * iabs(a.y), sv_norm_sq(a));
    fixed::lemma_sqrt_square(iabs(a.z));
    assert(iabs(a.z) * iabs(a.z) == a.z * a.z) by (nonlinear_arith);
    fixed::lemma_sqrt_monotonic(iabs(a.z) * iabs(a.z), sv_norm_sq(a));
}

/// The norm is zero exactly on the zero vector.
pub proof fn lemma_norm_zero(a: V3)
    ensures
        sv_norm(a) == 0 <==> sv_is_zero(a),
        !sv_is_zero(a) ==> sv_norm(a) >= 1,
{
    lemma_norm_sq_nonneg(a);
    fixed::lemma_sqrt_exists(sv_norm_sq(a));
    if sv_is_zero(a) {
        fixed::lemma_sqrt_square(0);
    } else {
        assert(sv_norm_sq(a) >= 1) by (nonlinear_arith)
            requires sv_norm_sq(a) == a.x * a.x + a.y * a.y + a.z * a.z, !(a.x == 0 && a.y == 0 && a.z == 0);
        if sv_norm(a) == 0 {
            assert(is_sqrt(sv_norm_sq(a), 0));
        }
    }
    lemma_comp_le_norm(a);
}

/// A normalized vector's components are at most `ONE` in magnitude.
pub proof fn lemma_normalize_bounded(a: V3)
    requires
        sv_norm(a) >= 1,
    ensures
        bounded(sv_normalize(a), ONE as int),
{
    let n = sv_norm(a);
    lemma_comp_le_norm(a);
    assert(iabs(a.x * ONE as int) <= ONE as int * iabs(n)) by (nonlinear_arith)
        requires iabs(a.x) <= n, n >= 1;
    fixed::lemma_tdiv_bound(a.x * ONE as int, n, ONE as int);
    assert(iabs(a.y * ONE as int) <= ONE as int * iabs(n)) by (nonlinear_arith)
        requires iabs(a.y) <= n, n >= 1;
    fixed::lemma_tdiv_bound(a.y * ONE as int, n, ONE as int);
    assert(iabs(a.z * ONE as int) <= ONE as int * iabs(n)) by (nonlinear_arith)
        requires iabs(a.z) <= n, n >= 1;
    fixed::lemma_tdiv_bound(a.z * ONE as int, n, ONE as int);
}

/// When each component of `a` scaled by `c` is `k` times the matching
/// component of `b`, the squared norms relate by `k` squared.
pub proof fn lemma_scaled_norm_sq(a: V3, b: V3, c: int, k: int)
    requires
        a.x * c == k * b.x,
        a.y * c == k * b.y,
        a.z * c == k * b.z,
    ensures
        sv_norm_sq(a) * (c * c) == (k * k) * sv_norm_sq(b),
{
    assert((a.x * c) * (a.x * c) == (k * b.x) * (k * b.x)) by (nonlinear_arith)
        requires a.x * c == k * b.x;
    assert((a.y * c) * (a.y * c) == (k * b.y) * (k * b.y)) by (nonlinear_arith)
        requires a.y * c == k * b.y;
    assert((a.z * c) * (a.z * c) == (k * b.z) * (k * b.z)) by (nonlinear_arith)
        requires a.z * c == k * b.z;
    assert((a.x * a.x) * (c * c) == (a.x * c) * (a.x * c)) by (nonlinear_arith);
    assert((a.y * a.y) * (c * c) == (a.y * c) * (a.y * c)) by (nonlinear_arith);
    assert((a.z * a.z) * (c * c) == (a.z * c) * (a.z * c)) by (nonlinear_arith);
    assert((a.x * a.x + a.y * a.y + a.z * a.z) * (c * c) == (a.x * a.x) * (c * c) + (a.y * a.y) * (c
        * c) + (a.z * a.z) * (c * c)) by (nonlinear_arith);
    assert((k * k) * (b.x * b.x) == (k * b.x) * (k * b.x)) by (nonlinear_arith);
    assert((k * k) * (b.y * b.y) == (k * b.y) * (k * b.y)) by (nonlinear_arith);
    assert((k * k) * (b.z * b.z) == (k * b.z) * (k * b.z)) by (nonlinear_arith);
    assert((k * k) * (b.x * b.x + b.y * b.y + b.z * b.z) == (k * k) * (b.x * b.x) + (k * k) * (b.y
        * b.y) + (k * k) * (b.z * b.z)) by (nonlinear_arith);
}

/// A common nonzero factor cancels from an equation.
pub proof fn lemma_cancel_mul(x: int, y: int, c: int)
    requires
        x * c == y * c,
        c != 0,
    ensures
        x == y,
{
    assert(x == y) by (nonlinear_arith)
        requires x * c == y * c, c != 0;
}

/// Rescaling to unit length lands within rounding of unit length: for any
/// vector at least one unit long, the normalized vector's squared norm is
/// within a few parts per million of one squared unit.
pub proof fn lemma_normalize_near_unit(v: V3)
    requires
        sv_norm(v) >= ONE as int,
    ensures
        (ONE as int) * (ONE as int) - 7_000_000 <= sv_norm_sq(sv_normalize(v)),
        sv_norm_sq(sv_normalize(v)) <= (ONE as int) * (ONE as int) + 2_000_000,
{
    let s: int = ONE as int;
    let n = sv_norm(v);
    let r = sv_normalize(v);
    lemma_norm_sq_nonneg(v);
    fixed::lemma_sqrt_exists(sv_norm_sq(v));
    fixed::lemma_tdiv_char(v.x * s, n);
    fixed::lemma_tdiv_char(v.y * s, n);
    fixed::lemma_tdiv_char(v.z * s, n);
    let ax = iabs(v.x);
    let ay = iabs(v.y);
    let az = iabs(v.z);
    let qx = iabs(r.x);
    let qy = iabs(r.y);
    let qz = iabs(r.z);
    assert(iabs(v.x * s) == ax * s && iabs(v.y * s) == ay * s && iabs(v.z * s) == az * s)
        by (nonlinear_arith)
        requires s > 0, ax == iabs(v.x), ay == iabs(v.y), az == iabs(v.z);
    assert(qx == (ax * s) / n && qy == (ay * s) / n && qz == (az * s) / n);
    vstd::arithmetic::div_mod::lemma_fundamental_div_mod(ax * s, n);
    vstd::arithmetic::div_mod::lemma_fundamental_div_mod(ay * s, n);
    vstd::arithmetic::div_mod::lemma_fundamental_div_mod(az * s, n);
    vstd::arithmetic::div_mod::lemma_mod_division_less_than_divisor(ax * s, n);
    vstd::arithmetic::div_mod::lemma_mod_division_less_than_divisor(ay * s, n);
    vstd::arithmetic::div_mod::lemma_mod_division_less_than_divisor(az * s, n);
    assert(n * qx <= ax * s < n * qx + n);
    assert(n * qy <= ay * s < n * qy + n);
    assert(n * qz <= az * s < n * qz + n);
    assert(qx >= 0 && qy >= 0 && qz >= 0) by {
        assert(qx >= 0 && qy >= 0 && qz >= 0) by (nonlinear_arith)
            requires
                n * qx <= ax * s < n * qx + n,
                n * qy <= ay * s < n * qy + n,
                n * qz <= az * s < n * qz + n,
                n >= 1, ax >= 0, ay >= 0, az >= 0, s >= 1;
    };
    let sq = sv_norm_sq(v);
    assert(ax * ax == v.x * v.x && ay * ay == v.y * v.y && az * az == v.z * v.z)
        by (nonlinear_arith)
        requires ax == iabs(v.x), ay == iabs(v.y), az == iabs(v.z);
    assert(sq == ax * ax + ay * ay + az * az);
    assert(n * n <= sq < (n + 1) * (n + 1));
    assert(sq <= n * n + 2 * n) by (nonlinear_arith)
        requires sq < (n + 1) * (n + 1);
    assert(sv_norm_sq(r) == qx * qx + qy * qy + qz * qz) by (nonlinear_arith)
        requires qx == iabs(r.x), qy == iabs(r.y), qz == iabs(r.z);
    // Upper bound: the scaled components cannot overshoot the exact ratio.
    assert(n * n * (qx * qx) <= s * s * (ax * ax)) by (nonlinear_arith)
        requires n * qx <= ax * s, qx >= 0, ax >= 0, n >= 1, s >= 1;
    assert(n * n * (qy * qy) <= s * s * (ay * ay)) by (nonlinear_arith)
        requires n * qy <= ay * s, qy >= 0, ay >= 0, n >= 1, s >= 1;
    assert(n * n * (qz * qz) <= s * s * (az * az)) by (nonlinear_arith)
        requires n * qz <= az * s, qz >= 0, az >= 0, n >= 1, s >= 1;
    assert(n * n * (qx * qx + qy * qy + qz * qz) == n * n * (qx * qx) + n * n * (qy * qy) + n * n
        * (qz * qz)) by (nonlinear_arith);
    assert(s * s * (ax * ax + ay * ay + az * az) == s * s * (ax * ax) + s * s * (ay * ay) + s * s
        * (az * az)) by (nonlinear_arith);
    assert(n * n * (qx * qx + qy * qy + qz * qz) <= s * s * sq);
    assert(qx * qx + qy * qy + qz * qz <= s * s + 2 * s) by (nonlinear_arith)
        requires
            n * n * (qx * qx + qy * qy + qz * qz) <= s * s * sq,
            sq <= n * n + 2 * n,
            n >= s >= 1,
            qx * qx + qy * qy + qz * qz >= 0;
    // Lower bound: each scaled component misses the exact ratio by less than
    // one quantum, and no component exceeds the norm.
    assert(ax <= n && ay <= n && az <= n) by (nonlinear_arith)
        requires
            sq == ax * ax + ay * ay + az * az,
            sq <= n * n + 2 * n,
            ax >= 0, ay >= 0, az >= 0, n >= 1;
    assert(qx <= s && qy <= s && qz <= s) by (nonlinear_arith)
        requires
            n * qx <= ax * s, n * qy <= ay * s, n * qz <= az * s,
            ax <= n, ay <= n, az <= n, n >= 1, s >= 1,
            qx >= 0, qy >= 0, qz >= 0;
    assert(s * s * (ax * ax) < n * n * (qx * qx + 2 * qx + 1)) by (nonlinear_arith)
        requires ax * s < n * qx + n, ax >= 0, n >= 1, s >= 1, qx >= 0;
    assert(s * s * (ay * ay) < n * n * (qy * qy + 2 * qy + 1)) by (nonlinear_arith)
        requires ay * s < n * qy + n, ay >= 0, n >= 1, s >= 1, qy >= 0;
    assert(s * s * (az * az) < n * n * (qz * qz + 2 * qz + 1)) by (nonlinear_arith)
        requires az * s < n * qz + n, az >= 0, n >= 1, s >= 1, qz >= 0;
    assert(n * n * (qx * qx + qy * qy + qz * qz + 2 * (qx + qy + qz) + 3) == n * n * (qx * qx + 2
        * qx + 1) + n * n * (qy * qy + 2 * qy + 1) + n * n * (qz * qz + 2 * qz + 1))
        by (nonlinear_arith);
    assert(s * s * sq < n * n * (qx * qx + qy * qy + qz * qz + 2 * (qx + qy + qz) + 3));
    assert(s * s - 7_000_000 <= qx * qx + qy * qy + qz * qz) by (nonlinear_arith)
        requires
            s * s * sq < n * n * (qx * qx + qy * qy + qz * qz + 2 * (qx + qy + qz) + 3),
            n * n <= sq,
            0 <= qx <= s, 0 <= qy <= s, 0 <= qz <= s,
            n >= 1,
            s == 1_000_000;
}

impl Vec3 {
    pub fn new(x: i64, y: i64, z: i64) -> (r: Vec3)
        ensures
            r@ == (V3 { x: x as int, y: y as int, z: z as int }),
    {
        Vec3 { x, y, z }
    }

    pub fn add(&self, o: &Vec3) -> (r: Vec3)
        requires
            bounded(self@, 0x2000_0000_0000_0000),
            bounded(o@, 0x2000_0000_0000_0000),
        ensures
            r@ == sv_add(self@, o@),
    {
        Vec3 { x: self.x + o.x, y: self.y + o.y, z: self.z + o.z }
    }

    pub fn sub(&self, o: &Vec3) -> (r: Vec3)
        requires
            bounded(self@, 0x2000_0000_0000_0000),
            bounded(o@, 0x2000_0000_0000_0000),
        ensures
            r@ == sv_sub(self@, o@),
    {
        Vec3 { x: self.x - o.x, y: self.y - o.y, z: self.z - o.z }
    }

    pub fn is_zero(&self) -> (r: bool)
        ensures
            r == sv_is_zero(self@),
    {
        self.x == 0 && self.y == 0 && self.z == 0
    }

    /// Dot product, rescaled to fixed point; the caller must know the raw
    /// dot product fits an `i64` once divided by `ONE`.
    pub fn dot_fx(&self, o: &Vec3) -> (r: i64)
        requires
            bounded(self@, 2_000_000_000_000_000),
            bounded(o@, 2_000_000_000_000_000),
            iabs(sv_dot_raw(self@, o@)) <= 0x7fff_ffff_ffff_ffff * (ONE as int),
        ensures
            r == sv_dot_fx(self@, o@),
    {
        proof {
            lemma_dot_raw_fits(self@, o@, 2_000_000_000_000_000, 2_000_000_000_000_000);
            fixed::lemma_tdiv_bound(sv_dot_raw(self@, o@), ONE as int, 0x7fff_ffff_ffff_ffff);
        }
        let raw: i128 = (self.x as i128) * (o.x as i128) + (self.y as i128) * (o.y as i128)
            + (self.z as i128) * (o.z as i128);
        let q = fixed::div_i128(raw, ONE as i128);
        q as i64
    }

    /// Dot product of the raw components, without rescaling.
    pub fn dot_raw(&self, o: &Vec3) -> (r: i128)
        requires
            bounded(self@, 2_000_000_000_000_000),
            bounded(o@, 2_000_000_000_000_000),
        ensures
            r as int == sv_dot_raw(self@, o@),
    {
        proof {
            lemma_dot_raw_fits(self@, o@, 2_000_000_000_000_000, 2_000_000_000_000_000);
        }
        (self.x as i128) * (o.x as i128) + (self.y as i128) * (o.y as i128) + (self.z as i128)
            * (o.z as i128)
    }

    /// Euclidean length, rounded down.
    pub fn norm(&self) -> (r: i64)
        requires
            bounded(self@, 2_000_000_000_000_000),
        ensures
            r == sv_norm(self@),
            0 <= r <= 4_000_000_000_000_000,
    {
        proof {
            lemma_dot_raw_fits(self@, self@, 2_000_000_000_000_000, 2_000_000_000_000_000);
            lemma_norm_sq_nonneg(self@);
            lemma_norm_bound(self@, 2_000_000_000_000_000);
        }
        let sq: i128 = (self.x as i128) * (self.x as i128) + (self.y as i128) * (self.y as i128)
            + (self.z as i128) * (self.z as i128);
        let r = fixed::isqrt_u128(sq as u128);
        r as i64
    }

    /// The vector rescaled to length `ONE` (within rounding).
    pub fn normalize(&self) -> (r: Vec3)
        requires
            bounded(self@, 2_000_000_000_000_000),
            !sv_is_zero(self@),
        ensures
            r@ == sv_normalize(self@),
            bounded(r@, ONE as int),
    {
        proof {
            lemma_norm_zero(self@);
            lemma_normalize_bounded(self@);
            lemma_comp_le_norm(self@);
        }
        let n = self.norm();
        let x = fixed::div_i128((self.x as i128) * (ONE as i128), n as i128);
        let y = fixed::div_i128((self.y as i128) * (ONE as i128), n as i128);
        let z = fixed::div_i128((self.z as i128) * (ONE as i128), n as i128);
        Vec3 { x: x as i64, y: y as i64, z: z as i64 }
    }

    /// The vector scaled by the fixed-point factor `t`.
    pub fn scale_fx(&self, t: i64) -> (r: Vec3)
        requires
            iabs(self@.x * t) <= 0x7fff_ffff_ffff_ffff * (ONE as int),
            iabs(self@.y * t) <= 0x7fff_ffff_ffff_ffff * (ONE as int),
            iabs(self@.z * t) <= 0x7fff_ffff_ffff_ffff * (ONE as int),
        ensures
            r@ == sv_scale_fx(self@, t as int),
    {
        proof {
            fixed::lemma_tdiv_bound(self@.x * t, ONE as int, 0x7fff_ffff_ffff_ffff);
            fixed::lemma_tdiv_bound(self@.y * t, ONE as int, 0x7fff_ffff_ffff_ffff);
            fixed::lemma_tdiv_bound(self@.z * t, ONE as int, 0x7fff_ffff_ffff_ffff);
        }
        let x = fixed::div_i128((self.x as i128) * (t as i128), ONE as i128);
        let y = fixed::div_i128((self.y as i128) * (t as i128), ONE as i128);
        let z = fixed::div_i128((self.z as i128) * (t as i128), ONE as i128);
        Vec3 { x: x as i64, y: y as i64, z: z as i64 }
    }

    /// Cross product of fixed-point vectors, rescaled to fixed point.
    pub fn cross_fx(&self, o: &Vec3) -> (r: Vec3)
        requires
            bounded(self@, 2_000_000_000_000_000),
            bounded(o@, 2_000_000_000_000_000),
            iabs(self@.y * o@.z - self@.z * o@.y) <= 0x7fff_ffff_ffff_ffff * (ONE as int),
            iabs(self@.z * o@.x - self@.x * o@.z) <= 0x7fff_ffff_ffff_ffff * (ONE as int),
            iabs(self@.x * o@.y - self@.y * o@.x) <= 0x7fff_ffff_ffff_ffff * (ONE as int),
        ensures
            r@ == sv_cross_fx(self@, o@),
    {
        proof {
            let m: int = 2_000_000_000_000_000;
            fixed::lemma_mul_bound(self@.y, o@.z, m, m);
            fixed::lemma_mul_bound(self@.z, o@.y, m, m);
            fixed::lemma_mul_bound(self@.z, o@.x, m, m);
            fixed::lemma_mul_bound(self@.x, o@.z, m, m);
            fixed::lemma_mul_bound(self@.x, o@.y, m, m);
            fixed::lemma_mul_bound(self@.y, o@.x, m, m);
            fixed::lemma_tdiv_bound(self@.y * o@.z - self@.z * o@.y, ONE as int, 0x7fff_ffff_ffff_ffff);
            fixed::lemma_tdiv_bound(self@.z * o@.x - self@.x * o@.z, ONE as int, 0x7fff_ffff_ffff_ffff);
            fixed::lemma_tdiv_bound(self@.x * o@.y - self@.y * o@.x, ONE as int, 0x7fff_ffff_ffff_ffff);
        }
        let cx = fixed::div_i128(
            (self.y as i128) * (o.z as i128) - (self.z as i128) * (o.y as i128),
            ONE as i128,
        );
        let cy = fixed::div_i128(
            (self.z as i128) * (o.x as i128) - (self.x as i128) * (o.z as i128),
            ONE as i128,
        );
        let cz = fixed::div_i128(
            (self.x as i128) * (o.y as i128) - (self.y as i128) * (o.x as i128),
            ONE as i128,
        );
        Vec3 { x: cx as i64, y: cy as i64, z: cz as i64 }
    }
}

/// With both arguments bounded by `2e15`, the raw dot product and squared
/// norm stay far inside `i128`.
pub proof fn lemma_dot_raw_fits(a: V3, b: V3, ma: int, mb: int)
    requires
        bounded(a, ma),
        bounded(b, mb),
        0 <= ma,
        0 <= mb,
    ensures
        iabs(sv_dot_raw(a, b)) <= 3 * ma * mb,
        iabs(a.x * b.x) <= ma * mb,
        iabs(a.y * b.y) <= ma * mb,
        iabs(a.z * b.z) <= ma * mb,
{
    fixed::lemma_mul_bound(a.x, b.x, ma, mb);
    fixed::lemma_mul_bound(a.y, b.y, ma, mb);
    fixed::lemma_mul_bound(a.z, b.z, ma, mb);
    assert(iabs(sv_dot_raw(a, b)) <= 3 * (ma * mb));
    assert(3 * (ma * mb) == 3 * ma * mb) by (nonlinear_arith);
}

} // verus!
