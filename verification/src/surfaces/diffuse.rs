//! The scattering surface.
//!
//! After a hit, a diffuse surface follows `samples` jittered copies of the
//! mirror direction. Each copy scales the mirror direction's axes by an
//! independently drawn kernel value and rescales the result back to the
//! mirror direction's length, approximating scattering about the mirror
//! bounce; the kernel is the cubic `2u^3 - 3u^2 + 1` on `[0, 1)`, a
//! raised-cosine-shaped falloff from one to zero.

use vstd::prelude::*;

use crate::colour::{cwf, sc_add, sc_div_int, sc_scale_fx, sum_c3, C3, Colour};
use crate::common_maths::maths::reflected_dir;
use crate::fixed::{iabs, tdiv, ONE};
use crate::fixed;
use crate::intersect::TestIntersectionResult;
use crate::renderer::{R3, Ray};
use crate::vec3::{bounded, sv_is_zero, sv_norm, sv_normalize, V3, Vec3};
use crate::vec3;

verus! {

/// What a diffuse surface folds a sequence of bounce colours into: their
/// average at half weight plus the surface's own colour at half weight
/// (just the halved own colour when there are no bounces).
pub open spec fn diffuse_fold(own: C3, cols: Seq<C3>) -> C3 {
    if cols.len() == 0 {
        sc_scale_fx(own, 500_000)
    } else {
        sc_add(sc_div_int(sum_c3(cols), 2 * cols.len() as int), sc_scale_fx(own, 500_000))
    }
}

/// Relies on rand::random: a sample of the thread-local generator, of which
/// nothing is promised.
pub assume_specification<T>[ rand::random::<T> ]() -> (r: T)
    where
        rand::distr::StandardUniform: rand::distr::Distribution<T>,
;

/// A fixed-point value in `[0, ONE)`, drawn from the thread's random
/// generator.
pub fn random_unit_fx() -> (r: i64)
    ensures
        0 <= r < ONE,
{
    let raw: u64 = rand::random();
    (raw % (ONE as u64)) as i64
}

/// The jitter kernel: `2u^3 - 3u^2 + 1` in fixed point, falling from one at
/// `u == 0` to zero at `u == ONE`.
pub open spec fn kernel_spec(u: int) -> int {
    tdiv(
        2 * u * u * u - 3 * u * u * (ONE as int) + (ONE as int) * (ONE as int) * (ONE as int),
        (ONE as int) * (ONE as int),
    )
}

/// The jitter kernel, exactly `kernel_spec` and within `[0, ONE]`.
pub fn kernel_fx(u: i64) -> (r: i64)
    requires
        0 <= u < ONE,
    ensures
        r == kernel_spec(u as int),
        0 <= r <= ONE,
{
    let ui = u as i128;
    let s = ONE as i128;
    proof {
        let uu = u as int;
        let si = ONE as int;
        assert(0 <= 2 * uu * uu <= 2_000_000_000_000) by (nonlinear_arith)
            requires 0 <= uu <= 1_000_000;
        assert(0 <= 3 * uu * uu <= 3_000_000_000_000) by (nonlinear_arith)
            requires 0 <= uu <= 1_000_000;
        assert(0 <= 2 * uu * uu * uu <= 2_000_000_000_000_000_000) by (nonlinear_arith)
            requires 0 <= uu <= 1_000_000;
        assert(0 <= 3 * uu * uu * si <= 3_000_000_000_000_000_000) by (nonlinear_arith)
            requires 0 <= uu <= 1_000_000, si == 1_000_000;
        assert(2 * uu * uu * uu - 3 * uu * uu * si + si * si * si == (si - uu) * (si - uu) * (2
            * uu + si)) by (nonlinear_arith);
        assert((si - uu) * (si - uu) * (2 * uu + si) >= 0) by (nonlinear_arith)
            requires 0 <= uu < si;
        assert(si * si * si - (2 * uu * uu * uu - 3 * uu * uu * si + si * si * si) == uu * uu * (3
            * si - 2 * uu)) by (nonlinear_arith);
        assert(uu * uu * (3 * si - 2 * uu) >= 0) by (nonlinear_arith)
            requires 0 <= uu < si;
        assert(si * si * si == si * (si * si)) by (nonlinear_arith);
        fixed::lemma_tdiv_char(2 * uu * uu * uu - 3 * uu * uu * si + si * si * si, si * si);
        fixed::lemma_tdiv_bound(2 * uu * uu * uu - 3 * uu * uu * si + si * si * si, si * si, si);
    }
    let num = 2 * ui * ui * ui - 3 * ui * ui * s + s * s * s;
    let r = fixed::div_i128(num, s * s);
    r as i64
}

/// One jittered copy of `v`: its axes scaled by the kernel values, then the
/// result rescaled to `v`'s own length (kept as-is if the scaling collapsed
/// it to zero).
pub open spec fn jitter_spec(v: V3, kx: int, ky: int, kz: int) -> V3 {
    let scaled = V3 {
        x: tdiv(v.x * kx, ONE as int),
        y: tdiv(v.y * ky, ONE as int),
        z: tdiv(v.z * kz, ONE as int),
    };
    let l = sv_norm(v);
    let n = sv_norm(scaled);
    if n == 0 {
        v
    } else {
        V3 {
            x: tdiv(scaled.x * l, n),
            y: tdiv(scaled.y * l, n),
            z: tdiv(scaled.z * l, n),
        }
    }
}

/// A jittered direction as a bounce ray carries it: normalized, unless it
/// degenerated to zero.
pub open spec fn jitter_then_unit(v: V3, kx: int, ky: int, kz: int) -> V3 {
    let j = jitter_spec(v, kx, ky, kz);
    if sv_is_zero(j) {
        j
    } else {
        sv_normalize(j)
    }
}

/// However the kernel values fall, a bounce direction stays within unit
/// components.
pub proof fn lemma_jitter_unit_bounded(v: V3, kx: int, ky: int, kz: int)
    ensures
        bounded(jitter_then_unit(v, kx, ky, kz), ONE as int),
{
    let j = jitter_spec(v, kx, ky, kz);
    if !sv_is_zero(j) {
        vec3::lemma_norm_zero(j);
        vec3::lemma_normalize_bounded(j);
    }
}

/// A ray a diffuse surface may request: the mirror bounce, each axis scaled
/// by the kernel of its own uniform draw, leaving from the hit point.
pub open spec fn diffuse_ray_ok(normal: R3, incoming: R3, ray: Ray) -> bool {
    exists|ux: int, uy: int, uz: int|
        {
            &&& 0 <= ux < ONE as int
            &&& 0 <= uy < ONE as int
            &&& 0 <= uz < ONE as int
            &&& ray@.origin == normal.origin
            &&& ray@.direction == jitter_then_unit(
                reflected_dir(normal, incoming),
                kernel_spec(ux),
                kernel_spec(uy),
                kernel_spec(uz),
            )
        }
}

/// Away from the last thousand quanta before one, the kernel is strictly
/// positive (and never above one): a draw there scales an axis without
/// zeroing it.
pub proof fn lemma_kernel_positive(u: int)
    requires
        0 <= u <= ONE - 1000,
    ensures
        1 <= kernel_spec(u) <= ONE,
{
    let si: int = ONE as int;
    let num = 2 * u * u * u - 3 * u * u * si + si * si * si;
    assert(num == (si - u) * (si - u) * (2 * u + si)) by (nonlinear_arith)
        requires num == 2 * u * u * u - 3 * u * u * si + si * si * si;
    assert(num >= si * si) by (nonlinear_arith)
        requires
            num == (si - u) * (si - u) * (2 * u + si),
            0 <= u <= si - 1000,
            si == 1_000_000;
    assert(si * si * si - num == u * u * (3 * si - 2 * u)) by (nonlinear_arith)
        requires num == 2 * u * u * u - 3 * u * u * si + si * si * si;
    assert(si * si * si - num >= 0) by (nonlinear_arith)
        requires si * si * si - num == u * u * (3 * si - 2 * u), 0 <= u < si;
    assert(si * si * si == si * (si * si)) by (nonlinear_arith);
    fixed::lemma_tdiv_char(num, si * si);
    fixed::lemma_tdiv_bound(num, si * si, si);
    assert(num / (si * si) >= 1) by {
        vstd::arithmetic::div_mod::lemma_div_is_ordered(si * si, num, si * si);
        vstd::arithmetic::div_mod::lemma_div_by_self(si * si);
    };
}

/// Jittering never flips an axis: with non-negative kernel values, each
/// component of the bounce direction keeps the sign of the mirror
/// direction's component (or vanishes with it).
pub proof fn lemma_jitter_keeps_sign(v: V3, kx: int, ky: int, kz: int)
    requires
        0 <= kx,
        0 <= ky,
        0 <= kz,
    ensures
        v.x >= 0 ==> jitter_then_unit(v, kx, ky, kz).x >= 0,
        v.x <= 0 ==> jitter_then_unit(v, kx, ky, kz).x <= 0,
        v.y >= 0 ==> jitter_then_unit(v, kx, ky, kz).y >= 0,
        v.y <= 0 ==> jitter_then_unit(v, kx, ky, kz).y <= 0,
        v.z >= 0 ==> jitter_then_unit(v, kx, ky, kz).z >= 0,
        v.z <= 0 ==> jitter_then_unit(v, kx, ky, kz).z <= 0,
{
    let si: int = ONE as int;
    let scaled = V3 {
        x: tdiv(v.x * kx, si),
        y: tdiv(v.y * ky, si),
        z: tdiv(v.z * kz, si),
    };
    lemma_tdiv_keeps_sign(v.x * kx, si);
    lemma_tdiv_keeps_sign(v.y * ky, si);
    lemma_tdiv_keeps_sign(v.z * kz, si);
    assert(v.x >= 0 ==> v.x * kx >= 0) by (nonlinear_arith)
        requires kx >= 0;
    assert(v.x <= 0 ==> v.x * kx <= 0) by (nonlinear_arith)
        requires kx >= 0;
    assert(v.y >= 0 ==> v.y * ky >= 0) by (nonlinear_arith)
        requires ky >= 0;
    assert(v.y <= 0 ==> v.y * ky <= 0) by (nonlinear_arith)
        requires ky >= 0;
    assert(v.z >= 0 ==> v.z * kz >= 0) by (nonlinear_arith)
        requires kz >= 0;
    assert(v.z <= 0 ==> v.z * kz <= 0) by (nonlinear_arith)
        requires kz >= 0;
    let l = sv_norm(v);
    let n = sv_norm(scaled);
    vec3::lemma_norm_zero(v);
    vec3::lemma_norm_zero(scaled);
    crate::vec3::lemma_norm_sq_nonneg(v);
    fixed::lemma_sqrt_exists(crate::vec3::sv_norm_sq(v));
    let j = jitter_spec(v, kx, ky, kz);
    if n != 0 {
        lemma_tdiv_keeps_sign(scaled.x * l, n);
        lemma_tdiv_keeps_sign(scaled.y * l, n);
        lemma_tdiv_keeps_sign(scaled.z * l, n);
        assert(scaled.x >= 0 ==> scaled.x * l >= 0) by (nonlinear_arith)
            requires l >= 0;
        assert(scaled.x <= 0 ==> scaled.x * l <= 0) by (nonlinear_arith)
            requires l >= 0;
        assert(scaled.y >= 0 ==> scaled.y * l >= 0) by (nonlinear_arith)
            requires l >= 0;
        assert(scaled.y <= 0 ==> scaled.y * l <= 0) by (nonlinear_arith)
            requires l >= 0;
        assert(scaled.z >= 0 ==> scaled.z * l >= 0) by (nonlinear_arith)
            requires l >= 0;
        assert(scaled.z <= 0 ==> scaled.z * l <= 0) by (nonlinear_arith)
            requires l >= 0;
    }
    if !sv_is_zero(j) {
        vec3::lemma_norm_zero(j);
        lemma_tdiv_keeps_sign(j.x * si, sv_norm(j));
        lemma_tdiv_keeps_sign(j.y * si, sv_norm(j));
        lemma_tdiv_keeps_sign(j.z * si, sv_norm(j));
        assert(j.x >= 0 ==> j.x * si >= 0) by (nonlinear_arith)
            requires si >= 1;
        assert(j.x <= 0 ==> j.x * si <= 0) by (nonlinear_arith)
            requires si >= 1;
        assert(j.y >= 0 ==> j.y * si >= 0) by (nonlinear_arith)
            requires si >= 1;
        assert(j.y <= 0 ==> j.y * si <= 0) by (nonlinear_arith)
            requires si >= 1;
        assert(j.z >= 0 ==> j.z * si >= 0) by (nonlinear_arith)
            requires si >= 1;
        assert(j.z <= 0 ==> j.z * si <= 0) by (nonlinear_arith)
            requires si >= 1;
    }
}

/// Truncating division by a positive divisor keeps the numerator's sign.
proof fn lemma_tdiv_keeps_sign(a: int, b: int)
    requires
        b >= 1,
    ensures
        a >= 0 ==> tdiv(a, b) >= 0,
        a <= 0 ==> tdiv(a, b) <= 0,
{
    fixed::lemma_tdiv_char(a, b);
}

/// A matte surface: after a hit it follows `samples` jittered copies of the
/// mirror direction and averages what they see.
#[derive(Clone, Copy, Debug, PartialEq, Eq, Structural)]
pub struct Diffuse {
    pub colour: Colour,
    pub samples: usize,
}

impl Diffuse {
    pub fn new(colour: Colour, samples: usize) -> (s: Diffuse)
        ensures
            s.colour == colour,
            s.samples == samples,
    {
        Diffuse { colour, samples }
    }

    /// The surface's contribution to a hit: its own colour.
    pub fn get_value(&self, _incoming: Colour) -> (c: Colour)
        ensures
            c == self.colour,
    {
        self.colour
    }

    /// One jittered copy of `input`: its axes scaled by the given kernel
    /// values, the result rescaled to `input`'s own length.
    pub fn rotate_vector(input: &Vec3, kx: i64, ky: i64, kz: i64) -> (r: Vec3)
        requires
            bounded(input@, 2_000_000_000),
            0 <= kx <= ONE,
            0 <= ky <= ONE,
            0 <= kz <= ONE,
        ensures
            r@ == jitter_spec(input@, kx as int, ky as int, kz as int),
            bounded(r@, 4_000_000_000),
    {
        proof {
            fixed::lemma_mul_bound(input@.x, kx as int, 2_000_000_000, ONE as int);
            fixed::lemma_mul_bound(input@.y, ky as int, 2_000_000_000, ONE as int);
            fixed::lemma_mul_bound(input@.z, kz as int, 2_000_000_000, ONE as int);
            fixed::lemma_tdiv_bound(input@.x * kx as int, ONE as int, 2_000_000_000);
            fixed::lemma_tdiv_bound(input@.y * ky as int, ONE as int, 2_000_000_000);
            fixed::lemma_tdiv_bound(input@.z * kz as int, ONE as int, 2_000_000_000);
        }
        let sx = fixed::div_i128((input.x as i128) * (kx as i128), ONE as i128) as i64;
        let sy = fixed::div_i128((input.y as i128) * (ky as i128), ONE as i128) as i64;
        let sz = fixed::div_i128((input.z as i128) * (kz as i128), ONE as i128) as i64;
        let scaled = Vec3::new(sx, sy, sz);
        let l = input.norm();
        let n = scaled.norm();
        if n == 0 {
            return *input;
        }
        proof {
            vec3::lemma_comp_le_norm(scaled@);
            vec3::lemma_norm_bound(input@, 2_000_000_000);
            fixed::lemma_mul_bound(scaled@.x, l as int, 2_000_000_000, 4_000_000_000);
            fixed::lemma_mul_bound(scaled@.y, l as int, 2_000_000_000, 4_000_000_000);
            fixed::lemma_mul_bound(scaled@.z, l as int, 2_000_000_000, 4_000_000_000);
            assert(iabs(scaled@.x * l as int) <= (l as int) * (n as int)) by (nonlinear_arith)
                requires iabs(scaled@.x) <= n as int, l as int >= 0, n as int >= 1;
            assert(iabs(scaled@.y * l as int) <= (l as int) * (n as int)) by (nonlinear_arith)
                requires iabs(scaled@.y) <= n as int, l as int >= 0, n as int >= 1;
            assert(iabs(scaled@.z * l as int) <= (l as int) * (n as int)) by (nonlinear_arith)
                requires iabs(scaled@.z) <= n as int, l as int >= 0, n as int >= 1;
            fixed::lemma_tdiv_bound(scaled@.x * l as int, n as int, l as int);
            fixed::lemma_tdiv_bound(scaled@.y * l as int, n as int, l as int);
            fixed::lemma_tdiv_bound(scaled@.z * l as int, n as int, l as int);
        }
        let ox = fixed::div_i128((sx as i128) * (l as i128), n as i128) as i64;
        let oy = fixed::div_i128((sy as i128) * (l as i128), n as i128) as i64;
        let oz = fixed::div_i128((sz as i128) * (l as i128), n as i128) as i64;
        Vec3::new(ox, oy, oz)
    }

    /// Fold the recursive results back into one shade: the average of the
    /// bounces at half weight, and the surface's own colour at the other
    /// half.
    pub fn intersections_to_colour(&self, rays: Vec<TestIntersectionResult>) -> (c: Colour)
        requires
            rays@.len() <= 1_000_000,
            cwf(self.colour@),
            forall|i: int| 0 <= i < rays@.len() ==> cwf(#[trigger] rays@[i].0.colour@),
        ensures
            c@ == diffuse_fold(self.colour@, rays@.map_values(|t: TestIntersectionResult| t.0.colour@)),
            cwf(c@),
    {
        let ghost cols = rays@.map_values(|t: TestIntersectionResult| t.0.colour@);
        proof {
            crate::colour::lemma_scale_half_wf(self.colour@);
        }
        let own = self.colour.multiply(500_000);
        let n = rays.len();
        if n == 0 {
            return own;
        }
        let mut sum = Colour::black();
        let mut i: usize = 0;
        proof {
            assert(cols.take(0) =~= Seq::<C3>::empty());
        }
        while i < n
            invariant
                0 <= i <= n,
                n == rays@.len(),
                n <= 1_000_000,
                cols == rays@.map_values(|t: TestIntersectionResult| t.0.colour@),
                forall|j: int| 0 <= j < rays@.len() ==> cwf(#[trigger] rays@[j].0.colour@),
                sum@ == sum_c3(cols.take(i as int)),
                0 <= sum@.r <= i * ONE as int,
                0 <= sum@.g <= i * ONE as int,
                0 <= sum@.b <= i * ONE as int,
            decreases n - i,
        {
            proof {
                assert(cols.take(i as int + 1) =~= cols.take(i as int).push(cols[i as int]));
                assert(cols.take(i as int + 1).drop_last() =~= cols.take(i as int));
                assert((i + 1) * ONE as int == i * ONE as int + ONE as int) by (nonlinear_arith);
            }
            sum = sum.add(&rays[i].0.colour);
            i = i + 1;
        }
        proof {
            assert(cols.take(n as int) =~= cols);
            assert(1 * ONE as int <= (n as int) * ONE as int) by (nonlinear_arith)
                requires 1 <= n as int;
            crate::colour::lemma_avg_wf(sum@, n as int);
        }
        let avg = sum.div_int(2 * (n as i64));
        avg.add(&own)
    }

    /// The jittered bounce rays this surface asks the engine to follow.
    pub fn request_rays(&self, normal_ray: &Ray, incoming_ray: &Ray) -> (rays: Vec<Ray>)
        requires
            1 <= self.samples <= 1000,
            bounded(normal_ray@.direction, ONE as int),
            bounded(incoming_ray@.direction, 1_998_000_000),
        ensures
            rays@.len() == self.samples,
            forall|i: int|
                0 <= i < rays@.len() ==> diffuse_ray_ok(normal_ray@, incoming_ray@, #[trigger] rays@[i]),
    {
        let reflected = crate::common_maths::maths::reflected_ray(normal_ray, incoming_ray);
        let mut rays: Vec<Ray> = Vec::new();
        let mut i: usize = 0;
        while i < self.samples
            invariant
                0 <= i <= self.samples,
                rays@.len() == i,
                bounded(reflected@.direction, 2_000_000_000),
                reflected@.direction == reflected_dir(normal_ray@, incoming_ray@),
                forall|j: int|
                    0 <= j < rays@.len() ==> diffuse_ray_ok(
                        normal_ray@,
                        incoming_ray@,
                        #[trigger] rays@[j],
                    ),
            decreases self.samples - i,
        {
            let ux = random_unit_fx();
            let uy = random_unit_fx();
            let uz = random_unit_fx();
            let kx = kernel_fx(ux);
            let ky = kernel_fx(uy);
            let kz = kernel_fx(uz);
            let dir = Diffuse::rotate_vector(&reflected.direction, kx, ky, kz);
            let ray = if dir.is_zero() {
                Ray::new_preserve(normal_ray.origin, dir)
            } else {
                Ray::new(normal_ray.origin, dir)
            };
            proof {
                assert(ray@.direction == jitter_then_unit(
                    reflected_dir(normal_ray@, incoming_ray@),
                    kernel_spec(ux as int),
                    kernel_spec(uy as int),
                    kernel_spec(uz as int),
                ));
                assert(diffuse_ray_ok(normal_ray@, incoming_ray@, ray));
            }
            rays.push(ray);
            i = i + 1;
        }
        rays
    }
}

} // verus!
