//! Ray–sphere intersection.
//!
//! Let `L` run from the ray's origin to the centre and `t_ca = L·d` be the
//! closest-approach parameter. A sphere behind the origin (`t_ca <= 0`) is
//! missed. Otherwise, with `dist` the centre's distance to the
//! closest-approach point, the ray enters the sphere iff `dist < radius`,
//! at parameter `t_ca - sqrt(radius^2 - dist^2)`; the guard on
//! `dist < radius` comes first, so the square root never sees a negative
//! argument.

use vstd::prelude::*;

use crate::colour::{C3, Colour};
use crate::fixed::{iabs, sqrt_floor, ONE};
use crate::fixed;
use crate::intersect::{matches_hit, miss_hit, tir_wf, Intersection, SpecHit, TestIntersectionResult};
use crate::objects::{MAX_COORD, MAX_DIR, MAX_POS};
use crate::renderer::{ray_bounded, sr_at_point, R3, Ray};
use crate::surfaces::specular::Specular;
use crate::surfaces::{s_get_value, surface_wf, Surface};
use crate::vec3::{bounded, sv_dot_fx, sv_dot_raw, sv_is_zero, sv_norm, sv_norm_sq, sv_normalize, sv_sub, V3, Vec3};
use crate::vec3;

verus! {

/// The closest-approach point may lie this far out per component and still
/// be worth looking at; farther out it cannot be within any in-bounds radius
/// of an in-bounds centre.
pub const CAP_RANGE: i64 = 1_000_000_000_000;

#[derive(Clone, Copy, Debug, PartialEq, Eq, Structural)]
pub struct Sphere {
    pub origin: Vec3,
    pub radius: i64,
    pub surface: Surface,
}

/// Centre and radius within scene bounds, radius positive, surface sound.
pub open spec fn sphere_wf(s: Sphere) -> bool {
    &&& bounded(s.origin@, MAX_COORD as int)
    &&& 0 < s.radius <= MAX_COORD
    &&& surface_wf(s.surface)
}

/// From the ray's origin to the centre.
pub open spec fn sp_l(s: Sphere, r: R3) -> V3 {
    sv_sub(s.origin@, r.origin)
}

/// Closest-approach parameter.
pub open spec fn sp_tca(s: Sphere, r: R3) -> int {
    sv_dot_fx(sp_l(s, r), r.direction)
}

/// Closest-approach point.
pub open spec fn sp_cap(s: Sphere, r: R3) -> V3 {
    sr_at_point(r, sp_tca(s, r))
}

/// Distance from the centre to the closest-approach point.
pub open spec fn sp_dist(s: Sphere, r: R3) -> int {
    sv_norm(sv_sub(sp_cap(s, r), s.origin@))
}

/// Half-chord: from the entry point to the closest-approach point.
pub open spec fn sp_half(s: Sphere, r: R3) -> int {
    sqrt_floor(s.radius * s.radius - sp_dist(s, r) * sp_dist(s, r))
}

/// Ray parameter of the entry point.
pub open spec fn sp_tsurf(s: Sphere, r: R3) -> int {
    sp_tca(s, r) - sp_half(s, r)
}

/// The entry point on the surface.
pub open spec fn sp_pt(s: Sphere, r: R3) -> V3 {
    sr_at_point(r, sp_tsurf(s, r))
}

/// Radius vector at the entry point, the direction of the surface normal.
pub open spec fn sp_nvec(s: Sphere, r: R3) -> V3 {
    sv_sub(sp_pt(s, r), s.origin@)
}

/// The ray hits: the centre lies ahead, the closest approach comes nearer
/// than the radius, and the entry point does not degenerate onto the centre.
pub open spec fn sp_hits(s: Sphere, r: R3) -> bool {
    sp_tca(s, r) > 0 && sp_dist(s, r) < s.radius && !sv_is_zero(sp_nvec(s, r))
}

/// Reported hit distance: from the ray's origin to the entry point.
pub open spec fn sp_report(s: Sphere, r: R3) -> int {
    sv_norm(sv_sub(sp_pt(s, r), r.origin))
}

/// The model outcome of testing a ray against a sphere.
pub open spec fn sphere_spec(s: Sphere, r: R3, incoming: C3) -> SpecHit {
    if sp_hits(s, r) {
        SpecHit {
            colour: s_get_value(s.surface, incoming),
            distance: Some(sp_report(s, r)),
            normal: Some(R3 { origin: sp_pt(s, r), direction: sv_normalize(sp_nvec(s, r)) }),
            surface: Some(s.surface),
        }
    } else {
        miss_hit()
    }
}

/// A closest-approach point with a component beyond `CAP_RANGE` is farther
/// from any in-bounds centre than any in-bounds radius.
proof fn lemma_far_cap_misses(s: Sphere, r: R3)
    requires
        sphere_wf(s),
        !bounded(sp_cap(s, r), CAP_RANGE as int),
    ensures
        sp_dist(s, r) >= s.radius,
{
    let d = sv_sub(sp_cap(s, r), s.origin@);
    vec3::lemma_norm_sq_nonneg(d);
    let far: int = CAP_RANGE as int - MAX_COORD as int;
    assert(iabs(d.x) > far || iabs(d.y) > far || iabs(d.z) > far);
    assert forall|c: int| iabs(c) > far implies c * c > far * far by {
        assert(iabs(c) > far ==> c * c > far * far) by (nonlinear_arith)
            requires far > 0;
    }
    assert(crate::vec3::sv_norm_sq(d) > far * far);
    fixed::lemma_sqrt_exists(crate::vec3::sv_norm_sq(d));
    fixed::lemma_sqrt_square(far);
    fixed::lemma_sqrt_monotonic(far * far, crate::vec3::sv_norm_sq(d));
}

/// Sphere symmetry: a ray aimed exactly at the centre from outside (unit
/// direction, centre at parameter `dd` beyond the radius, with the radius
/// step on the fixed-point grid) hits at distance `dd - radius` — the
/// centre's distance minus the radius — and bounces along the unit vector
/// from the centre to the hit point, here exactly the reversed direction.
pub proof fn lemma_sphere_symmetry(s: Sphere, r: R3, dd: int)
    requires
        sphere_wf(s),
        sv_norm_sq(r.direction) == (ONE as int) * (ONE as int),
        sv_sub(s.origin@, r.origin).x * (ONE as int) == dd * r.direction.x,
        sv_sub(s.origin@, r.origin).y * (ONE as int) == dd * r.direction.y,
        sv_sub(s.origin@, r.origin).z * (ONE as int) == dd * r.direction.z,
        s.radius < dd,
        (r.direction.x * s.radius) % (ONE as int) == 0,
        (r.direction.y * s.radius) % (ONE as int) == 0,
        (r.direction.z * s.radius) % (ONE as int) == 0,
    ensures
        sv_norm(sp_l(s, r)) == dd,
        sp_hits(s, r),
        sp_report(s, r) == dd - s.radius,
        sv_normalize(sp_nvec(s, r)) == (V3 {
            x: -r.direction.x,
            y: -r.direction.y,
            z: -r.direction.z,
        }),
{
    let si: int = ONE as int;
    let d = r.direction;
    let l = sp_l(s, r);
    let rad: int = s.radius as int;
    // The centre really sits at distance `dd`.
    vec3::lemma_scaled_norm_sq(l, d, si, dd);
    assert((dd * dd) * sv_norm_sq(d) == (dd * dd) * (si * si)) by (nonlinear_arith)
        requires sv_norm_sq(d) == si * si;
    vec3::lemma_cancel_mul(sv_norm_sq(l), dd * dd, si * si);
    fixed::lemma_sqrt_square(dd);
    fixed::lemma_sqrt_exists(dd * dd);
    fixed::lemma_sqrt_unique(dd * dd, sqrt_floor(dd * dd), dd);
    assert(sv_norm(l) == dd);
    // Closest approach: exactly at the centre, at parameter dd.
    assert((l.x * d.x) * si == dd * (d.x * d.x)) by (nonlinear_arith)
        requires l.x * si == dd * d.x;
    assert((l.y * d.y) * si == dd * (d.y * d.y)) by (nonlinear_arith)
        requires l.y * si == dd * d.y;
    assert((l.z * d.z) * si == dd * (d.z * d.z)) by (nonlinear_arith)
        requires l.z * si == dd * d.z;
    assert(sv_dot_raw(l, d) * si == (l.x * d.x) * si + (l.y * d.y) * si + (l.z * d.z) * si)
        by (nonlinear_arith)
        requires sv_dot_raw(l, d) == l.x * d.x + l.y * d.y + l.z * d.z;
    assert(dd * (d.x * d.x) + dd * (d.y * d.y) + dd * (d.z * d.z) == (dd * si) * si)
        by (nonlinear_arith)
        requires d.x * d.x + d.y * d.y + d.z * d.z == si * si;
    vec3::lemma_cancel_mul(sv_dot_raw(l, d), dd * si, si);
    fixed::lemma_tdiv_exact(dd, si);
    assert(sp_tca(s, r) == dd);
    assert(d.x * dd == l.x * si && d.y * dd == l.y * si && d.z * dd == l.z * si)
        by (nonlinear_arith)
        requires l.x * si == dd * d.x, l.y * si == dd * d.y, l.z * si == dd * d.z;
    fixed::lemma_tdiv_exact(l.x, si);
    fixed::lemma_tdiv_exact(l.y, si);
    fixed::lemma_tdiv_exact(l.z, si);
    assert(sp_cap(s, r) == s.origin@);
    assert(sv_sub(sp_cap(s, r), s.origin@) == (V3 { x: 0, y: 0, z: 0 }));
    fixed::lemma_sqrt_square(0);
    fixed::lemma_sqrt_exists(0);
    fixed::lemma_sqrt_unique(0, sqrt_floor(0), 0);
    assert(sp_dist(s, r) == 0);
    // Half-chord: the radius itself.
    fixed::lemma_sqrt_square(rad);
    fixed::lemma_sqrt_exists(rad * rad);
    fixed::lemma_sqrt_unique(rad * rad, sqrt_floor(rad * rad), rad);
    assert(sp_half(s, r) == rad);
    assert(sp_tsurf(s, r) == dd - rad);
    // The radius step stays on the grid: name its exact quotients.
    let kx = (d.x * rad) / si;
    let ky = (d.y * rad) / si;
    let kz = (d.z * rad) / si;
    vstd::arithmetic::div_mod::lemma_fundamental_div_mod(d.x * rad, si);
    vstd::arithmetic::div_mod::lemma_fundamental_div_mod(d.y * rad, si);
    vstd::arithmetic::div_mod::lemma_fundamental_div_mod(d.z * rad, si);
    assert(d.x * rad == kx * si && d.y * rad == ky * si && d.z * rad == kz * si)
        by (nonlinear_arith)
        requires
            d.x * rad == si * kx + (d.x * rad) % si, (d.x * rad) % si == 0,
            d.y * rad == si * ky + (d.y * rad) % si, (d.y * rad) % si == 0,
            d.z * rad == si * kz + (d.z * rad) % si, (d.z * rad) % si == 0,
            kx == (d.x * rad) / si, ky == (d.y * rad) / si, kz == (d.z * rad) / si;
    // Entry point: origin plus l minus the radius step.
    assert(d.x * (dd - rad) == (l.x - kx) * si && d.y * (dd - rad) == (l.y - ky) * si && d.z * (dd
        - rad) == (l.z - kz) * si) by (nonlinear_arith)
        requires
            d.x * dd == l.x * si, d.y * dd == l.y * si, d.z * dd == l.z * si,
            d.x * rad == kx * si, d.y * rad == ky * si, d.z * rad == kz * si;
    fixed::lemma_tdiv_exact(l.x - kx, si);
    fixed::lemma_tdiv_exact(l.y - ky, si);
    fixed::lemma_tdiv_exact(l.z - kz, si);
    assert(sp_pt(s, r) == (V3 {
        x: r.origin.x + (l.x - kx),
        y: r.origin.y + (l.y - ky),
        z: r.origin.z + (l.z - kz),
    }));
    assert(sp_nvec(s, r) == (V3 { x: -kx, y: -ky, z: -kz }));
    // The normal's length is the radius; some component is nonzero.
    assert(sp_nvec(s, r).x * si == (-rad) * d.x && sp_nvec(s, r).y * si == (-rad) * d.y && sp_nvec(
        s,
        r,
    ).z * si == (-rad) * d.z) by (nonlinear_arith)
        requires
            d.x * rad == kx * si, d.y * rad == ky * si, d.z * rad == kz * si,
            sp_nvec(s, r) == (V3 { x: -kx, y: -ky, z: -kz });
    vec3::lemma_scaled_norm_sq(sp_nvec(s, r), d, si, -rad);
    assert(((-rad) * (-rad)) * sv_norm_sq(d) == (rad * rad) * (si * si)) by (nonlinear_arith)
        requires sv_norm_sq(d) == si * si;
    vec3::lemma_cancel_mul(sv_norm_sq(sp_nvec(s, r)), rad * rad, si * si);
    assert(!sv_is_zero(sp_nvec(s, r))) by {
        if sv_is_zero(sp_nvec(s, r)) {
            assert(rad * rad == 0) by (nonlinear_arith)
                requires
                    sv_norm_sq(sp_nvec(s, r)) == rad * rad,
                    sv_norm_sq(sp_nvec(s, r)) == kx * kx + ky * ky + kz * kz,
                    kx == 0 && ky == 0 && kz == 0;
            assert(rad >= 1);
            assert(rad * rad >= 1) by (nonlinear_arith)
                requires rad >= 1;
        }
    };
    assert(sp_hits(s, r));
    // Reported distance: from the origin to the entry point.
    let pv = sv_sub(sp_pt(s, r), r.origin);
    assert(pv == (V3 { x: l.x - kx, y: l.y - ky, z: l.z - kz }));
    assert(pv.x * si == (dd - rad) * d.x && pv.y * si == (dd - rad) * d.y && pv.z * si == (dd
        - rad) * d.z) by (nonlinear_arith)
        requires
            d.x * (dd - rad) == (l.x - kx) * si,
            d.y * (dd - rad) == (l.y - ky) * si,
            d.z * (dd - rad) == (l.z - kz) * si,
            pv == (V3 { x: l.x - kx, y: l.y - ky, z: l.z - kz });
    vec3::lemma_scaled_norm_sq(pv, d, si, dd - rad);
    assert(((dd - rad) * (dd - rad)) * sv_norm_sq(d) == ((dd - rad) * (dd - rad)) * (si * si))
        by (nonlinear_arith)
        requires sv_norm_sq(d) == si * si;
    vec3::lemma_cancel_mul(sv_norm_sq(pv), (dd - rad) * (dd - rad), si * si);
    fixed::lemma_sqrt_square(dd - rad);
    fixed::lemma_sqrt_exists((dd - rad) * (dd - rad));
    fixed::lemma_sqrt_unique((dd - rad) * (dd - rad), sqrt_floor((dd - rad) * (dd - rad)), dd - rad);
    assert(sp_report(s, r) == dd - rad);
    // The bounce direction: the radius step rescaled to unit, the reversed
    // ray direction.
    fixed::lemma_sqrt_square(rad);
    fixed::lemma_sqrt_exists(rad * rad);
    fixed::lemma_sqrt_unique(rad * rad, sqrt_floor(rad * rad), rad);
    assert(sv_norm(sp_nvec(s, r)) == rad);
    assert(-kx * si == -d.x * rad && -ky * si == -d.y * rad && -kz * si == -d.z * rad)
        by (nonlinear_arith)
        requires d.x * rad == kx * si, d.y * rad == ky * si, d.z * rad == kz * si;
    assert((-d.x) * rad == -kx * si && (-d.y) * rad == -ky * si && (-d.z) * rad == -kz * si)
        by (nonlinear_arith)
        requires -kx * si == -d.x * rad, -ky * si == -d.y * rad, -kz * si == -d.z * rad;
    fixed::lemma_tdiv_exact(-d.x, rad);
    fixed::lemma_tdiv_exact(-d.y, rad);
    fixed::lemma_tdiv_exact(-d.z, rad);
    assert((-kx) * (ONE as int) == (-d.x) * rad) by (nonlinear_arith)
        requires -kx * si == -d.x * rad, si == ONE as int;
    assert((-ky) * (ONE as int) == (-d.y) * rad) by (nonlinear_arith)
        requires -ky * si == -d.y * rad, si == ONE as int;
    assert((-kz) * (ONE as int) == (-d.z) * rad) by (nonlinear_arith)
        requires -kz * si == -d.z * rad, si == ONE as int;
}

impl Sphere {
    /// A sphere with the default mirror surface.
    pub fn blank_specular_surface(origin: Vec3, radius: i64) -> (s: Sphere)
        ensures
            s.origin == origin,
            s.radius == radius,
            s.surface == Surface::Specular(Specular { colour: Colour { r: 100_000, g: 100_000, b: 100_000 } }),
    {
        Sphere { origin, radius, surface: Surface::Specular(Specular::new()) }
    }

    pub fn with_shader(origin: Vec3, radius: i64, surface: Surface) -> (s: Sphere)
        ensures
            s.origin == origin,
            s.radius == radius,
            s.surface == surface,
    {
        Sphere { origin, radius, surface }
    }

    /// Test a ray against this sphere.
    #[verifier::rlimit(100)]
    pub fn test_intersection(&self, ray: &Ray, incoming: Colour) -> (res: TestIntersectionResult)
        requires
            sphere_wf(*self),
            ray_bounded(ray@, MAX_POS as int, MAX_DIR as int),
        ensures
            matches_hit(res, sphere_spec(*self, ray@, incoming@)),
            tir_wf(res, MAX_POS as int),
    {
        let ghost rr = ray@;
        let l = self.origin.sub(&ray.origin);
        proof {
            vec3::lemma_dot_raw_fits(l@, rr.direction, 200_000_000_000_000, MAX_DIR as int);
        }
        let t_ca = l.dot_fx(&ray.direction);
        if t_ca <= 0 {
            return TestIntersectionResult(
                Intersection::new(Colour::from_gray(0), None, None),
                None,
            );
        }
        proof {
            fixed::lemma_tdiv_bound(
                sv_dot_raw(sp_l(*self, rr), rr.direction),
                ONE as int,
                1_200_000_000_000_000_000,
            );
            fixed::lemma_mul_bound(rr.direction.x, sp_tca(*self, rr), MAX_DIR as int, 1_200_000_000_000_000_000);
            fixed::lemma_mul_bound(rr.direction.y, sp_tca(*self, rr), MAX_DIR as int, 1_200_000_000_000_000_000);
            fixed::lemma_mul_bound(rr.direction.z, sp_tca(*self, rr), MAX_DIR as int, 1_200_000_000_000_000_000);
        }
        // The closest-approach point, in wide arithmetic: a far miss must
        // not overflow the narrow scalars.
        let cap_x = ray.origin.x as i128 + fixed::div_i128(
            (ray.direction.x as i128) * (t_ca as i128),
            ONE as i128,
        );
        let cap_y = ray.origin.y as i128 + fixed::div_i128(
            (ray.direction.y as i128) * (t_ca as i128),
            ONE as i128,
        );
        let cap_z = ray.origin.z as i128 + fixed::div_i128(
            (ray.direction.z as i128) * (t_ca as i128),
            ONE as i128,
        );
        proof {
            fixed::lemma_tdiv_char(rr.direction.x * sp_tca(*self, rr), ONE as int);
            fixed::lemma_tdiv_char(rr.direction.y * sp_tca(*self, rr), ONE as int);
            fixed::lemma_tdiv_char(rr.direction.z * sp_tca(*self, rr), ONE as int);
            assert(cap_x as int == sp_cap(*self, rr).x);
            assert(cap_y as int == sp_cap(*self, rr).y);
            assert(cap_z as int == sp_cap(*self, rr).z);
        }
        if cap_x > CAP_RANGE as i128 || cap_x < -(CAP_RANGE as i128) || cap_y > CAP_RANGE as i128
            || cap_y < -(CAP_RANGE as i128) || cap_z > CAP_RANGE as i128 || cap_z < -(
        CAP_RANGE as i128) {
            proof {
                lemma_far_cap_misses(*self, rr);
            }
            return TestIntersectionResult(
                Intersection::new(Colour::from_gray(0), None, None),
                None,
            );
        }
        let cap = Vec3::new(cap_x as i64, cap_y as i64, cap_z as i64);
        let dvec = cap.sub(&self.origin);
        let dist = dvec.norm();
        if dist < self.radius {
            // `dist < radius` is established, so the argument stays
            // non-negative.
            proof {
                assert((dist as int) * (dist as int) < (self.radius as int) * (self.radius as int))
                    by (nonlinear_arith)
                    requires 0 <= dist as int, (dist as int) < (self.radius as int);
                fixed::lemma_mul_bound(self.radius as int, self.radius as int, MAX_COORD as int, MAX_COORD as int);
                fixed::lemma_mul_bound(dist as int, dist as int, MAX_COORD as int, MAX_COORD as int);
            }
            let chord_sq: i128 = (self.radius as i128) * (self.radius as i128) - (dist as i128)
                * (dist as i128);
            let half_w = fixed::isqrt_u128(chord_sq as u128);
            proof {
                fixed::lemma_sqrt_square(self.radius as int);
                fixed::lemma_sqrt_monotonic(chord_sq as int, (self.radius as int) * (self.radius as int));
            }
            let half = half_w as i64;
            let t_surf = t_ca - half;
            proof {
                // The entry point stays near the closest-approach point:
                // their parameters differ by at most the half-chord.
                fixed::lemma_tdiv_inv_bound(rr.direction.x * sp_tca(*self, rr), ONE as int, 101_000_000_000_000);
                fixed::lemma_tdiv_inv_bound(rr.direction.y * sp_tca(*self, rr), ONE as int, 101_000_000_000_000);
                fixed::lemma_tdiv_inv_bound(rr.direction.z * sp_tca(*self, rr), ONE as int, 101_000_000_000_000);
                fixed::lemma_mul_bound(rr.direction.x, sp_half(*self, rr), MAX_DIR as int, MAX_COORD as int);
                fixed::lemma_mul_bound(rr.direction.y, sp_half(*self, rr), MAX_DIR as int, MAX_COORD as int);
                fixed::lemma_mul_bound(rr.direction.z, sp_half(*self, rr), MAX_DIR as int, MAX_COORD as int);
                assert(rr.direction.x * sp_tsurf(*self, rr) == rr.direction.x * sp_tca(*self, rr)
                    - rr.direction.x * sp_half(*self, rr)) by (nonlinear_arith);
                assert(rr.direction.y * sp_tsurf(*self, rr) == rr.direction.y * sp_tca(*self, rr)
                    - rr.direction.y * sp_half(*self, rr)) by (nonlinear_arith);
                assert(rr.direction.z * sp_tsurf(*self, rr) == rr.direction.z * sp_tca(*self, rr)
                    - rr.direction.z * sp_half(*self, rr)) by (nonlinear_arith);
                fixed::lemma_tdiv_diff(rr.direction.x * sp_tsurf(*self, rr), rr.direction.x * sp_tca(*self, rr), ONE as int);
                fixed::lemma_tdiv_diff(rr.direction.y * sp_tsurf(*self, rr), rr.direction.y * sp_tca(*self, rr), ONE as int);
                fixed::lemma_tdiv_diff(rr.direction.z * sp_tsurf(*self, rr), rr.direction.z * sp_tca(*self, rr), ONE as int);
            }
            let pt = ray.at_point(t_surf);
            let nvec = pt.sub(&self.origin);
            if nvec.is_zero() {
                // Degenerate: the entry point rounded onto the centre, so no
                // normal exists to bounce along.
                return TestIntersectionResult(
                    Intersection::new(Colour::from_gray(0), None, None),
                    None,
                );
            }
            let normal_ray = Ray::new(pt, nvec);
            let to_pt = pt.sub(&ray.origin);
            let rep = to_pt.norm();
            let colour = self.surface.get_value(incoming);
            return TestIntersectionResult(
                Intersection::new(colour, Some(rep), Some(normal_ray)),
                Some(self.surface),
            );
        }
        TestIntersectionResult(Intersection::new(Colour::from_gray(0), None, None), None)
    }
}

} // verus!
