//! Point lights: not solid, never bounce, terminate a light path.

use vstd::prelude::*;

use crate::colour::{sc_gray, Colour};
use crate::fixed::{iabs, ONE};
use crate::fixed;
use crate::intersect::{matches_hit, miss_hit, tir_wf, Intersection, SpecHit, TestIntersectionResult};
use crate::objects::{MAX_COORD, MAX_DIR, MAX_POS};
use crate::renderer::{ray_bounded, sr_at_point, R3, Ray};
use crate::vec3::{bounded, sv_dot_fx, sv_dot_raw, sv_norm, sv_sub, V3, Vec3};
use crate::vec3;

verus! {

/// A light "hits" a ray that passes within `intensity` of its origin, with a
/// flat brightness and no outgoing ray.
#[derive(Clone, Copy, Debug, PartialEq, Eq, Structural)]
pub struct PointLight {
    pub origin: Vec3,
    pub intensity: i64,
}

/// Origin and reach within scene bounds, reach positive.
pub open spec fn light_wf(l: PointLight) -> bool {
    bounded(l.origin@, MAX_COORD as int) && 0 < l.intensity <= MAX_COORD
}

/// Closest-approach parameter of the ray to the light's origin.
pub open spec fn li_tca(l: PointLight, r: R3) -> int {
    sv_dot_fx(sv_sub(l.origin@, r.origin), r.direction)
}

/// Distance from the light's origin to the closest-approach point.
pub open spec fn li_dist(l: PointLight, r: R3) -> int {
    sv_norm(sv_sub(sr_at_point(r, li_tca(l, r)), l.origin@))
}

/// The ray passes the light: closest approach not behind the origin and
/// within the light's reach.
pub open spec fn li_hits(l: PointLight, r: R3) -> bool {
    li_tca(l, r) >= 0 && li_dist(l, r) < l.intensity
}

/// The model outcome of testing a ray against a point light: full
/// brightness at the closest-approach parameter, and no bounce.
pub open spec fn light_spec(l: PointLight, r: R3) -> SpecHit {
    if li_hits(l, r) {
        SpecHit {
            colour: sc_gray(ONE as int),
            distance: Some(li_tca(l, r)),
            normal: None,
            surface: None,
        }
    } else {
        miss_hit()
    }
}

/// A closest-approach point with a component beyond `CAP_RANGE` is farther
/// from any in-bounds light than any in-bounds reach.
proof fn lemma_far_cap_passes(l: PointLight, r: R3)
    requires
        light_wf(l),
        !bounded(sr_at_point(r, li_tca(l, r)), crate::objects::sphere::CAP_RANGE as int),
    ensures
        li_dist(l, r) >= l.intensity,
{
    let d = sv_sub(sr_at_point(r, li_tca(l, r)), l.origin@);
    vec3::lemma_norm_sq_nonneg(d);
    let far: int = crate::objects::sphere::CAP_RANGE as int - MAX_COORD as int;
    assert(iabs(d.x) > far || iabs(d.y) > far || iabs(d.z) > far);
    assert forall|c: int| iabs(c) > far implies c * c > far * far by {
        assert(iabs(c) > far ==> c * c > far * far) by (nonlinear_arith)
            requires far > 0;
    }
    assert(crate::vec3::sv_norm_sq(d) > far * far);
    fixed::lemma_sqrt_exists(crate::vec3::sv_norm_sq(d));
    fixed::lemma_sqrt_square(far);
    fixed::lemma_sqrt_monotonic(far * far, crate::vec3::sv_norm_sq(d));
}

impl PointLight {
    pub fn new(origin: Vec3, intensity: i64) -> (l: PointLight)
        ensures
            l.origin == origin,
            l.intensity == intensity,
    {
        PointLight { origin, intensity }
    }

    /// Test a ray against this light; much like the sphere test, but with no
    /// outgoing ray and the closest-approach parameter as the distance.
    pub fn test_intersection(&self, ray: &Ray, _incoming: Colour) -> (res: TestIntersectionResult)
        requires
            light_wf(*self),
            ray_bounded(ray@, MAX_POS as int, MAX_DIR as int),
        ensures
            matches_hit(res, light_spec(*self, ray@)),
            tir_wf(res, MAX_POS as int),
    {
        let ghost rr = ray@;
        let l = self.origin.sub(&ray.origin);
        proof {
            vec3::lemma_dot_raw_fits(l@, rr.direction, 200_000_000_000_000, MAX_DIR as int);
        }
        let t_ca = l.dot_fx(&ray.direction);
        if t_ca < 0 {
            return TestIntersectionResult(
                Intersection::new(Colour::from_gray(0), None, None),
                None,
            );
        }
        proof {
            fixed::lemma_tdiv_bound(
                sv_dot_raw(sv_sub(self.origin@, rr.origin), rr.direction),
                ONE as int,
                1_200_000_000_000_000_000,
            );
            fixed::lemma_mul_bound(rr.direction.x, li_tca(*self, rr), MAX_DIR as int, 1_200_000_000_000_000_000);
            fixed::lemma_mul_bound(rr.direction.y, li_tca(*self, rr), MAX_DIR as int, 1_200_000_000_000_000_000);
            fixed::lemma_mul_bound(rr.direction.z, li_tca(*self, rr), MAX_DIR as int, 1_200_000_000_000_000_000);
        }
        let cap_x = ray.origin.x as i128 + fixed::div_i128(
            (ray.direction.x as i128) * (t_ca as i128),
            ONE as i128,
        );
        let cap_y = ray.origin.y as i128 + fixed::div_i128(
            (ray.direction.y as i128) * (t_ca as i128),
            ONE as i128,
        );
        let cap_z = ray.origin.z as i128 + fixed::div_i128(
            (ray.direction.z as i128) * (t_ca as i128),
            ONE as i128,
        );
        let range = crate::objects::sphere::CAP_RANGE;
        proof {
            fixed::lemma_tdiv_char(rr.direction.x * li_tca(*self, rr), ONE as int);
            fixed::lemma_tdiv_char(rr.direction.y * li_tca(*self, rr), ONE as int);
            fixed::lemma_tdiv_char(rr.direction.z * li_tca(*self, rr), ONE as int);
            assert(cap_x as int == sr_at_point(rr, li_tca(*self, rr)).x);
            assert(cap_y as int == sr_at_point(rr, li_tca(*self, rr)).y);
            assert(cap_z as int == sr_at_point(rr, li_tca(*self, rr)).z);
        }
        if cap_x > range as i128 || cap_x < -(range as i128) || cap_y > range as i128 || cap_y < -(
        range as i128) || cap_z > range as i128 || cap_z < -(range as i128) {
            proof {
                lemma_far_cap_passes(*self, rr);
            }
            return TestIntersectionResult(
                Intersection::new(Colour::from_gray(0), None, None),
                None,
            );
        }
        let cap = Vec3::new(cap_x as i64, cap_y as i64, cap_z as i64);
        let dvec = cap.sub(&self.origin);
        let dist = dvec.norm();
        if dist < self.intensity {
            return TestIntersectionResult(
                Intersection::new(Colour::from_gray(ONE), Some(t_ca), None),
                None,
            );
        }
        TestIntersectionResult(Intersection::new(Colour::from_gray(0), None, None), None)
    }
}

} // verus!
