//! Quads (parallelograms): a plane hit filtered by in-plane containment.
//!
//! Like the triangle, but the two in-plane coordinates are tested
//! independently: the hit is kept iff `0 < i < 1` and `0 < j < 1`.

use vstd::prelude::*;

use crate::colour::Colour;
use crate::fixed::ONE;
use crate::intersect::{matches_hit, miss_hit, tir_wf, Intersection, SpecHit, TestIntersectionResult};
use crate::objects::plane::{ipc_w, pl_hits, pl_pt, pl_t, plane_of, plane_spec, plane_wf, Plane};
use crate::objects::{MAX_COORD, MAX_DIR, MAX_POS};
use crate::renderer::{ray_bounded, R3, Ray};
use crate::surfaces::diffuse::Diffuse;
use crate::surfaces::{surface_wf, Surface};
use crate::vec3::{bounded, V3, Vec3};

verus! {

#[derive(Clone, Copy, Debug, PartialEq, Eq, Structural)]
pub struct Quad {
    pub inner_plane: Plane,
    pub surface: Surface,
}

pub open spec fn quad_wf(q: Quad) -> bool {
    plane_wf(q.inner_plane) && surface_wf(q.surface)
}

/// In-plane coordinates land inside the parallelogram: each strictly within
/// the unit interval.
pub open spec fn quad_contains(v: V3) -> bool {
    0 < v.x < ONE as int && 0 < v.y < ONE as int
}

/// The model outcome of testing a ray against a quad: the plane's hit,
/// carrying the quad's own surface, kept only when the in-plane coordinates
/// resolve (solver present, coefficients within `W_RANGE`) inside the
/// parallelogram.
pub open spec fn quad_spec(q: Quad, r: R3) -> SpecHit {
    let p = q.inner_plane;
    if pl_hits(p, r) && p.inverse is Some && bounded(
        ipc_w(p, pl_pt(p, r)),
        crate::objects::plane::W_RANGE as int,
    ) && quad_contains(ipc_w(p, pl_pt(p, r))) {
        SpecHit { surface: Some(q.surface), ..plane_spec(p, r) }
    } else {
        miss_hit()
    }
}

impl Quad {
    /// The quad spanned at `a` by `b` and `c`, with the default matte grey.
    pub fn from_3_points(a: &Vec3, b: &Vec3, c: &Vec3) -> (q: Quad)
        requires
            bounded(a@, MAX_COORD as int),
            bounded(b@, MAX_COORD as int),
            bounded(c@, MAX_COORD as int),
        ensures
            q.inner_plane == plane_of(a@, b@, c@, crate::surfaces::default_specular()),
            q.surface == Surface::Diffuse(Diffuse { colour: Colour { r: 500_000, g: 500_000, b: 500_000 }, samples: 3 }),
            quad_wf(q),
    {
        Quad {
            inner_plane: Plane::from_3_points(a, b, c),
            surface: Surface::Diffuse(Diffuse::new(Colour::from_gray(500_000), 3)),
        }
    }

    /// The quad spanned at `a` by `b` and `c`, carrying the given surface.
    pub fn from_3_points_and_surface(a: &Vec3, b: &Vec3, c: &Vec3, surface: Surface) -> (q: Quad)
        requires
            bounded(a@, MAX_COORD as int),
            bounded(b@, MAX_COORD as int),
            bounded(c@, MAX_COORD as int),
        ensures
            q.inner_plane == plane_of(a@, b@, c@, crate::surfaces::default_specular()),
            q.surface == surface,
            surface_wf(surface) ==> quad_wf(q),
    {
        Quad { inner_plane: Plane::from_3_points(a, b, c), surface }
    }

    /// Test a ray against this quad.
    pub fn test_intersection(&self, ray: &Ray, incoming: Colour) -> (res: TestIntersectionResult)
        requires
            quad_wf(*self),
            ray_bounded(ray@, MAX_POS as int, MAX_DIR as int),
        ensures
            matches_hit(res, quad_spec(*self, ray@)),
            tir_wf(res, MAX_POS as int),
    {
        let ghost rr = ray@;
        let found = self.inner_plane.test_intersection(ray, incoming);
        let potential = found.0;
        if let Some(t) = potential.distance {
            proof {
                crate::fixed::lemma_mul_bound(rr.direction.x, pl_t(self.inner_plane, rr), MAX_DIR as int, crate::objects::plane::T_RANGE as int);
                crate::fixed::lemma_mul_bound(rr.direction.y, pl_t(self.inner_plane, rr), MAX_DIR as int, crate::objects::plane::T_RANGE as int);
                crate::fixed::lemma_mul_bound(rr.direction.z, pl_t(self.inner_plane, rr), MAX_DIR as int, crate::objects::plane::T_RANGE as int);
            }
            let point = ray.at_point(t);
            let plane_coords = self.inner_plane.in_plane_coords(&point);
            if let Some(v) = plane_coords {
                if v.x > 0 && v.x < ONE && v.y > 0 && v.y < ONE {
                    return TestIntersectionResult(potential, Some(self.surface));
                }
            }
        }
        TestIntersectionResult(Intersection::new(Colour::black(), None, None), None)
    }
}

} // verus!
