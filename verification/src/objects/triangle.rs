//! Triangles: a plane hit filtered by in-plane containment.
//!
//! After the underlying plane reports a hit, the hit point is resolved into
//! the plane's own coordinates `(i, j)`; the triangle spanned by the three
//! construction points keeps the hit iff `0 < i < 1`, `0 < j < 1` and
//! `0 < i + j < 1`, all bounds strict, so a point exactly on an edge is out.

use vstd::prelude::*;

use crate::colour::{cwf, Colour};
use crate::fixed::ONE;
use crate::intersect::{matches_hit, miss_hit, tir_wf, Intersection, SpecHit, TestIntersectionResult};
use crate::objects::plane::{ipc_w, pl_hits, pl_pt, pl_t, plane_of, plane_spec, plane_wf, Plane};
use crate::objects::{MAX_COORD, MAX_DIR, MAX_POS};
use crate::renderer::{ray_bounded, R3, Ray};
use crate::surfaces::{surface_wf, Surface};
use crate::vec3::{bounded, V3, Vec3};

verus! {

#[derive(Clone, Copy, Debug, PartialEq, Eq, Structural)]
pub struct Triangle {
    pub inner_plane: Plane,
    pub colour: Colour,
}

pub open spec fn triangle_wf(t: Triangle) -> bool {
    plane_wf(t.inner_plane) && cwf(t.colour@)
}

/// In-plane coordinates land inside the triangle: both strictly within the
/// unit interval and their sum strictly under one.
pub open spec fn tri_contains(v: V3) -> bool {
    0 < v.x < ONE as int && 0 < v.y < ONE as int && 0 < v.x + v.y < ONE as int
}

/// The model outcome of testing a ray against a triangle: the plane's hit,
/// wearing the triangle's colour, kept only when the in-plane coordinates
/// resolve (solver present, coefficients within `W_RANGE`) inside the
/// triangle.
pub open spec fn triangle_spec(t: Triangle, r: R3) -> SpecHit {
    let p = t.inner_plane;
    if pl_hits(p, r) && p.inverse is Some && bounded(
        ipc_w(p, pl_pt(p, r)),
        crate::objects::plane::W_RANGE as int,
    ) && tri_contains(ipc_w(p, pl_pt(p, r))) {
        SpecHit { colour: t.colour@, ..plane_spec(p, r) }
    } else {
        miss_hit()
    }
}

/// A point exactly on the triangle's diagonal edge (`i + j == 1`) is
/// excluded: the bound is strict.
pub proof fn lemma_triangle_edge_excluded(v: V3)
    requires
        v.x + v.y == ONE as int,
    ensures
        !tri_contains(v),
{
}

/// A point outside the unit interval on either axis is excluded.
pub proof fn lemma_triangle_outside_excluded(v: V3)
    requires
        v.x <= 0 || v.x >= ONE as int || v.y <= 0 || v.y >= ONE as int,
    ensures
        !tri_contains(v),
{
}

/// The centroid is included.
pub proof fn lemma_triangle_centroid_included(v: V3)
    requires
        v.x == ONE as int / 3,
        v.y == ONE as int / 3,
    ensures
        tri_contains(v),
{
}

impl Triangle {
    /// The triangle over `a`, `b`, `c`, shown in the given colour.
    pub fn from_3_points(a: &Vec3, b: &Vec3, c: &Vec3, colour: Colour) -> (t: Triangle)
        requires
            bounded(a@, MAX_COORD as int),
            bounded(b@, MAX_COORD as int),
            bounded(c@, MAX_COORD as int),
        ensures
            t.inner_plane == plane_of(a@, b@, c@, crate::surfaces::default_specular()),
            t.colour == colour,
            cwf(colour@) ==> triangle_wf(t),
    {
        Triangle { inner_plane: Plane::from_3_points(a, b, c), colour }
    }

    /// The triangle over `a`, `b`, `c`, whose plane carries the given
    /// surface; shown black.
    pub fn from_3_points_and_surface(a: &Vec3, b: &Vec3, c: &Vec3, surface: Surface) -> (t: Triangle)
        requires
            bounded(a@, MAX_COORD as int),
            bounded(b@, MAX_COORD as int),
            bounded(c@, MAX_COORD as int),
        ensures
            t.inner_plane == plane_of(a@, b@, c@, surface),
            t.colour@ == crate::colour::sc_gray(0),
            surface_wf(surface) ==> triangle_wf(t),
    {
        Triangle {
            inner_plane: Plane::from_3_points_and_surface(a, b, c, surface),
            colour: Colour::black(),
        }
    }

    /// Test a ray against this triangle.
    pub fn test_intersection(&self, ray: &Ray, incoming: Colour) -> (res: TestIntersectionResult)
        requires
            triangle_wf(*self),
            ray_bounded(ray@, MAX_POS as int, MAX_DIR as int),
        ensures
            matches_hit(res, triangle_spec(*self, ray@)),
            tir_wf(res, MAX_POS as int),
    {
        let ghost rr = ray@;
        let found = self.inner_plane.test_intersection(ray, incoming);
        let mut potential = found.0;
        let surface = found.1;
        if let Some(t) = potential.distance {
            proof {
                crate::fixed::lemma_mul_bound(rr.direction.x, pl_t(self.inner_plane, rr), MAX_DIR as int, crate::objects::plane::T_RANGE as int);
                crate::fixed::lemma_mul_bound(rr.direction.y, pl_t(self.inner_plane, rr), MAX_DIR as int, crate::objects::plane::T_RANGE as int);
                crate::fixed::lemma_mul_bound(rr.direction.z, pl_t(self.inner_plane, rr), MAX_DIR as int, crate::objects::plane::T_RANGE as int);
            }
            let point = ray.at_point(t);
            let plane_coords = self.inner_plane.in_plane_coords(&point);
            if let Some(v) = plane_coords {
                let sum = v.x + v.y;
                if sum > 0 && sum < ONE && v.x > 0 && v.x < ONE && v.y > 0 && v.y < ONE {
                    potential.colour = self.colour;
                    return TestIntersectionResult(potential, surface);
                }
            }
        }
        TestIntersectionResult(Intersection::new(Colour::black(), None, None), None)
    }
}

} // verus!
