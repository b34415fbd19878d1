//! The geometric primitives a scene is made of.

use vstd::prelude::*;

pub mod light;
pub mod plane;
pub mod quad;
pub mod sphere;
pub mod triangle;
pub mod world_light;

use crate::colour::Colour;
use crate::intersect::{matches_hit, tir_wf, SpecHit, TestIntersectionResult};
use crate::renderer::{ray_bounded, R3, Ray};

verus! {

/// Scene geometry (centres, corners, radii, light reach) stays within this
/// many quanta per component: a thousand world units.
pub const MAX_COORD: i64 = 1_000_000_000;

/// Ray origins stay within this many quanta per component; every bounce ray
/// a primitive emits satisfies it again.
pub const MAX_POS: i64 = 100_000_000_000_000;

/// Ray directions stay within this many quanta per component, with room for
/// the growth a mirror bounce adds at each depth.
pub const MAX_DIR: i64 = 2_000_000_000;

/// A ray the engine is willing to trace.
pub open spec fn ray_wf(r: R3) -> bool {
    ray_bounded(r, MAX_POS as int, MAX_DIR as int)
}

/// One of the closed set of primitives.
#[derive(Clone, Copy, Debug, PartialEq)]
pub enum Primitive {
    Sphere(sphere::Sphere),
    Plane(plane::Plane),
    Triangle(triangle::Triangle),
    Quad(quad::Quad),
    PointLight(light::PointLight),
    WorldLight(world_light::WorldLight),
}

/// Geometry within bounds and a well-formed surface, for each variant.
pub open spec fn primitive_wf(p: Primitive) -> bool {
    match p {
        Primitive::Sphere(s) => sphere::sphere_wf(s),
        Primitive::Plane(pl) => plane::plane_wf(pl),
        Primitive::Triangle(t) => triangle::triangle_wf(t),
        Primitive::Quad(q) => quad::quad_wf(q),
        Primitive::PointLight(l) => light::light_wf(l),
        Primitive::WorldLight(w) => true,
    }
}

/// The model outcome of testing a ray against a primitive.
pub open spec fn primitive_spec(p: Primitive, r: R3, incoming: crate::colour::C3) -> SpecHit {
    match p {
        Primitive::Sphere(s) => sphere::sphere_spec(s, r, incoming),
        Primitive::Plane(pl) => plane::plane_spec(pl, r),
        Primitive::Triangle(t) => triangle::triangle_spec(t, r),
        Primitive::Quad(q) => quad::quad_spec(q, r),
        Primitive::PointLight(l) => light::light_spec(l, r),
        Primitive::WorldLight(w) => world_light::world_light_spec(r),
    }
}

impl Primitive {
    /// Test a ray against this primitive; the report is exactly the model
    /// outcome `primitive_spec`.
    pub fn test_intersection(&self, ray: &Ray, incoming: Colour) -> (res: TestIntersectionResult)
        requires
            primitive_wf(*self),
            ray_wf(ray@),
        ensures
            matches_hit(res, primitive_spec(*self, ray@, incoming@)),
            tir_wf(res, MAX_POS as int),
    {
        match self {
            Primitive::Sphere(s) => s.test_intersection(ray, incoming),
            Primitive::Plane(pl) => pl.test_intersection(ray, incoming),
            Primitive::Triangle(t) => t.test_intersection(ray, incoming),
            Primitive::Quad(q) => q.test_intersection(ray, incoming),
            Primitive::PointLight(l) => l.test_intersection(ray, incoming),
            Primitive::WorldLight(w) => w.test_intersection(ray, incoming),
        }
    }
}

} // verus!
