//! Surface models: how a primitive shades a hit and continues a light path.
//!
//! A surface is pure behaviour attached to a primitive at construction: a
//! closed set of variants, dispatched by matching.

use vstd::prelude::*;

use crate::colour::{cwf, sc_add, sc_scale_fx, C3, Colour};
use crate::common_maths::maths::reflected_dir;
use crate::fixed::ONE;
use crate::intersect::TestIntersectionResult;
use crate::renderer::{R3, Ray};
use crate::vec3::bounded;

pub mod diffuse;
pub mod specular;

use diffuse::{diffuse_fold, diffuse_ray_ok, Diffuse};
use specular::Specular;

verus! {

/// The surface models a primitive can carry.
#[derive(Clone, Copy, Debug, PartialEq, Eq, Structural)]
pub enum Surface {
    Specular(Specular),
    Diffuse(Diffuse),
}

/// The colour a surface reports for a hit (its own colour; the incoming
/// colour does not alter it for either model).
pub open spec fn s_get_value(s: Surface, incoming: C3) -> C3 {
    match s {
        Surface::Specular(sp) => sp.colour@,
        Surface::Diffuse(d) => d.colour@,
    }
}

/// Well-formed surface: colour components in `[0, ONE]`, and a diffuse
/// sample count that is positive and small enough to average safely.
pub open spec fn surface_wf(s: Surface) -> bool {
    match s {
        Surface::Specular(sp) => crate::colour::cwf(sp.colour@),
        Surface::Diffuse(d) => crate::colour::cwf(d.colour@) && 1 <= d.samples <= 1000,
    }
}

/// The default mirror surface, used wherever none is named.
pub open spec fn default_specular() -> Surface {
    Surface::Specular(Specular { colour: Colour { r: 100_000, g: 100_000, b: 100_000 } })
}

/// The bounce rays a surface may request after a hit: exactly the mirror
/// bounce for a mirror; `samples` jittered copies of it for a matte surface.
pub open spec fn request_rays_rel(s: Surface, normal: R3, incoming: R3, rays: Seq<Ray>) -> bool {
    match s {
        Surface::Specular(_) => {
            &&& rays.len() == 1
            &&& rays[0]@.origin == normal.origin
            &&& rays[0]@.direction == reflected_dir(normal, incoming)
        },
        Surface::Diffuse(d) => {
            &&& rays.len() == d.samples
            &&& forall|i: int| 0 <= i < rays.len() ==> diffuse_ray_ok(normal, incoming, #[trigger] rays[i])
        },
    }
}

/// What a surface folds the recursive results into: for a mirror, the single
/// bounce blended half-and-half with its own colour; for a matte surface,
/// the average of the bounces at half weight plus its own colour at half.
pub open spec fn fold_spec(s: Surface, cols: Seq<C3>) -> C3 {
    match s {
        Surface::Specular(sp) => sc_add(
            sc_scale_fx(cols[0], 500_000),
            sc_scale_fx(sp.colour@, 500_000),
        ),
        Surface::Diffuse(d) => diffuse_fold(d.colour@, cols),
    }
}

impl Surface {
    /// The colour contribution of a hit on this surface.
    pub fn get_value(&self, incoming: Colour) -> (c: Colour)
        ensures
            c@ == s_get_value(*self, incoming@),
    {
        match self {
            Surface::Specular(sp) => sp.get_value(incoming),
            Surface::Diffuse(d) => d.get_value(incoming),
        }
    }

    /// How many and which outgoing rays to follow after a hit on this
    /// surface.
    pub fn request_rays(&self, normal_ray: &Ray, incoming_ray: &Ray) -> (rays: Vec<Ray>)
        requires
            surface_wf(*self),
            bounded(normal_ray@.direction, ONE as int),
            bounded(incoming_ray@.direction, 1_998_000_000),
        ensures
            request_rays_rel(*self, normal_ray@, incoming_ray@, rays@),
            1 <= rays@.len() <= 1000,
    {
        match self {
            Surface::Specular(sp) => sp.request_rays(normal_ray, incoming_ray),
            Surface::Diffuse(d) => d.request_rays(normal_ray, incoming_ray),
        }
    }

    /// Fold the recursive results of the requested rays back into a single
    /// shaded colour.
    pub fn intersections_to_colour(&self, rays: Vec<TestIntersectionResult>) -> (c: Colour)
        requires
            surface_wf(*self),
            rays@.len() <= 1_000_000,
            self is Specular ==> rays@.len() >= 1,
            forall|i: int| 0 <= i < rays@.len() ==> cwf(#[trigger] rays@[i].0.colour@),
        ensures
            c@ == fold_spec(*self, rays@.map_values(|t: TestIntersectionResult| t.0.colour@)),
            cwf(c@),
    {
        match self {
            Surface::Specular(sp) => {
                proof {
                    assert(rays@.map_values(|t: TestIntersectionResult| t.0.colour@)[0]
                        == rays@[0].0.colour@);
                }
                sp.intersections_to_colour(rays)
            },
            Surface::Diffuse(d) => d.intersections_to_colour(rays),
        }
    }
}

} // verus!
