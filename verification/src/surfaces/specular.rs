//! The mirror surface.

use vstd::prelude::*;

use crate::colour::{cwf, sc_add, sc_gray, sc_scale_fx, Colour};
use crate::fixed::ONE;
use crate::intersect::TestIntersectionResult;
use crate::renderer::Ray;

verus! {

/// A perfect mirror with its own tint.
#[derive(Clone, Copy, Debug, PartialEq, Eq, Structural)]
pub struct Specular {
    pub colour: Colour,
}

impl Specular {
    /// A mirror of the default neutral tint (a dark grey).
    pub fn new() -> (s: Specular)
        ensures
            s.colour@ == sc_gray(ONE as int / 10),
    {
        Specular { colour: Colour::from_gray(ONE / 10) }
    }

    pub fn with_colour(colour: Colour) -> (s: Specular)
        ensures
            s.colour == colour,
    {
        Specular { colour }
    }

    /// The mirror's contribution to a hit: its own colour.
    pub fn get_value(&self, _incoming: Colour) -> (c: Colour)
        ensures
            c == self.colour,
    {
        self.colour
    }

    /// The single mirror bounce this surface asks the engine to follow.
    pub fn request_rays(&self, normal_ray: &Ray, incoming_ray: &Ray) -> (rays: Vec<Ray>)
        requires
            crate::vec3::bounded(normal_ray@.direction, ONE as int),
            crate::vec3::bounded(incoming_ray@.direction, 1_998_000_000),
        ensures
            rays@.len() == 1,
            rays@[0]@.origin == normal_ray@.origin,
            rays@[0]@.direction == crate::common_maths::maths::reflected_dir(
                normal_ray@,
                incoming_ray@,
            ),
    {
        let v = vec![crate::common_maths::maths::reflected_ray(normal_ray, incoming_ray)];
        v
    }

    /// Fold the recursive results back into one shade: the single bounce's
    /// colour and the mirror's own, at equal weight.
    pub fn intersections_to_colour(&self, rays: Vec<TestIntersectionResult>) -> (c: Colour)
        requires
            rays@.len() >= 1,
            cwf(self.colour@),
            cwf(rays@[0].0.colour@),
        ensures
            c@ == sc_add(
                sc_scale_fx(rays@[0].0.colour@, 500_000),
                sc_scale_fx(self.colour@, 500_000),
            ),
            cwf(c@),
    {
        proof {
            crate::colour::lemma_scale_half_wf(rays@[0].0.colour@);
            crate::colour::lemma_scale_half_wf(self.colour@);
        }
        let bounced = rays[0].0.colour.multiply(500_000);
        let own = self.colour.multiply(500_000);
        bounced.add(&own)
    }
}

} // verus!
