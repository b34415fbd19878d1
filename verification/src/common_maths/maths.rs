//! Rescaling and reflection, shared by the surface models.

use vstd::prelude::*;

use crate::renderer::{Ray, R3};
use crate::vec3::{bounded, sv_add, sv_is_zero, sv_normalize, V3, Vec3};

verus! {

/// The vector rescaled to unit length.
pub fn normalise_vec3(input: &Vec3) -> (r: Vec3)
    requires
        bounded(input@, 2_000_000_000_000_000),
        !sv_is_zero(input@),
    ensures
        r@ == sv_normalize(input@),
{
    input.normalize()
}

/// The incoming direction doubled along the surface normal: the mirror
/// bounce, with the raw magnitude kept.
pub open spec fn reflected_dir(normal: R3, incoming: R3) -> V3 {
    sv_add(
        incoming.direction,
        V3 {
            x: 2 * normal.direction.x,
            y: 2 * normal.direction.y,
            z: 2 * normal.direction.z,
        },
    )
}

/// The mirror bounce of `incoming` about `normal`, leaving from the
/// normal's origin with its magnitude preserved.
pub fn reflected_ray(normal: &Ray, incoming: &Ray) -> (r: Ray)
    requires
        bounded(normal@.direction, 1_000_000_000_000_000_000),
        bounded(incoming@.direction, 1_000_000_000_000_000_000),
    ensures
        r@.origin == normal@.origin,
        r@.direction == reflected_dir(normal@, incoming@),
{
    let doubled = Vec3::new(
        2 * normal.direction.x,
        2 * normal.direction.y,
        2 * normal.direction.z,
    );
    let reflected_direction = incoming.direction.add(&doubled);
    Ray::new_preserve(normal.origin, reflected_direction)
}

} // verus!
