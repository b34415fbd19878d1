//! Rays: the unit of work the renderer traces through a scene.

use vstd::prelude::*;

use crate::colour::{sc_add, sc_gray, Colour};
use crate::fixed::{iabs, ONE};
use crate::intersect::{matches_hit, min_hit_idx, SpecHit};
use crate::objects::sphere::{sphere_spec, Sphere};
use crate::vec3::{bounded, sv_add, sv_is_zero, sv_normalize, sv_scale_fx, V3, Vec3};

verus! {

/// Spec-level ray.
pub ghost struct R3 {
    pub origin: V3,
    pub direction: V3,
}

/// An origin and a direction. `new` rescales the direction to unit length;
/// `new_preserve` keeps it as given.
#[derive(Clone, Copy, Debug, PartialEq, Eq, Structural)]
pub struct Ray {
    pub origin: Vec3,
    pub direction: Vec3,
}

impl View for Ray {
    type V = R3;

    open spec fn view(&self) -> R3 {
        R3 { origin: self.origin@, direction: self.direction@ }
    }
}

/// The point `origin + direction * t`, for a fixed-point parameter `t`.
pub open spec fn sr_at_point(r: R3, t: int) -> V3 {
    sv_add(r.origin, sv_scale_fx(r.direction, t))
}

/// Bounds on a ray's components: origins within `mo`, directions within `md`.
pub open spec fn ray_bounded(r: R3, mo: int, md: int) -> bool {
    bounded(r.origin, mo) && bounded(r.direction, md)
}

impl Ray {
    /// A ray whose direction is rescaled to unit length at construction.
    /// The caller must avoid a zero-length direction.
    pub fn new(origin: Vec3, direction: Vec3) -> (r: Ray)
        requires
            bounded(direction@, 2_000_000_000_000_000),
            !sv_is_zero(direction@),
        ensures
            r@.origin == origin@,
            r@.direction == sv_normalize(direction@),
            bounded(r@.direction, ONE as int),
    {
        Ray { origin, direction: direction.normalize() }
    }

    /// A ray whose direction keeps its raw magnitude.
    pub fn new_preserve(origin: Vec3, direction: Vec3) -> (r: Ray)
        ensures
            r@.origin == origin@,
            r@.direction == direction@,
    {
        Ray { origin, direction }
    }

    /// The point `origin + direction * t`.
    pub fn at_point(&self, t: i64) -> (p: Vec3)
        requires
            bounded(self@.origin, 0x1000_0000_0000_0000),
            iabs(self@.direction.x * t) <= 0x1000_0000_0000_0000 * (ONE as int),
            iabs(self@.direction.y * t) <= 0x1000_0000_0000_0000 * (ONE as int),
            iabs(self@.direction.z * t) <= 0x1000_0000_0000_0000 * (ONE as int),
        ensures
            p@ == sr_at_point(self@, t as int),
    {
        proof {
            crate::fixed::lemma_tdiv_bound(self@.direction.x * t, ONE as int, 0x1000_0000_0000_0000);
            crate::fixed::lemma_tdiv_bound(self@.direction.y * t, ONE as int, 0x1000_0000_0000_0000);
            crate::fixed::lemma_tdiv_bound(self@.direction.z * t, ONE as int, 0x1000_0000_0000_0000);
        }
        let scaled = self.direction.scale_fx(t);
        self.origin.add(&scaled)
    }
}

/// The nine mirror spheres of the little demo face.
pub open spec fn face_spheres() -> Seq<Sphere> {
    seq![
        sphere_at(3_000_000, 1_500_000, 3_000_000, 750_000),
        sphere_at(3_000_000, -1_500_000i64, 3_000_000, 750_000),
        sphere_at(3_000_000, -3_000_000i64, 0, 500_000),
        sphere_at(3_000_000, 3_000_000, 0, 500_000),
        sphere_at(3_000_000, 2_000_000, -1_000_000i64, 500_000),
        sphere_at(3_000_000, -2_000_000i64, -1_000_000i64, 500_000),
        sphere_at(3_000_000, -1_000_000i64, -1_000_000i64, 500_000),
        sphere_at(3_000_000, 1_000_000, -1_000_000i64, 500_000),
        sphere_at(3_000_000, 0, -1_000_000i64, 500_000),
    ]
}

/// A blank mirror sphere, as a spec value.
pub open spec fn sphere_at(x: i64, y: i64, z: i64, radius: i64) -> Sphere {
    Sphere {
        origin: Vec3 { x, y, z },
        radius,
        surface: crate::surfaces::Surface::Specular(
            crate::surfaces::specular::Specular {
                colour: crate::colour::Colour { r: 100_000, g: 100_000, b: 100_000 },
            },
        ),
    }
}

/// The ray the demo casts for screen offsets `(x, y)`.
pub open spec fn face_ray(x: int, y: int) -> R3 {
    R3 {
        origin: V3 { x: 0, y: 0, z: 0 },
        direction: sv_normalize(V3 { x: 500_000, y: y, z: x + 100_000 }),
    }
}

/// What each sphere of the face reports for that ray.
pub open spec fn face_results(x: int, y: int) -> Seq<SpecHit> {
    Seq::new(9, |i: int| sphere_spec(face_spheres()[i], face_ray(x, y), sc_gray(ONE as int)))
}

/// The little smiley face: one ray against nine mirror spheres, shaded with
/// the nearest hit's colour, brightened when nothing was hit.
pub fn many_spheres(x: i64, y: i64) -> (c: Colour)
    requires
        iabs(x as int) <= 1_000_000_000,
        iabs(y as int) <= 1_000_000_000,
    ensures
        ({
            let w = face_results(x as int, y as int)[min_hit_idx(face_results(x as int, y as int))];
            c@ == if w.normal is Some {
                w.colour
            } else {
                sc_add(w.colour, sc_gray(800_000))
            }
        }),
{
    let ghost hits = face_results(x as int, y as int);
    let mut objects: Vec<Sphere> = Vec::new();
    objects.push(Sphere::blank_specular_surface(Vec3::new(3_000_000, 1_500_000, 3_000_000), 750_000));
    objects.push(Sphere::blank_specular_surface(Vec3::new(3_000_000, -1_500_000, 3_000_000), 750_000));
    objects.push(Sphere::blank_specular_surface(Vec3::new(3_000_000, -3_000_000, 0), 500_000));
    objects.push(Sphere::blank_specular_surface(Vec3::new(3_000_000, 3_000_000, 0), 500_000));
    objects.push(Sphere::blank_specular_surface(Vec3::new(3_000_000, 2_000_000, -1_000_000), 500_000));
    objects.push(Sphere::blank_specular_surface(Vec3::new(3_000_000, -2_000_000, -1_000_000), 500_000));
    objects.push(Sphere::blank_specular_surface(Vec3::new(3_000_000, -1_000_000, -1_000_000), 500_000));
    objects.push(Sphere::blank_specular_surface(Vec3::new(3_000_000, 1_000_000, -1_000_000), 500_000));
    objects.push(Sphere::blank_specular_surface(Vec3::new(3_000_000, 0, -1_000_000), 500_000));
    proof {
        assert(objects@ =~= face_spheres());
    }
    let direction = Vec3::new(500_000, y, x + 100_000);
    let origin = Vec3::new(0, 0, 0);
    let pixel_ray = Ray::new(origin, direction);
    let mut unsorted: Vec<crate::intersect::Intersection> = Vec::new();
    let mut i: usize = 0;
    while i < 9
        invariant
            0 <= i <= 9,
            objects@ == face_spheres(),
            unsorted@.len() == i,
            pixel_ray@ == face_ray(x as int, y as int),
            ray_bounded(pixel_ray@, 100_000_000_000_000, 2_000_000_000),
            hits == face_results(x as int, y as int),
            iabs(x as int) <= 1_000_000_000,
            iabs(y as int) <= 1_000_000_000,
            forall|j: int|
                0 <= j < i ==> matches_hit(
                    crate::intersect::TestIntersectionResult(#[trigger] unsorted@[j], None),
                    SpecHit { surface: None, ..hits[j] },
                ),
        decreases 9 - i,
    {
        proof {
            assert(crate::objects::sphere::sphere_wf(objects@[i as int]));
        }
        let t = objects[i].test_intersection(&pixel_ray, Colour::from_gray(ONE));
        unsorted.push(t.0);
        i = i + 1;
    }
    let mut best = unsorted[0];
    let ghost mut bi: int = 0;
    proof {
        assert(hits.take(1).len() == 1);
        assert(min_hit_idx(hits.take(1)) == 0);
        assert(hits.take(1)[0] == hits[0]);
    }
    let mut k: usize = 1;
    while k < 9
        invariant
            unsorted@.len() == 9,
            hits.len() == 9,
            1 <= k <= 9,
            0 <= bi < k,
            bi == min_hit_idx(hits.take(k as int)),
            matches_hit(
                crate::intersect::TestIntersectionResult(best, None),
                SpecHit { surface: None, ..hits[bi] },
            ),
            forall|j: int|
                0 <= j < 9 ==> matches_hit(
                    crate::intersect::TestIntersectionResult(#[trigger] unsorted@[j], None),
                    SpecHit { surface: None, ..hits[j] },
                ),
        decreases 9 - k,
    {
        proof {
            assert(hits.take(k as int + 1).drop_last() =~= hits.take(k as int));
            assert(hits.take(k as int + 1).last() == hits[k as int]);
            assert(hits.take(k as int)[bi] == hits[bi]);
        }
        if crate::intersect::dist_le_check(unsorted[k].distance, best.distance) {
            best = unsorted[k];
            proof {
                bi = k as int;
            }
        }
        k = k + 1;
    }
    proof {
        assert(hits.take(9) =~= hits);
    }
    if best.normal.is_some() {
        best.colour
    } else {
        best.colour.add(&Colour::from_gray(800_000))
    }
}

} // verus!
