use core::cmp::Ordering;

use raytracer::colour::Colour;
use raytracer::fixed::{isqrt_u128, ONE};
use raytracer::intersect::{dist_le_check, Intersection};
use raytracer::objects::light::PointLight;
use raytracer::objects::sphere::Sphere;
use raytracer::objects::triangle::Triangle;
use raytracer::objects::world_light::WorldLight;
use raytracer::renderer::{many_spheres, Ray};
use raytracer::surfaces::diffuse::{kernel_fx, Diffuse};
use raytracer::surfaces::Surface;
use raytracer::vec3::Vec3;

#[test]
fn isqrt_small_values() {
    assert_eq!(isqrt_u128(0), 0);
    assert_eq!(isqrt_u128(1), 1);
    assert_eq!(isqrt_u128(10), 3);
    assert_eq!(isqrt_u128(16), 4);
    assert_eq!(isqrt_u128(1_000_000_000_000), 1_000_000);
    assert_eq!(isqrt_u128(u64::MAX as u128), 4_294_967_295);
}

#[test]
fn vector_operations_exact() {
    let a = Vec3::new(3 * ONE, 4 * ONE, 0);
    assert_eq!(a.norm(), 5 * ONE);
    // P1 scenario: the normalized form has unit length.
    let unit = a.normalize();
    assert_eq!(unit, Vec3::new(600_000, 800_000, 0));
    assert_eq!(unit.norm(), ONE);
    let b = Vec3::new(ONE, 0, 0);
    assert_eq!(a.dot_fx(&b), 3 * ONE);
    let c = Vec3::new(0, ONE, 0);
    assert_eq!(b.cross_fx(&c), Vec3::new(0, 0, ONE));
}

#[test]
fn ray_normalizes_direction() {
    let r = Ray::new(Vec3::new(0, 0, 0), Vec3::new(0, 0, 7 * ONE));
    assert_eq!(r.direction, Vec3::new(0, 0, ONE));
    let kept = Ray::new_preserve(Vec3::new(0, 0, 0), Vec3::new(0, 0, 7 * ONE));
    assert_eq!(kept.direction, Vec3::new(0, 0, 7 * ONE));
    assert_eq!(r.at_point(2 * ONE), Vec3::new(0, 0, 2 * ONE));
}

#[test]
fn ordering_ranks_hits_before_misses() {
    // P2 scenario: present distances ascending, any hit before a miss, two
    // misses of equal rank.
    let black = Colour::black();
    let near = Intersection::new(black, Some(ONE), None);
    let far = Intersection::new(black, Some(5 * ONE), None);
    let miss = Intersection::new(black, None, None);
    assert_eq!(near.partial_cmp(&far), Some(Ordering::Less));
    assert_eq!(far.partial_cmp(&near), Some(Ordering::Greater));
    assert_eq!(near.partial_cmp(&near), Some(Ordering::Equal));
    assert_eq!(near.partial_cmp(&miss), Some(Ordering::Less));
    assert_eq!(miss.partial_cmp(&near), Some(Ordering::Greater));
    assert_eq!(miss.partial_cmp(&miss), Some(Ordering::Equal));
    assert!(near < far);
    assert!(near < miss);
    assert!(dist_le_check(Some(ONE), None));
    assert!(!dist_le_check(None, Some(i64::MAX)));
}

#[test]
fn sphere_head_on_hit() {
    // P3 scenario: a ray aimed at the centre from outside hits at the
    // centre distance minus the radius, with the normal pointing back.
    let sphere = Sphere::blank_specular_surface(Vec3::new(3 * ONE, 0, 0), ONE);
    let ray = Ray::new(Vec3::new(0, 0, 0), Vec3::new(ONE, 0, 0));
    let res = sphere.test_intersection(&ray, Colour::from_gray(ONE));
    assert_eq!(res.0.distance, Some(2 * ONE));
    let normal = res.0.normal.unwrap();
    assert_eq!(normal.origin, Vec3::new(2 * ONE, 0, 0));
    assert_eq!(normal.direction, Vec3::new(-ONE, 0, 0));
    assert_eq!(res.0.colour, Colour::from_gray(100_000));
}

#[test]
fn sphere_behind_misses() {
    let sphere = Sphere::blank_specular_surface(Vec3::new(-3 * ONE, 0, 0), ONE);
    let ray = Ray::new(Vec3::new(0, 0, 0), Vec3::new(ONE, 0, 0));
    let res = sphere.test_intersection(&ray, Colour::from_gray(ONE));
    assert_eq!(res.0.distance, None);
    assert!(res.0.normal.is_none());
    assert!(res.1.is_none());
}

#[test]
fn triangle_containment_boundaries() {
    // P4 scenario: centroid in, edge (`i + j == 1`) out, outside out.
    let a = Vec3::new(0, 0, ONE);
    let b = Vec3::new(ONE, 0, ONE);
    let c = Vec3::new(0, ONE, ONE);
    let red = Colour::from_rgb(ONE, 0, 0);
    let tri = Triangle::from_3_points(&a, &b, &c, red);
    let up = Vec3::new(0, 0, ONE);

    let centroid_ray = Ray::new(Vec3::new(333_333, 333_333, 0), up);
    let hit = tri.test_intersection(&centroid_ray, Colour::from_gray(ONE));
    assert_eq!(hit.0.distance, Some(ONE));
    assert_eq!(hit.0.colour, red);

    let edge_ray = Ray::new(Vec3::new(500_000, 500_000, 0), up);
    let edge = tri.test_intersection(&edge_ray, Colour::from_gray(ONE));
    assert_eq!(edge.0.distance, None);

    let outside_ray = Ray::new(Vec3::new(3 * ONE, 200_000, 0), up);
    let outside = tri.test_intersection(&outside_ray, Colour::from_gray(ONE));
    assert_eq!(outside.0.distance, None);

    let negative_ray = Ray::new(Vec3::new(-200_000, 200_000, 0), up);
    let negative = tri.test_intersection(&negative_ray, Colour::from_gray(ONE));
    assert_eq!(negative.0.distance, None);
}

#[test]
fn point_light_catches_near_rays() {
    let light = PointLight::new(Vec3::new(5 * ONE, 0, 0), ONE);
    let ray = Ray::new(Vec3::new(0, 0, 0), Vec3::new(ONE, 0, 0));
    let res = light.test_intersection(&ray, Colour::black());
    assert_eq!(res.0.distance, Some(5 * ONE));
    assert_eq!(res.0.colour, Colour::from_gray(ONE));
    assert!(res.0.normal.is_none());

    let wide = Ray::new(Vec3::new(0, 0, 0), Vec3::new(0, ONE, 0));
    let missed = light.test_intersection(&wide, Colour::black());
    assert_eq!(missed.0.distance, None);
}

#[test]
fn world_light_is_farthest_sentinel() {
    let w = WorldLight {};
    let up = Ray::new(Vec3::new(0, 0, 0), Vec3::new(0, 0, ONE));
    let res = w.test_intersection(&up, Colour::black());
    assert_eq!(res.0.distance, Some(i64::MAX));
    assert_eq!(res.0.colour, Colour::from_gray(200_000));
    let level = Ray::new(Vec3::new(0, 0, 0), Vec3::new(ONE, 0, 0));
    let level_res = w.test_intersection(&level, Colour::black());
    assert_eq!(level_res.0.colour, Colour::from_gray(100_000));
}

#[test]
fn kernel_falls_from_one_to_zero() {
    assert_eq!(kernel_fx(0), ONE);
    assert_eq!(kernel_fx(500_000), 500_000);
    assert_eq!(kernel_fx(ONE - 1), 0);
    for u in [1, 250_000, 750_000, 999_998] {
        let k = kernel_fx(u);
        assert!(0 <= k && k <= ONE);
    }
}

#[test]
fn kernel_scales_the_jitter() {
    // A zero draw has kernel one: the jitter leaves the direction unchanged.
    let v = Vec3::new(2 * ONE, -2 * ONE, ONE);
    let identity = Diffuse::rotate_vector(&v, kernel_fx(0), kernel_fx(0), kernel_fx(0));
    assert_eq!(identity, v);
    // A half draw has kernel one half; rescaling restores the length, so a
    // single-axis vector comes back unchanged too.
    let axis = Vec3::new(2 * ONE, 0, 0);
    let halved = Diffuse::rotate_vector(&axis, kernel_fx(500_000), kernel_fx(500_000), kernel_fx(500_000));
    assert_eq!(halved, axis);
}

#[test]
fn jitter_never_flips_an_axis() {
    let v = Vec3::new(2 * ONE, -2 * ONE, ONE);
    let out = Diffuse::rotate_vector(
        &v,
        kernel_fx(250_000),
        kernel_fx(750_000),
        kernel_fx(100_000),
    );
    assert!(out.x >= 0);
    assert!(out.y <= 0);
    assert!(out.z >= 0);
}

#[test]
fn diffuse_requests_jittered_samples() {
    let surface = Surface::Diffuse(Diffuse::new(Colour::from_gray(500_000), 8));
    let normal = Ray::new(Vec3::new(2 * ONE, 0, 0), Vec3::new(-ONE, 0, 0));
    let incoming = Ray::new(Vec3::new(0, 0, 0), Vec3::new(ONE, 0, 0));
    let rays = surface.request_rays(&normal, &incoming);
    assert_eq!(rays.len(), 8);
    for r in &rays {
        assert_eq!(r.origin, Vec3::new(2 * ONE, 0, 0));
        // Jittered directions are renormalized (or kept when degenerate):
        // components never exceed one unit.
        assert!(r.direction.x.abs() <= ONE);
        assert!(r.direction.y.abs() <= ONE);
        assert!(r.direction.z.abs() <= ONE);
    }
}

#[test]
fn specular_requests_single_mirror_bounce() {
    let surface = Surface::Specular(raytracer::surfaces::specular::Specular::new());
    let normal = Ray::new(Vec3::new(2 * ONE, 0, 0), Vec3::new(-ONE, 0, 0));
    let incoming = Ray::new(Vec3::new(0, 0, 0), Vec3::new(ONE, 0, 0));
    let rays = surface.request_rays(&normal, &incoming);
    assert_eq!(rays.len(), 1);
    assert_eq!(rays[0].origin, Vec3::new(2 * ONE, 0, 0));
    assert_eq!(rays[0].direction, Vec3::new(-ONE, 0, 0));
}

#[test]
fn face_demo_misses_give_brightened_background() {
    let c = many_spheres(0, 0);
    assert_eq!(c, Colour::from_gray(800_000));
}

#[test]
fn face_demo_hits_give_sphere_colour() {
    // Aimed at the sphere straight ahead and slightly down.
    let c = many_spheres(-266_667, 0);
    assert_eq!(c, Colour::from_gray(100_000));
}
