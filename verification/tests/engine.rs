use raytracer::camera::Camera;
use raytracer::colour::Colour;
use raytracer::fixed::ONE;
use raytracer::objects::light::PointLight;
use raytracer::objects::plane::Plane;
use raytracer::objects::sphere::Sphere;
use raytracer::objects::world_light::WorldLight;
use raytracer::objects::Primitive;
use raytracer::renderer::Ray;
use raytracer::scene::Scene;
use raytracer::surfaces::specular::Specular;
use raytracer::surfaces::Surface;
use raytracer::vec3::Vec3;

fn grey_sphere_and_background() -> Scene {
    let objects = vec![
        Primitive::Sphere(Sphere::blank_specular_surface(Vec3::new(3 * ONE, 0, 0), ONE)),
        Primitive::WorldLight(WorldLight {}),
    ];
    Scene::new(objects, 1)
}

#[test]
fn single_sphere_blends_background() {
    // P6 scenario: sphere at (3,0,0), radius one, specular grey(0.1); camera
    // ray from the origin along x. The hit lands at distance 2 and the
    // colour folds the level background grey(0.1) into the specular blend:
    // 0.5 * 0.1 + 0.5 * 0.1 = 0.1.
    let scene = grey_sphere_and_background();
    let ray = Ray::new(Vec3::new(0, 0, 0), Vec3::new(ONE, 0, 0));
    let res = scene.test_intersections(ray, 0);
    assert_eq!(res.0.distance, Some(2 * ONE));
    assert_eq!(res.0.colour, Colour::from_gray(100_000));
    assert!(res.0.normal.is_some());
    assert!(res.1.is_some());
}

#[test]
fn exhausted_depth_returns_surface_value() {
    let scene = grey_sphere_and_background();
    let ray = Ray::new(Vec3::new(0, 0, 0), Vec3::new(ONE, 0, 0));
    // At the depth bound no bounce is followed: the sphere's own value.
    let res = scene.test_intersections(ray, 1);
    assert_eq!(res.0.colour, Colour::from_gray(100_000));
    assert_eq!(res.0.distance, Some(2 * ONE));
}

#[test]
fn missed_scene_returns_background() {
    let scene = grey_sphere_and_background();
    let ray = Ray::new(Vec3::new(0, 0, 0), Vec3::new(0, 0, ONE));
    let res = scene.test_intersections(ray, 0);
    assert_eq!(res.0.distance, Some(i64::MAX));
    assert_eq!(res.0.colour, Colour::from_gray(200_000));
}

#[test]
fn facing_mirrors_terminate_at_depth_bound() {
    // P5 scenario: two parallel mirrors facing each other; the render must
    // come back once the depth budget runs out.
    let m = 10 * ONE;
    let left = Plane::from_3_points_and_surface(
        &Vec3::new(-m, -m, -m),
        &Vec3::new(-m, m, -m),
        &Vec3::new(-m, -m, m),
        Surface::Specular(Specular::new()),
    );
    let right = Plane::from_3_points_and_surface(
        &Vec3::new(m, -m, -m),
        &Vec3::new(m, m, -m),
        &Vec3::new(m, -m, m),
        Surface::Specular(Specular::new()),
    );
    let objects = vec![
        Primitive::Plane(left),
        Primitive::Plane(right),
        Primitive::WorldLight(WorldLight {}),
    ];
    let scene = Scene::new(objects, 6);
    let ray = Ray::new(Vec3::new(0, 0, 0), Vec3::new(ONE, 0, 0));
    let res = scene.test_intersections(ray, 0);
    assert!(res.0.distance.is_some());
    let c = res.0.colour;
    assert!(0 <= c.r && c.r <= ONE);
    assert!(0 <= c.g && c.g <= ONE);
    assert!(0 <= c.b && c.b <= ONE);
}

#[test]
fn single_path_walk_keeps_last_hit() {
    let scene = grey_sphere_and_background();
    let ray = Ray::new(Vec3::new(0, 0, 0), Vec3::new(ONE, 0, 0));
    let res = scene.test_intersections_vec(ray);
    // The walk bounces off the sphere away from it and ends on the
    // background sentinel.
    assert_eq!(res.distance, Some(i64::MAX));
}

#[test]
fn eclipse_scene_shades_the_sphere() {
    let scene = Scene::eclipse();
    let ray = Ray::new(Vec3::new(-3 * ONE, 0, 0), Vec3::new(ONE, 0, 0));
    let res = scene.test_intersections(ray, 0);
    assert_eq!(res.0.distance, Some(3_200_000));
    let c = res.0.colour;
    assert!(0 <= c.r && c.r <= ONE);
    assert!(0 <= c.g && c.g <= ONE);
    assert!(0 <= c.b && c.b <= ONE);
}

#[test]
fn pondering_orbs_builds_eleven_primitives() {
    let scene = Scene::pondering_orbs();
    assert_eq!(scene.objects.len(), 11);
    assert_eq!(scene.max_depth, 4);
    assert!(matches!(scene.objects[4], Primitive::Plane(_)));
    assert!(matches!(scene.objects[9], Primitive::WorldLight(_)));
}

#[test]
fn camera_renders_a_buffer() {
    let scene = grey_sphere_and_background();
    let camera = Camera {
        location: Ray::new_preserve(Vec3::new(-3 * ONE, 0, 0), Vec3::new(ONE, 0, 0)),
        width: 3,
        height: 2,
    };
    let buffer = camera.create_buffer(&scene);
    assert_eq!(buffer.len(), 3);
    for row in &buffer {
        assert_eq!(row.len(), 2);
        for c in row {
            assert!(0 <= c.r && c.r <= ONE);
            assert!(0 <= c.g && c.g <= ONE);
            assert!(0 <= c.b && c.b <= ONE);
        }
    }
}

#[test]
fn camera_moves_in_its_own_frame() {
    let mut camera = Camera {
        location: Ray::new_preserve(Vec3::new(0, 0, 0), Vec3::new(ONE, 0, 0)),
        width: 1,
        height: 1,
    };
    camera.move_by(Vec3::new(100_000, 0, 50_000));
    assert_eq!(camera.location.origin, Vec3::new(100_000, 0, 50_000));
    camera.move_by(Vec3::new(0, 100_000, 0));
    assert_eq!(camera.location.origin, Vec3::new(100_000, 100_000, 50_000));
}

#[test]
fn camera_rotates_its_facing() {
    let mut camera = Camera {
        location: Ray::new_preserve(Vec3::new(0, 0, 0), Vec3::new(ONE, 0, 0)),
        width: 1,
        height: 1,
    };
    // Turn by a quarter circle: cosine zero, sine one.
    camera.rotate_horizontal(0, ONE);
    assert_eq!(camera.location.direction, Vec3::new(0, -ONE, 0));
    assert_eq!(camera.location.origin, Vec3::new(0, 0, 0));
    // Rotations chain: three more quarter turns come back exactly.
    camera.rotate_horizontal(0, ONE);
    assert_eq!(camera.location.direction, Vec3::new(-ONE, 0, 0));
    camera.rotate_horizontal(0, ONE);
    camera.rotate_horizontal(0, ONE);
    assert_eq!(camera.location.direction, Vec3::new(ONE, 0, 0));
}

#[test]
fn point_light_terminates_paths() {
    let objects = vec![
        Primitive::PointLight(PointLight::new(Vec3::new(5 * ONE, 0, 0), ONE)),
        Primitive::WorldLight(WorldLight {}),
    ];
    let scene = Scene::new(objects, 4);
    let ray = Ray::new(Vec3::new(0, 0, 0), Vec3::new(ONE, 0, 0));
    let res = scene.test_intersections(ray, 0);
    assert_eq!(res.0.distance, Some(5 * ONE));
    assert_eq!(res.0.colour, Colour::from_gray(ONE));
    assert!(res.0.normal.is_none());
}
