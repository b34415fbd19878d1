use raytracer::colour::Colour;
use raytracer::doc::DocValue;
use raytracer::objects::quad::Quad;
use raytracer::objects::sphere::Sphere;
use raytracer::objects::triangle::Triangle;
use raytracer::objects::Primitive;
use raytracer::scene::{Scene, SceneError};
use raytracer::surfaces::diffuse::Diffuse;
use raytracer::surfaces::specular::Specular;
use raytracer::surfaces::Surface;
use raytracer::vec3::Vec3;

/// Convert a parsed JSON value into the library's document form, scaling
/// numbers to fixed-point quanta.
fn to_doc(v: &serde_json::Value) -> DocValue {
    match v {
        serde_json::Value::Null => DocValue::Null,
        serde_json::Value::Bool(_) => DocValue::Null,
        serde_json::Value::Number(n) => {
            DocValue::Num((n.as_f64().unwrap() * 1_000_000.0).round() as i64)
        }
        serde_json::Value::String(s) => DocValue::Text(s.clone()),
        serde_json::Value::Array(items) => DocValue::List(items.iter().map(to_doc).collect()),
        serde_json::Value::Object(map) => {
            DocValue::Object(map.iter().map(|(k, val)| (k.clone(), to_doc(val))).collect())
        }
    }
}

const CI_SCENE: &str = r#"{
  "items": [
    {"kind": "sphere", "origin": [0.0, 0.0, 0.0], "radius": 1.0,
     "surface": {"type": "diffuse", "colour": [0.5, 0.7, 0.0], "samples": 10}},
    {"kind": "triangle", "a": [0.0, 0.0, 1.0], "b": [1.0, 0.0, 1.0], "c": [1.0, 1.0, 1.0],
     "surface": {"type": "specular", "colour": [0.2, 0.2, 1.0]}},
    {"kind": "quad", "a": [0.0, 0.0, 2.0], "b": [1.0, 0.0, 2.0], "c": [1.0, 1.0, 2.0]}
  ]
}"#;

#[test]
fn test_serde() {
    // P7 scenario: the description builds exactly the scene built
    // programmatically.
    let one = 1_000_000i64;
    let mut objects = vec![Primitive::Sphere(Sphere::with_shader(
        Vec3::new(0, 0, 0),
        one,
        Surface::Diffuse(Diffuse::new(Colour::from_rgb(500_000, 700_000, 0), 10)),
    ))];

    let tri_a = Vec3::new(0, 0, one);
    let tri_b = Vec3::new(one, 0, one);
    let tri_c = Vec3::new(one, one, one);
    objects.push(Primitive::Triangle(Triangle::from_3_points_and_surface(
        &tri_a,
        &tri_b,
        &tri_c,
        Surface::Specular(Specular::with_colour(Colour::from_rgb(200_000, 200_000, one))),
    )));

    let quad_a = Vec3::new(0, 0, 2 * one);
    let quad_b = Vec3::new(one, 0, 2 * one);
    let quad_c = Vec3::new(one, one, 2 * one);
    objects.push(Primitive::Quad(Quad::from_3_points_and_surface(
        &quad_a,
        &quad_b,
        &quad_c,
        Surface::Specular(Specular::new()),
    )));

    let expected = Scene::new(objects, 1);

    let parsed_json: serde_json::Value = serde_json::from_str(CI_SCENE).unwrap();
    let built = Scene::from_json(&to_doc(&parsed_json)).unwrap();

    assert_eq!(format!("{:?}", expected), format!("{:?}", built));
    assert_eq!(expected, built);
}

#[test]
fn csv_rows_build_primitives() {
    let sheet = b"s,3.0,0.0,0.0,1.0\nl,-12.5,12.0,20.0,1.0\nt,0,0,1,1,0,1,0,1,1,1.0,0.0,0.0\n";
    let scene = Scene::from_csv(sheet).unwrap();
    assert_eq!(scene.objects.len(), 3);
    assert_eq!(scene.max_depth, 4);
    match &scene.objects[0] {
        Primitive::Sphere(s) => {
            assert_eq!(s.origin, Vec3::new(3_000_000, 0, 0));
            assert_eq!(s.radius, 1_000_000);
        }
        other => panic!("expected a sphere, got {:?}", other),
    }
    match &scene.objects[1] {
        Primitive::PointLight(l) => {
            assert_eq!(l.origin, Vec3::new(-12_500_000, 12_000_000, 20_000_000));
            assert_eq!(l.intensity, 1_000_000);
        }
        other => panic!("expected a light, got {:?}", other),
    }
    match &scene.objects[2] {
        Primitive::Triangle(t) => {
            assert_eq!(t.colour, Colour::from_rgb(1_000_000, 0, 0));
        }
        other => panic!("expected a triangle, got {:?}", other),
    }
}

#[test]
fn csv_fractions_parse_exactly() {
    let scene = Scene::from_csv(b"s,0.25,-0.125,0.000001,0.5").unwrap();
    match &scene.objects[0] {
        Primitive::Sphere(s) => {
            assert_eq!(s.origin, Vec3::new(250_000, -125_000, 1));
            assert_eq!(s.radius, 500_000);
        }
        other => panic!("expected a sphere, got {:?}", other),
    }
}

#[test]
fn csv_unknown_tag_is_rejected() {
    assert_eq!(Scene::from_csv(b"x,1,2,3,4"), Err(SceneError::InvalidKind));
}

#[test]
fn csv_malformed_number_is_rejected() {
    assert_eq!(Scene::from_csv(b"s,1,2,3,abc"), Err(SceneError::BadValue));
    assert_eq!(Scene::from_csv(b"s,1,2,3"), Err(SceneError::BadValue));
    assert_eq!(Scene::from_csv(b"s,1,2,3,1.2345678"), Err(SceneError::BadValue));
}

#[test]
fn csv_zero_radius_is_rejected() {
    assert_eq!(Scene::from_csv(b"s,1,2,3,0"), Err(SceneError::OutOfRange));
}

#[test]
fn missing_kind_is_rejected() {
    let doc = DocValue::Object(vec![(
        "items".to_string(),
        DocValue::List(vec![DocValue::Object(vec![])]),
    )]);
    assert_eq!(Scene::from_json(&doc), Err(SceneError::MissingKind));
}

#[test]
fn unknown_kind_is_rejected() {
    let doc = DocValue::Object(vec![(
        "items".to_string(),
        DocValue::List(vec![DocValue::Object(vec![(
            "kind".to_string(),
            DocValue::Text("cube".to_string()),
        )])]),
    )]);
    assert_eq!(Scene::from_json(&doc), Err(SceneError::InvalidKind));
}

#[test]
fn unknown_surface_type_is_rejected() {
    let doc = DocValue::Object(vec![(
        "items".to_string(),
        DocValue::List(vec![DocValue::Object(vec![
            ("kind".to_string(), DocValue::Text("sphere".to_string())),
            (
                "origin".to_string(),
                DocValue::List(vec![DocValue::Num(0), DocValue::Num(0), DocValue::Num(0)]),
            ),
            ("radius".to_string(), DocValue::Num(1_000_000)),
            (
                "surface".to_string(),
                DocValue::Object(vec![(
                    "type".to_string(),
                    DocValue::Text("glossy".to_string()),
                )]),
            ),
        ])]),
    )]);
    assert_eq!(Scene::from_json(&doc), Err(SceneError::InvalidSurface));
}

#[test]
fn missing_origin_is_rejected() {
    let doc = DocValue::Object(vec![(
        "items".to_string(),
        DocValue::List(vec![DocValue::Object(vec![(
            "kind".to_string(),
            DocValue::Text("sphere".to_string()),
        )])]),
    )]);
    assert_eq!(Scene::from_json(&doc), Err(SceneError::BadValue));
}

#[test]
fn oversized_radius_is_rejected() {
    let doc = DocValue::Object(vec![(
        "items".to_string(),
        DocValue::List(vec![DocValue::Object(vec![
            ("kind".to_string(), DocValue::Text("sphere".to_string())),
            (
                "origin".to_string(),
                DocValue::List(vec![DocValue::Num(0), DocValue::Num(0), DocValue::Num(0)]),
            ),
            ("radius".to_string(), DocValue::Num(2_000_000_000)),
        ])]),
    )]);
    assert_eq!(Scene::from_json(&doc), Err(SceneError::OutOfRange));
}

#[test]
fn missing_surface_defaults_to_mirror() {
    let doc = DocValue::Object(vec![(
        "items".to_string(),
        DocValue::List(vec![DocValue::Object(vec![
            ("kind".to_string(), DocValue::Text("sphere".to_string())),
            (
                "origin".to_string(),
                DocValue::List(vec![DocValue::Num(0), DocValue::Num(0), DocValue::Num(0)]),
            ),
            ("radius".to_string(), DocValue::Num(1_000_000)),
        ])]),
    )]);
    let scene = Scene::from_json(&doc).unwrap();
    assert_eq!(scene.objects.len(), 1);
    assert_eq!(scene.max_depth, 1);
    match &scene.objects[0] {
        Primitive::Sphere(s) => {
            assert_eq!(s.surface, Surface::Specular(Specular::new()));
        }
        other => panic!("expected a sphere, got {:?}", other),
    }
}

#[test]
fn fractional_sample_count_is_rejected() {
    let doc = DocValue::Object(vec![(
        "items".to_string(),
        DocValue::List(vec![DocValue::Object(vec![
            ("kind".to_string(), DocValue::Text("sphere".to_string())),
            (
                "origin".to_string(),
                DocValue::List(vec![DocValue::Num(0), DocValue::Num(0), DocValue::Num(0)]),
            ),
            ("radius".to_string(), DocValue::Num(1_000_000)),
            (
                "surface".to_string(),
                DocValue::Object(vec![
                    ("type".to_string(), DocValue::Text("diffuse".to_string())),
                    (
                        "colour".to_string(),
                        DocValue::List(vec![
                            DocValue::Num(500_000),
                            DocValue::Num(500_000),
                            DocValue::Num(500_000),
                        ]),
                    ),
                    ("samples".to_string(), DocValue::Num(10_500_000)),
                ]),
            ),
        ])]),
    )]);
    assert_eq!(Scene::from_json(&doc), Err(SceneError::OutOfRange));
}
