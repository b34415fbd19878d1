//! The scene: an ordered collection of primitives and the recursive
//! nearest-hit-then-bounce traversal over them.
//!
//! Per ray, every primitive is tested and the least outcome under the
//! nearest-hit ordering wins (the background sentinel only when nothing else
//! hit). If the winner carries a bounce ray and depth remains, the winning
//! surface names the rays to follow; their recursive colours are folded back
//! into the winner's colour. Termination rests solely on the depth bound,
//! which Verus checks through the `decreases` measures here.

use vstd::prelude::*;

use crate::colour::{cwf, sc_gray, Colour};
use crate::fixed::ONE;
use crate::intersect::{
    dist_le_check, matches_hit, matches_inter, min_hit_idx, min_hit_idx_first, tir_wf,
    Intersection, SpecHit, TestIntersectionResult,
};
use crate::objects::{primitive_spec, primitive_wf, Primitive, MAX_DIR, MAX_POS};
use crate::renderer::{R3, Ray};
use crate::surfaces::{fold_spec, request_rays_rel, surface_wf, Surface};
use crate::surfaces::diffuse::diffuse_ray_ok;
use crate::doc::{doc_get, doc_lookup, opt_val, DocValue};
use crate::fixed::iabs;
use crate::objects::MAX_COORD;
use crate::surfaces::diffuse::Diffuse;
use crate::surfaces::specular::Specular;
use crate::vec3::{bounded, Vec3};

verus! {

/// Why a scene description was rejected.
#[derive(Clone, Copy, Debug, PartialEq, Eq, Structural)]
pub enum SceneError {
    /// An item carries no kind tag.
    MissingKind,
    /// An item's kind tag names no known primitive.
    InvalidKind,
    /// A surface descriptor's type names no known surface model.
    InvalidSurface,
    /// A required field is absent or of the wrong shape.
    BadValue,
    /// A numeric field lies outside the renderer's bounds.
    OutOfRange,
}

/// Bounces allowed per camera ray in the built-in scenes.
pub const DEPTH: u8 = 4;

#[derive(Clone, Debug, PartialEq)]
pub struct Scene {
    pub objects: Vec<Primitive>,
    pub max_depth: u8,
}

/// A renderable scene: at least one primitive, each within bounds.
pub open spec fn scene_wf(s: Scene) -> bool {
    &&& 0 < s.objects@.len()
    &&& forall|i: int| 0 <= i < s.objects@.len() ==> primitive_wf(#[trigger] s.objects@[i])
}

/// How large a traced ray's direction components may have grown by `depth`:
/// each mirror bounce adds at most two unit directions.
pub open spec fn dir_budget(depth: u8) -> int {
    2_000_000 + 5_000_000 * depth as int
}

/// Every primitive's model outcome for one ray, in scene order, for a given
/// incoming colour.
pub open spec fn scene_results_with(s: Scene, r: R3, incoming: crate::colour::C3) -> Seq<SpecHit> {
    Seq::new(s.objects@.len(), |i: int| primitive_spec(s.objects@[i], r, incoming))
}

/// Every primitive's model outcome for one ray, in scene order.
pub open spec fn scene_results(s: Scene, r: R3) -> Seq<SpecHit> {
    scene_results_with(s, r, sc_gray(ONE as int))
}

/// The outcome the nearest-hit selection keeps.
pub open spec fn winner(s: Scene, r: R3) -> SpecHit {
    scene_results(s, r)[min_hit_idx(scene_results(s, r))]
}

/// What rendering a ray may return: the winning outcome's distance, bounce
/// ray and surface exactly; and its colour exactly, unless a bounce was due,
/// in which case the colour is the winning surface's fold of recursive
/// results that this same relation admits for the requested rays.
pub open spec fn render_rel(s: Scene, r: R3, depth: u8, res: TestIntersectionResult) -> bool
    decreases s.max_depth - depth,
{
    let w = winner(s, r);
    &&& res.1 == w.surface
    &&& match (res.0.distance, w.distance) {
        (Some(a), Some(b)) => a as int == b,
        (None, None) => true,
        _ => false,
    }
    &&& match (res.0.normal, w.normal) {
        (Some(nr), Some(hr)) => nr@ == hr,
        (None, None) => true,
        _ => false,
    }
    &&& if depth < s.max_depth {
        match (w.normal, w.surface) {
            (Some(nr), Some(sf)) => exists|rays: Seq<Ray>, subs: Seq<TestIntersectionResult>|
                #![trigger request_rays_rel(sf, nr, r, rays), subs.len()]
                {
                    &&& request_rays_rel(sf, nr, r, rays)
                    &&& subs.len() == rays.len()
                    &&& forall|i: int|
                        0 <= i < rays.len() ==> render_rel(
                            s,
                            (#[trigger] rays[i])@,
                            (depth + 1) as u8,
                            subs[i],
                        )
                    &&& res.0.colour@ == fold_spec(
                        sf,
                        subs.map_values(|t: TestIntersectionResult| t.0.colour@),
                    )
                },
            _ => res.0.colour@ == w.colour,
        }
    } else {
        res.0.colour@ == w.colour
    }
}

/// Anything the render relation admits for one scene it admits for any
/// scene holding the same primitives and depth bound.
proof fn lemma_render_rel_carries(a: Scene, b: Scene, r: R3, depth: u8, res: TestIntersectionResult)
    requires
        a.objects@ == b.objects@,
        a.max_depth == b.max_depth,
        render_rel(a, r, depth, res),
    ensures
        render_rel(b, r, depth, res),
    decreases a.max_depth - depth,
{
    assert(scene_results(a, r) =~= scene_results(b, r));
    let w = winner(a, r);
    if depth < a.max_depth {
        match (w.normal, w.surface) {
            (Some(nr), Some(sf)) => {
                let (rays, subs): (Seq<Ray>, Seq<TestIntersectionResult>) = choose|
                    rays: Seq<Ray>,
                    subs: Seq<TestIntersectionResult>,
                |
                    #![trigger request_rays_rel(sf, nr, r, rays), subs.len()]
                    {
                        &&& request_rays_rel(sf, nr, r, rays)
                        &&& subs.len() == rays.len()
                        &&& forall|i: int|
                            0 <= i < rays.len() ==> render_rel(
                                a,
                                (#[trigger] rays[i])@,
                                (depth + 1) as u8,
                                subs[i],
                            )
                        &&& res.0.colour@ == fold_spec(
                            sf,
                            subs.map_values(|t: TestIntersectionResult| t.0.colour@),
                        )
                    };
                assert forall|i: int| 0 <= i < rays.len() implies render_rel(
                    b,
                    (#[trigger] rays[i])@,
                    (depth + 1) as u8,
                    subs[i],
                ) by {
                    lemma_render_rel_carries(a, b, rays[i]@, (depth + 1) as u8, subs[i]);
                }
            },
            _ => {},
        }
    }
}

/// The scene-construction round trip: a scene built from a parsed
/// description renders exactly as a programmatically built scene with the
/// same primitives and depth bound — the render relation admits the same
/// outcomes for every ray.
pub proof fn lemma_scene_round_trip(a: Scene, b: Scene, r: R3, depth: u8, res: TestIntersectionResult)
    requires
        a.objects@ == b.objects@,
        a.max_depth == b.max_depth,
    ensures
        render_rel(a, r, depth, res) == render_rel(b, r, depth, res),
        winner(a, r) == winner(b, r),
{
    assert(scene_results(a, r) =~= scene_results(b, r));
    if render_rel(a, r, depth, res) {
        lemma_render_rel_carries(a, b, r, depth, res);
    }
    if render_rel(b, r, depth, res) {
        lemma_render_rel_carries(b, a, r, depth, res);
    }
}

/// The outcome a stable ascending sort puts first, testing with a black
/// incoming colour (the single-path walk's selection).
pub open spec fn vec_winner(s: Scene, r: R3) -> SpecHit {
    let hits = scene_results_with(s, r, sc_gray(0));
    hits[min_hit_idx_first(hits)]
}

/// The single-path walk: follow the first-ranked hit's mirror bounce (taken
/// about the original ray's direction) until a non-bouncing hit or the depth
/// bound, and keep the last outcome.
pub open spec fn vec_trace(s: Scene, orig: R3, cur: R3, depth: u8) -> SpecHit
    decreases s.max_depth - depth,
{
    let w = vec_winner(s, cur);
    match w.normal {
        Some(nr) => if depth < s.max_depth {
            vec_trace(
                s,
                orig,
                R3 {
                    origin: nr.origin,
                    direction: crate::common_maths::maths::reflected_dir(nr, orig),
                },
                (depth + 1) as u8,
            )
        } else {
            w
        },
        None => w,
    }
}

/// A text row without its carriage return, if it carried one.
pub open spec fn strip_cr(line: Seq<u8>) -> Seq<u8> {
    if line.len() > 0 && line.last() == 13 {
        line.drop_last()
    } else {
        line
    }
}

/// One comma-separated row: a blank row carries nothing; `s` is a sphere
/// (origin, radius), `l` a point light (origin, reach), `t` a triangle
/// (three corners and a colour); anything else is rejected, as is a wrong
/// field count, a malformed number, or a value out of bounds.
pub open spec fn spec_parse_row(line: Seq<u8>) -> Result<Option<Primitive>, SceneError> {
    if line.len() == 0 {
        Ok(None)
    } else {
        let c = crate::csv::find_byte(line, 44, 0);
        let tag = line.subrange(0, c);
        let rest = if c == line.len() {
            Seq::<u8>::empty()
        } else {
            line.subrange(c + 1, line.len() as int)
        };
        if tag == seq![115u8] {
            match crate::csv::spec_parse_numbers(rest) {
                Some(ns) => if ns.len() == 4 {
                    if iabs(ns[0]) <= MAX_COORD as int && iabs(ns[1]) <= MAX_COORD as int && iabs(
                        ns[2],
                    ) <= MAX_COORD as int && 0 < ns[3] <= MAX_COORD as int {
                        Ok(
                            Some(
                                Primitive::Sphere(
                                    crate::objects::sphere::Sphere {
                                        origin: Vec3 {
                                            x: ns[0] as i64,
                                            y: ns[1] as i64,
                                            z: ns[2] as i64,
                                        },
                                        radius: ns[3] as i64,
                                        surface: crate::surfaces::default_specular(),
                                    },
                                ),
                            ),
                        )
                    } else {
                        Err(SceneError::OutOfRange)
                    }
                } else {
                    Err(SceneError::BadValue)
                },
                None => Err(SceneError::BadValue),
            }
        } else if tag == seq![108u8] {
            match crate::csv::spec_parse_numbers(rest) {
                Some(ns) => if ns.len() == 4 {
                    if iabs(ns[0]) <= MAX_COORD as int && iabs(ns[1]) <= MAX_COORD as int && iabs(
                        ns[2],
                    ) <= MAX_COORD as int && 0 < ns[3] <= MAX_COORD as int {
                        Ok(
                            Some(
                                Primitive::PointLight(
                                    crate::objects::light::PointLight {
                                        origin: Vec3 {
                                            x: ns[0] as i64,
                                            y: ns[1] as i64,
                                            z: ns[2] as i64,
                                        },
                                        intensity: ns[3] as i64,
                                    },
                                ),
                            ),
                        )
                    } else {
                        Err(SceneError::OutOfRange)
                    }
                } else {
                    Err(SceneError::BadValue)
                },
                None => Err(SceneError::BadValue),
            }
        } else if tag == seq![116u8] {
            match crate::csv::spec_parse_numbers(rest) {
                Some(ns) => if ns.len() == 12 {
                    if iabs(ns[0]) <= MAX_COORD as int && iabs(ns[1]) <= MAX_COORD as int && iabs(
                        ns[2],
                    ) <= MAX_COORD as int && iabs(ns[3]) <= MAX_COORD as int && iabs(ns[4])
                        <= MAX_COORD as int && iabs(ns[5]) <= MAX_COORD as int && iabs(ns[6])
                        <= MAX_COORD as int && iabs(ns[7]) <= MAX_COORD as int && iabs(ns[8])
                        <= MAX_COORD as int && 0 <= ns[9] <= ONE && 0 <= ns[10] <= ONE && 0 <= ns[11]
                        <= ONE {
                        Ok(
                            Some(
                                Primitive::Triangle(
                                    crate::objects::triangle::Triangle {
                                        inner_plane: crate::objects::plane::plane_of(
                                            crate::vec3::V3 { x: ns[0], y: ns[1], z: ns[2] },
                                            crate::vec3::V3 { x: ns[3], y: ns[4], z: ns[5] },
                                            crate::vec3::V3 { x: ns[6], y: ns[7], z: ns[8] },
                                            crate::surfaces::default_specular(),
                                        ),
                                        colour: Colour {
                                            r: ns[9] as i64,
                                            g: ns[10] as i64,
                                            b: ns[11] as i64,
                                        },
                                    },
                                ),
                            ),
                        )
                    } else {
                        Err(SceneError::OutOfRange)
                    }
                } else {
                    Err(SceneError::BadValue)
                },
                None => Err(SceneError::BadValue),
            }
        } else {
            Err(SceneError::InvalidKind)
        }
    }
}

/// A whole sheet of rows, split on newlines, first rejection wins.
pub open spec fn spec_from_csv(s: Seq<u8>) -> Result<Seq<Primitive>, SceneError>
    decreases s.len(),
    via spec_from_csv_dec
{
    let c = crate::csv::find_byte(s, 10, 0);
    if c == s.len() {
        match spec_parse_row(strip_cr(s)) {
            Ok(Some(p)) => Ok(seq![p]),
            Ok(None) => Ok(Seq::empty()),
            Err(e) => Err(e),
        }
    } else {
        match spec_parse_row(strip_cr(s.subrange(0, c))) {
            Err(e) => Err(e),
            Ok(opt) => match spec_from_csv(s.subrange(c + 1, s.len() as int)) {
                Err(e) => Err(e),
                Ok(rest) => Ok(
                    match opt {
                        Some(p) => seq![p] + rest,
                        None => rest,
                    },
                ),
            },
        }
    }
}

#[via_fn]
proof fn spec_from_csv_dec(s: Seq<u8>) {
    crate::csv::lemma_find_byte_bounds(s, 10, 0);
}

/// A tag equals a one-byte literal exactly when the comma sits at one and
/// the first byte matches.
proof fn lemma_tag_eq(line: Seq<u8>, c: int, b: u8)
    requires
        0 <= c <= line.len(),
    ensures
        (line.subrange(0, c) == seq![b]) <==> (c == 1 && line[0] == b),
{
    let tag = line.subrange(0, c);
    if c == 1 {
        assert(tag =~= seq![line[0]]);
        if line[0] == b {
            assert(tag =~= seq![b]);
        }
        if tag == seq![b] {
            assert(tag[0] == b);
        }
    } else {
        if tag == seq![b] {
            assert(tag.len() == seq![b].len());
            assert(seq![b].len() == 1);
        }
    }
}

/// A described point: a list of three numbers within scene bounds.
pub open spec fn spec_parse_vec3(data: Option<DocValue>) -> Result<Vec3, SceneError> {
    match data {
        Some(DocValue::List(items)) => if items@.len() == 3 {
            match (items@[0], items@[1], items@[2]) {
                (DocValue::Num(x), DocValue::Num(y), DocValue::Num(z)) => if iabs(x as int)
                    <= MAX_COORD as int && iabs(y as int) <= MAX_COORD as int && iabs(z as int)
                    <= MAX_COORD as int {
                    Ok(Vec3 { x, y, z })
                } else {
                    Err(SceneError::OutOfRange)
                },
                _ => Err(SceneError::BadValue),
            }
        } else {
            Err(SceneError::BadValue)
        },
        _ => Err(SceneError::BadValue),
    }
}

/// A described colour: a list of three numbers, each within `[0, ONE]`.
pub open spec fn spec_parse_colour(data: Option<DocValue>) -> Result<Colour, SceneError> {
    match data {
        Some(DocValue::List(items)) => if items@.len() == 3 {
            match (items@[0], items@[1], items@[2]) {
                (DocValue::Num(r), DocValue::Num(g), DocValue::Num(b)) => if 0 <= r <= ONE && 0
                    <= g <= ONE && 0 <= b <= ONE {
                    Ok(Colour { r, g, b })
                } else {
                    Err(SceneError::OutOfRange)
                },
                _ => Err(SceneError::BadValue),
            }
        } else {
            Err(SceneError::BadValue)
        },
        _ => Err(SceneError::BadValue),
    }
}

/// A described surface: absent, null, or untyped descriptors mean the
/// default mirror; `specular` takes a colour; `diffuse` takes a colour and a
/// whole, positive sample count (at most a thousand); any other type is
/// rejected.
pub open spec fn spec_parse_surface(data: Option<DocValue>) -> Result<Surface, SceneError> {
    match data {
        Some(DocValue::Object(entries)) => match doc_lookup(entries@, "type"@) {
            Some(DocValue::Text(t)) => if t@ == "specular"@ {
                match spec_parse_colour(doc_lookup(entries@, "colour"@)) {
                    Ok(c) => Ok(Surface::Specular(Specular { colour: c })),
                    Err(e) => Err(e),
                }
            } else if t@ == "diffuse"@ {
                match spec_parse_colour(doc_lookup(entries@, "colour"@)) {
                    Ok(c) => match doc_lookup(entries@, "samples"@) {
                        Some(DocValue::Num(n)) => if ONE as int <= n as int <= 1000 * (ONE as int)
                            && (n as int) % (ONE as int) == 0 {
                            Ok(
                                Surface::Diffuse(
                                    Diffuse {
                                        colour: c,
                                        samples: ((n as int) / (ONE as int)) as usize,
                                    },
                                ),
                            )
                        } else {
                            Err(SceneError::OutOfRange)
                        },
                        _ => Err(SceneError::BadValue),
                    },
                    Err(e) => Err(e),
                }
            } else {
                Err(SceneError::InvalidSurface)
            },
            _ => Ok(crate::surfaces::default_specular()),
        },
        _ => Ok(crate::surfaces::default_specular()),
    }
}

/// A described sphere: an origin, a positive in-bounds radius, and an
/// optional surface.
pub open spec fn spec_parse_sphere(data: DocValue) -> Result<crate::objects::sphere::Sphere, SceneError> {
    match data {
        DocValue::Object(entries) => match spec_parse_vec3(doc_lookup(entries@, "origin"@)) {
            Ok(origin) => match doc_lookup(entries@, "radius"@) {
                Some(DocValue::Num(radius)) => if 0 < radius <= MAX_COORD {
                    match spec_parse_surface(doc_lookup(entries@, "surface"@)) {
                        Ok(surface) => Ok(
                            crate::objects::sphere::Sphere { origin, radius, surface },
                        ),
                        Err(e) => Err(e),
                    }
                } else {
                    Err(SceneError::OutOfRange)
                },
                _ => Err(SceneError::BadValue),
            },
            Err(e) => Err(e),
        },
        _ => Err(SceneError::BadValue),
    }
}

/// Three described corners and an optional surface.
pub open spec fn spec_parse_corners(data: DocValue) -> Result<(Vec3, Vec3, Vec3, Surface), SceneError> {
    match data {
        DocValue::Object(entries) => match (
            spec_parse_vec3(doc_lookup(entries@, "a"@)),
            spec_parse_vec3(doc_lookup(entries@, "b"@)),
            spec_parse_vec3(doc_lookup(entries@, "c"@)),
            spec_parse_surface(doc_lookup(entries@, "surface"@)),
        ) {
            (Ok(a), Ok(b), Ok(c), Ok(surface)) => Ok((a, b, c, surface)),
            (Err(e), _, _, _) => Err(e),
            (_, Err(e), _, _) => Err(e),
            (_, _, Err(e), _) => Err(e),
            (_, _, _, Err(e)) => Err(e),
        },
        _ => Err(SceneError::BadValue),
    }
}

/// A described triangle: three corners on a plane carrying the surface,
/// shown black.
pub open spec fn spec_parse_triangle(data: DocValue) -> Result<crate::objects::triangle::Triangle, SceneError> {
    match spec_parse_corners(data) {
        Ok((a, b, c, surface)) => Ok(
            crate::objects::triangle::Triangle {
                inner_plane: crate::objects::plane::plane_of(a@, b@, c@, surface),
                colour: Colour { r: 0, g: 0, b: 0 },
            },
        ),
        Err(e) => Err(e),
    }
}

/// A described quad: three corners, with the surface on the quad itself.
pub open spec fn spec_parse_quad(data: DocValue) -> Result<crate::objects::quad::Quad, SceneError> {
    match spec_parse_corners(data) {
        Ok((a, b, c, surface)) => Ok(
            crate::objects::quad::Quad {
                inner_plane: crate::objects::plane::plane_of(
                    a@,
                    b@,
                    c@,
                    crate::surfaces::default_specular(),
                ),
                surface,
            },
        ),
        Err(e) => Err(e),
    }
}

/// One described item, by its kind tag.
pub open spec fn spec_parse_item(data: DocValue) -> Result<Primitive, SceneError> {
    match data {
        DocValue::Object(entries) => match doc_lookup(entries@, "kind"@) {
            Some(DocValue::Text(t)) => if t@ == "sphere"@ {
                match spec_parse_sphere(data) {
                    Ok(s) => Ok(Primitive::Sphere(s)),
                    Err(e) => Err(e),
                }
            } else if t@ == "triangle"@ {
                match spec_parse_triangle(data) {
                    Ok(tr) => Ok(Primitive::Triangle(tr)),
                    Err(e) => Err(e),
                }
            } else if t@ == "quad"@ {
                match spec_parse_quad(data) {
                    Ok(q) => Ok(Primitive::Quad(q)),
                    Err(e) => Err(e),
                }
            } else {
                Err(SceneError::InvalidKind)
            },
            _ => Err(SceneError::MissingKind),
        },
        _ => Err(SceneError::MissingKind),
    }
}

/// Every described item in order, stopping at the first rejection.
pub open spec fn spec_parse_items(items: Seq<DocValue>) -> Result<Seq<Primitive>, SceneError>
    decreases items.len(),
{
    if items.len() == 0 {
        Ok(Seq::empty())
    } else {
        match spec_parse_items(items.drop_last()) {
            Ok(ps) => match spec_parse_item(items.last()) {
                Ok(p) => Ok(ps.push(p)),
                Err(e) => Err(e),
            },
            Err(e) => Err(e),
        }
    }
}

/// A whole description: an object with an `items` list.
pub open spec fn spec_from_json(data: DocValue) -> Result<Seq<Primitive>, SceneError> {
    match data {
        DocValue::Object(entries) => match doc_lookup(entries@, "items"@) {
            Some(DocValue::List(items)) => spec_parse_items(items@),
            _ => Err(SceneError::BadValue),
        },
        _ => Err(SceneError::BadValue),
    }
}

/// Once a prefix of the items is rejected, the whole list is, with the same
/// error.
proof fn lemma_parse_items_err(items: Seq<DocValue>, k: int, e: SceneError)
    requires
        0 <= k <= items.len(),
        spec_parse_items(items.take(k)) == Err::<Seq<Primitive>, SceneError>(e),
    ensures
        spec_parse_items(items) == Err::<Seq<Primitive>, SceneError>(e),
    decreases items.len() - k,
{
    if k == items.len() {
        assert(items.take(k) =~= items);
    } else {
        assert(items.take(k + 1).drop_last() =~= items.take(k));
        lemma_parse_items_err(items, k + 1, e);
    }
}

impl Scene {
    pub fn new(objects: Vec<Primitive>, max_depth: u8) -> (s: Scene)
        ensures
            s.objects == objects,
            s.max_depth == max_depth,
    {
        Scene { objects, max_depth }
    }

    /// Render one ray: every primitive is evaluated, the nearest real hit
    /// wins, and while depth remains the winning surface's requested bounce
    /// rays are rendered recursively and folded into the winning colour.
    pub fn test_intersections(&self, ray: Ray, current_depth: u8) -> (res: TestIntersectionResult)
        requires
            scene_wf(*self),
            current_depth <= self.max_depth,
            bounded(ray@.origin, MAX_POS as int),
            bounded(ray@.direction, dir_budget(current_depth)),
        ensures
            render_rel(*self, ray@, current_depth, res),
            tir_wf(res, MAX_POS as int),
        decreases self.max_depth - current_depth,
    {
        let ghost rr = ray@;
        let ghost hits = scene_results(*self, rr);
        let mut results: Vec<TestIntersectionResult> = Vec::new();
        let n = self.objects.len();
        let mut i: usize = 0;
        while i < n
            invariant
                n == self.objects@.len(),
                0 <= i <= n,
                results@.len() == i,
                scene_wf(*self),
                bounded(rr.origin, MAX_POS as int),
                bounded(rr.direction, MAX_DIR as int),
                hits == scene_results(*self, rr),
                ray@ == rr,
                forall|j: int| 0 <= j < i ==> matches_hit(#[trigger] results@[j], hits[j]),
                forall|j: int| 0 <= j < i ==> tir_wf(#[trigger] results@[j], MAX_POS as int),
            decreases n - i,
        {
            let t = self.objects[i].test_intersection(&ray, Colour::from_gray(ONE));
            results.push(t);
            i = i + 1;
        }
        let mut best = results[0];
        let ghost mut bi: int = 0;
        proof {
            assert(hits.take(1).len() == 1);
            assert(min_hit_idx(hits.take(1)) == 0);
            assert(hits.take(1)[0] == hits[0]);
        }
        let mut k: usize = 1;
        while k < n
            invariant
                n == results@.len(),
                n == hits.len(),
                1 <= k <= n,
                0 <= bi < k,
                bi == min_hit_idx(hits.take(k as int)),
                matches_hit(best, hits[bi]),
                tir_wf(best, MAX_POS as int),
                forall|j: int| 0 <= j < n ==> matches_hit(#[trigger] results@[j], hits[j]),
                forall|j: int| 0 <= j < n ==> tir_wf(#[trigger] results@[j], MAX_POS as int),
            decreases n - k,
        {
            proof {
                assert(hits.take(k as int + 1).drop_last() =~= hits.take(k as int));
                assert(hits.take(k as int + 1).last() == hits[k as int]);
                assert(hits.take(k as int)[bi] == hits[bi]);
            }
            if dist_le_check(results[k].0.distance, best.0.distance) {
                best = results[k];
                proof {
                    bi = k as int;
                }
            }
            k = k + 1;
        }
        proof {
            assert(hits.take(n as int) =~= hits);
        }
        if current_depth < self.max_depth {
            if let Some(normal_ray) = best.0.normal {
                let surface = best.1.unwrap();
                proof {
                    assert(dir_budget(current_depth) <= 1_998_000_000);
                }
                let new_rays = surface.request_rays(&normal_ray, &ray);
                let ghost rays_seq = new_rays@;
                let mut subs: Vec<TestIntersectionResult> = Vec::new();
                let mut j: usize = 0;
                while j < new_rays.len()
                    invariant
                        scene_wf(*self),
                        current_depth < self.max_depth,
                        subs@.len() == j,
                        0 <= j <= new_rays@.len(),
                        new_rays@ == rays_seq,
                        ray@ == rr,
                        bounded(rr.origin, MAX_POS as int),
                        bounded(rr.direction, dir_budget(current_depth)),
                        request_rays_rel(surface, normal_ray@, rr, rays_seq),
                        surface_wf(surface),
                        bounded(normal_ray@.origin, MAX_POS as int),
                        bounded(normal_ray@.direction, ONE as int),
                        forall|m: int|
                            0 <= m < j ==> render_rel(
                                *self,
                                (#[trigger] rays_seq[m])@,
                                (current_depth + 1) as u8,
                                subs@[m],
                            ),
                        forall|m: int| 0 <= m < j ==> cwf((#[trigger] subs@[m]).0.colour@),
                    decreases new_rays@.len() - j,
                {
                    proof {
                        match surface {
                            Surface::Specular(_) => {
                                assert(bounded(rays_seq[j as int]@.direction, dir_budget(
                                    (current_depth + 1) as u8,
                                )));
                            },
                            Surface::Diffuse(_) => {
                                assert(diffuse_ray_ok(normal_ray@, rr, rays_seq[j as int]));
                                let (ux, uy, uz): (int, int, int) = choose|ux: int, uy: int, uz: int|
                                    {
                                        &&& 0 <= ux < ONE as int
                                        &&& 0 <= uy < ONE as int
                                        &&& 0 <= uz < ONE as int
                                        &&& rays_seq[j as int]@.origin == normal_ray@.origin
                                        &&& rays_seq[j as int]@.direction
                                            == crate::surfaces::diffuse::jitter_then_unit(
                                            crate::common_maths::maths::reflected_dir(
                                                normal_ray@,
                                                rr,
                                            ),
                                            crate::surfaces::diffuse::kernel_spec(ux),
                                            crate::surfaces::diffuse::kernel_spec(uy),
                                            crate::surfaces::diffuse::kernel_spec(uz),
                                        )
                                    };
                                crate::surfaces::diffuse::lemma_jitter_unit_bounded(
                                    crate::common_maths::maths::reflected_dir(normal_ray@, rr),
                                    crate::surfaces::diffuse::kernel_spec(ux),
                                    crate::surfaces::diffuse::kernel_spec(uy),
                                    crate::surfaces::diffuse::kernel_spec(uz),
                                );
                            },
                        }
                    }
                    let sub_ray = new_rays[j];
                    let sub = self.test_intersections(sub_ray, current_depth + 1);
                    subs.push(sub);
                    j = j + 1;
                }
                let ghost subs_seq = subs@;
                let colour = surface.intersections_to_colour(subs);
                best.0.colour = colour;
                proof {
                    assert(request_rays_rel(surface, normal_ray@, rr, rays_seq));
                    assert(render_rel(*self, rr, current_depth, best));
                }
                return best;
            }
        }
        best
    }

    /// A scene of orbs over a mirror floor: mirror spheres, one matte green
    /// sphere, a point light, a mirror plane, a green triangle with marker
    /// spheres on its corners, the background light, and a matte quad.
    pub fn pondering_orbs() -> (s: Scene)
        ensures
            scene_wf(s),
            s.max_depth == DEPTH,
            s.objects@.len() == 11,
            s.objects@[0] == Primitive::Sphere(crate::renderer::sphere_at(3_000_000, 8_000_000, 8_000_000, 1_000_000)),
            s.objects@[1] == Primitive::Sphere(crate::renderer::sphere_at(3_000_000, 5_000_000, 5_000_000, 1_000_000)),
            s.objects@[2] == Primitive::Sphere(
                crate::objects::sphere::Sphere {
                    origin: crate::vec3::Vec3 { x: 0, y: 3_600_000, z: 3_900_000 },
                    radius: 1_000_000,
                    surface: Surface::Diffuse(
                        crate::surfaces::diffuse::Diffuse {
                            colour: Colour { r: 0, g: 1_000_000, b: 0 },
                            samples: 30,
                        },
                    ),
                },
            ),
            s.objects@[3] == Primitive::PointLight(
                crate::objects::light::PointLight {
                    origin: crate::vec3::Vec3 { x: 12_000_000, y: 0, z: 10_000_000 },
                    intensity: 1_000_000,
                },
            ),
            s.objects@[4] == Primitive::Plane(crate::objects::plane::plane_of(
                crate::vec3::V3 { x: 0, y: 0, z: 0 },
                crate::vec3::V3 { x: 1_000_000, y: 0, z: 0 },
                crate::vec3::V3 { x: 100_000, y: 1_000_000, z: -100_000 },
                crate::surfaces::default_specular(),
            )),
            s.objects@[5] == Primitive::Triangle(crate::objects::triangle::Triangle {
                inner_plane: crate::objects::plane::plane_of(
                    crate::vec3::V3 { x: 0, y: 4_000_000, z: 1_000_000 },
                    crate::vec3::V3 { x: -7_000_000, y: 4_000_000, z: 1_000_000 },
                    crate::vec3::V3 { x: -7_000_000, y: 4_000_000, z: 3_000_000 },
                    crate::surfaces::default_specular(),
                ),
                colour: Colour { r: 0, g: 1_000_000, b: 0 },
            }),
            s.objects@[6] == Primitive::Sphere(crate::renderer::sphere_at(-7_000_000i64, 4_000_000, 1_000_000, 100_000)),
            s.objects@[7] == Primitive::Sphere(crate::renderer::sphere_at(0, 4_000_000, 1_000_000, 100_000)),
            s.objects@[8] == Primitive::Sphere(crate::renderer::sphere_at(-7_000_000i64, 4_000_000, 3_000_000, 100_000)),
            s.objects@[9] == Primitive::WorldLight(crate::objects::world_light::WorldLight {}),
            s.objects@[10] == Primitive::Quad(crate::objects::quad::Quad {
                inner_plane: crate::objects::plane::plane_of(
                    crate::vec3::V3 { x: 5_000_000, y: -4_000_000, z: 1_000_000 },
                    crate::vec3::V3 { x: 5_000_000, y: -2_000_000, z: 1_000_000 },
                    crate::vec3::V3 { x: 5_000_000, y: -4_000_000, z: 9_000_000 },
                    crate::surfaces::default_specular(),
                ),
                surface: Surface::Diffuse(crate::surfaces::diffuse::Diffuse {
                    colour: Colour { r: 500_000, g: 500_000, b: 500_000 },
                    samples: 3,
                }),
            }),
    {
        let a = crate::vec3::Vec3::new(0, 0, 0);
        let b = crate::vec3::Vec3::new(1_000_000, 0, 0);
        let c = crate::vec3::Vec3::new(100_000, 1_000_000, -100_000);
        let plane = crate::objects::plane::Plane::from_3_points_and_surface(
            &a,
            &b,
            &c,
            Surface::Specular(crate::surfaces::specular::Specular::new()),
        );
        let d = crate::vec3::Vec3::new(-7_000_000, 4_000_000, 1_000_000);
        let e = crate::vec3::Vec3::new(0, 4_000_000, 1_000_000);
        let f = crate::vec3::Vec3::new(-7_000_000, 4_000_000, 3_000_000);
        let green = Colour::from_rgb(0, 1_000_000, 0);
        let triangle = crate::objects::triangle::Triangle::from_3_points(&e, &d, &f, green);
        let h = crate::vec3::Vec3::new(5_000_000, -4_000_000, 1_000_000);
        let i = crate::vec3::Vec3::new(5_000_000, -2_000_000, 1_000_000);
        let j = crate::vec3::Vec3::new(5_000_000, -4_000_000, 9_000_000);
        let quad = crate::objects::quad::Quad::from_3_points(&h, &i, &j);
        let mut objects: Vec<Primitive> = Vec::new();
        objects.push(Primitive::Sphere(crate::objects::sphere::Sphere::blank_specular_surface(
            crate::vec3::Vec3::new(3_000_000, 8_000_000, 8_000_000),
            1_000_000,
        )));
        objects.push(Primitive::Sphere(crate::objects::sphere::Sphere::blank_specular_surface(
            crate::vec3::Vec3::new(3_000_000, 5_000_000, 5_000_000),
            1_000_000,
        )));
        objects.push(Primitive::Sphere(crate::objects::sphere::Sphere::with_shader(
            crate::vec3::Vec3::new(0, 3_600_000, 3_900_000),
            1_000_000,
            Surface::Diffuse(crate::surfaces::diffuse::Diffuse::new(green, 30)),
        )));
        objects.push(Primitive::PointLight(crate::objects::light::PointLight::new(
            crate::vec3::Vec3::new(12_000_000, 0, 10_000_000),
            1_000_000,
        )));
        objects.push(Primitive::Plane(plane));
        objects.push(Primitive::Triangle(triangle));
        objects.push(Primitive::Sphere(crate::objects::sphere::Sphere::blank_specular_surface(d, 100_000)));
        objects.push(Primitive::Sphere(crate::objects::sphere::Sphere::blank_specular_surface(e, 100_000)));
        objects.push(Primitive::Sphere(crate::objects::sphere::Sphere::blank_specular_surface(f, 100_000)));
        objects.push(Primitive::WorldLight(crate::objects::world_light::WorldLight {}));
        objects.push(Primitive::Quad(quad));
        Scene { objects, max_depth: DEPTH }
    }

    /// A matte blue sphere in front of a point light, against the
    /// background light.
    pub fn eclipse() -> (s: Scene)
        ensures
            scene_wf(s),
            s.max_depth == DEPTH,
            s.objects@.len() == 3,
            s.objects@[0] == Primitive::Sphere(
                crate::objects::sphere::Sphere {
                    origin: crate::vec3::Vec3 { x: 1_000_000, y: 0, z: 0 },
                    radius: 800_000,
                    surface: Surface::Diffuse(
                        crate::surfaces::diffuse::Diffuse {
                            colour: Colour { r: 0, g: 0, b: 1_000_000 },
                            samples: 1,
                        },
                    ),
                },
            ),
            s.objects@[1] == Primitive::PointLight(
                crate::objects::light::PointLight {
                    origin: crate::vec3::Vec3 { x: 3_000_000, y: 0, z: 0 },
                    intensity: 1_000_000,
                },
            ),
            s.objects@[2] == Primitive::WorldLight(crate::objects::world_light::WorldLight {}),
    {
        let mut objects: Vec<Primitive> = Vec::new();
        objects.push(Primitive::Sphere(crate::objects::sphere::Sphere::with_shader(
            crate::vec3::Vec3::new(1_000_000, 0, 0),
            800_000,
            Surface::Diffuse(crate::surfaces::diffuse::Diffuse::new(
                Colour::from_rgb(0, 0, 1_000_000),
                1,
            )),
        )));
        objects.push(Primitive::PointLight(crate::objects::light::PointLight::new(
            crate::vec3::Vec3::new(3_000_000, 0, 0),
            1_000_000,
        )));
        objects.push(Primitive::WorldLight(crate::objects::world_light::WorldLight {}));
        Scene { objects, max_depth: DEPTH }
    }

    /// A described point.
    fn parse_vec3(data: Option<&DocValue>) -> (r: Result<Vec3, SceneError>)
        ensures
            r == spec_parse_vec3(opt_val(data)),
            r matches Ok(v) ==> bounded(v@, MAX_COORD as int),
    {
        match data {
            Some(DocValue::List(items)) => if items.len() == 3 {
                match (&items[0], &items[1], &items[2]) {
                    (DocValue::Num(x), DocValue::Num(y), DocValue::Num(z)) => if -MAX_COORD <= *x
                        && *x <= MAX_COORD && -MAX_COORD <= *y && *y <= MAX_COORD && -MAX_COORD
                        <= *z && *z <= MAX_COORD {
                        Ok(Vec3 { x: *x, y: *y, z: *z })
                    } else {
                        Err(SceneError::OutOfRange)
                    },
                    _ => Err(SceneError::BadValue),
                }
            } else {
                Err(SceneError::BadValue)
            },
            _ => Err(SceneError::BadValue),
        }
    }

    /// A described colour.
    fn parse_colour(data: Option<&DocValue>) -> (r: Result<Colour, SceneError>)
        ensures
            r == spec_parse_colour(opt_val(data)),
            r matches Ok(c) ==> cwf(c@),
    {
        match data {
            Some(DocValue::List(items)) => if items.len() == 3 {
                match (&items[0], &items[1], &items[2]) {
                    (DocValue::Num(cr), DocValue::Num(cg), DocValue::Num(cb)) => if 0 <= *cr
                        && *cr <= ONE && 0 <= *cg && *cg <= ONE && 0 <= *cb && *cb <= ONE {
                        Ok(Colour { r: *cr, g: *cg, b: *cb })
                    } else {
                        Err(SceneError::OutOfRange)
                    },
                    _ => Err(SceneError::BadValue),
                }
            } else {
                Err(SceneError::BadValue)
            },
            _ => Err(SceneError::BadValue),
        }
    }

    /// A described surface; absent or untyped means the default mirror.
    fn parse_surface(data: Option<&DocValue>) -> (r: Result<Surface, SceneError>)
        ensures
            r == spec_parse_surface(opt_val(data)),
            r matches Ok(sf) ==> surface_wf(sf),
    {
        match data {
            Some(DocValue::Object(entries)) => match doc_get(entries, "type") {
                Some(DocValue::Text(t)) => if *t == "specular".to_owned() {
                    match Scene::parse_colour(doc_get(entries, "colour")) {
                        Ok(c) => Ok(Surface::Specular(Specular::with_colour(c))),
                        Err(e) => Err(e),
                    }
                } else if *t == "diffuse".to_owned() {
                    match Scene::parse_colour(doc_get(entries, "colour")) {
                        Ok(c) => match doc_get(entries, "samples") {
                            Some(DocValue::Num(n)) => if ONE <= *n && *n <= 1000 * ONE && (*n
                                as u64) % (ONE as u64) == 0 {
                                let samples = (*n as u64) / (ONE as u64);
                                Ok(Surface::Diffuse(Diffuse::new(c, samples as usize)))
                            } else {
                                Err(SceneError::OutOfRange)
                            },
                            _ => Err(SceneError::BadValue),
                        },
                        Err(e) => Err(e),
                    }
                } else {
                    Err(SceneError::InvalidSurface)
                },
                _ => Ok(Surface::Specular(Specular::new())),
            },
            _ => Ok(Surface::Specular(Specular::new())),
        }
    }

    /// A described sphere.
    fn parse_sphere(data: &DocValue) -> (r: Result<crate::objects::sphere::Sphere, SceneError>)
        ensures
            r == spec_parse_sphere(*data),
            r matches Ok(s) ==> crate::objects::sphere::sphere_wf(s),
    {
        match data {
            DocValue::Object(entries) => match Scene::parse_vec3(doc_get(entries, "origin")) {
                Ok(origin) => match doc_get(entries, "radius") {
                    Some(DocValue::Num(radius)) => if 0 < *radius && *radius <= MAX_COORD {
                        match Scene::parse_surface(doc_get(entries, "surface")) {
                            Ok(surface) => Ok(
                                crate::objects::sphere::Sphere::with_shader(
                                    origin,
                                    *radius,
                                    surface,
                                ),
                            ),
                            Err(e) => Err(e),
                        }
                    } else {
                        Err(SceneError::OutOfRange)
                    },
                    _ => Err(SceneError::BadValue),
                },
                Err(e) => Err(e),
            },
            _ => Err(SceneError::BadValue),
        }
    }

    /// Three described corners with their surface.
    fn parse_corners(data: &DocValue) -> (r: Result<(Vec3, Vec3, Vec3, Surface), SceneError>)
        ensures
            r == spec_parse_corners(*data),
            r matches Ok(q) ==> bounded(q.0@, MAX_COORD as int) && bounded(q.1@, MAX_COORD as int)
                && bounded(q.2@, MAX_COORD as int) && surface_wf(q.3),
    {
        match data {
            DocValue::Object(entries) => {
                let ra = Scene::parse_vec3(doc_get(entries, "a"));
                let rb = Scene::parse_vec3(doc_get(entries, "b"));
                let rc = Scene::parse_vec3(doc_get(entries, "c"));
                let rs = Scene::parse_surface(doc_get(entries, "surface"));
                match (ra, rb, rc, rs) {
                    (Ok(a), Ok(b), Ok(c), Ok(surface)) => Ok((a, b, c, surface)),
                    (Err(e), _, _, _) => Err(e),
                    (_, Err(e), _, _) => Err(e),
                    (_, _, Err(e), _) => Err(e),
                    (_, _, _, Err(e)) => Err(e),
                }
            },
            _ => Err(SceneError::BadValue),
        }
    }

    /// A described triangle.
    fn parse_triangle(data: &DocValue) -> (r: Result<crate::objects::triangle::Triangle, SceneError>)
        ensures
            r == spec_parse_triangle(*data),
            r matches Ok(t) ==> crate::objects::triangle::triangle_wf(t),
    {
        match Scene::parse_corners(data) {
            Ok((a, b, c, surface)) => Ok(
                crate::objects::triangle::Triangle::from_3_points_and_surface(
                    &a,
                    &b,
                    &c,
                    surface,
                ),
            ),
            Err(e) => Err(e),
        }
    }

    /// A described quad.
    fn parse_quad(data: &DocValue) -> (r: Result<crate::objects::quad::Quad, SceneError>)
        ensures
            r == spec_parse_quad(*data),
            r matches Ok(q) ==> crate::objects::quad::quad_wf(q),
    {
        match Scene::parse_corners(data) {
            Ok((a, b, c, surface)) => Ok(
                crate::objects::quad::Quad::from_3_points_and_surface(&a, &b, &c, surface),
            ),
            Err(e) => Err(e),
        }
    }

    /// One described item.
    fn parse_item(data: &DocValue) -> (r: Result<Primitive, SceneError>)
        ensures
            r == spec_parse_item(*data),
            r matches Ok(p) ==> primitive_wf(p),
    {
        match data {
            DocValue::Object(entries) => match doc_get(entries, "kind") {
                Some(DocValue::Text(t)) => if *t == "sphere".to_owned() {
                    match Scene::parse_sphere(data) {
                        Ok(s) => Ok(Primitive::Sphere(s)),
                        Err(e) => Err(e),
                    }
                } else if *t == "triangle".to_owned() {
                    match Scene::parse_triangle(data) {
                        Ok(tr) => Ok(Primitive::Triangle(tr)),
                        Err(e) => Err(e),
                    }
                } else if *t == "quad".to_owned() {
                    match Scene::parse_quad(data) {
                        Ok(q) => Ok(Primitive::Quad(q)),
                        Err(e) => Err(e),
                    }
                } else {
                    Err(SceneError::InvalidKind)
                },
                _ => Err(SceneError::MissingKind),
            },
            _ => Err(SceneError::MissingKind),
        }
    }

    /// Parse one comma-separated row into at most one primitive.
    fn parse_row(line: &[u8]) -> (r: Result<Option<Primitive>, SceneError>)
        ensures
            r == spec_parse_row(line@),
            r matches Ok(Some(p)) ==> primitive_wf(p),
    {
        let n = line.len();
        if n == 0 {
            return Ok(None);
        }
        let c = crate::csv::find_byte_at(line, 44, 0);
        let rest: &[u8] = if c == n {
            vstd::slice::slice_subrange(line, n, n)
        } else {
            vstd::slice::slice_subrange(line, c + 1, n)
        };
        proof {
            if c == n {
                assert(rest@ =~= Seq::<u8>::empty());
            } else {
                assert(rest@ =~= line@.subrange(c as int + 1, n as int));
            }
            lemma_tag_eq(line@, c as int, 115);
            lemma_tag_eq(line@, c as int, 108);
            lemma_tag_eq(line@, c as int, 116);
        }
        let single = c == 1;
        if single && line[0] == 115 {
            match crate::csv::parse_numbers(rest) {
                Some(vs) => {
                    if vs.len() != 4 {
                        return Err(SceneError::BadValue);
                    }
                    let x = vs[0];
                    let y = vs[1];
                    let z = vs[2];
                    let rad = vs[3];
                    if x < -MAX_COORD || x > MAX_COORD || y < -MAX_COORD || y > MAX_COORD || z
                        < -MAX_COORD || z > MAX_COORD || rad <= 0 || rad > MAX_COORD {
                        return Err(SceneError::OutOfRange);
                    }
                    Ok(
                        Some(
                            Primitive::Sphere(
                                crate::objects::sphere::Sphere::blank_specular_surface(
                                    Vec3::new(x, y, z),
                                    rad,
                                ),
                            ),
                        ),
                    )
                },
                None => Err(SceneError::BadValue),
            }
        } else if single && line[0] == 108 {
            match crate::csv::parse_numbers(rest) {
                Some(vs) => {
                    if vs.len() != 4 {
                        return Err(SceneError::BadValue);
                    }
                    let x = vs[0];
                    let y = vs[1];
                    let z = vs[2];
                    let reach = vs[3];
                    if x < -MAX_COORD || x > MAX_COORD || y < -MAX_COORD || y > MAX_COORD || z
                        < -MAX_COORD || z > MAX_COORD || reach <= 0 || reach > MAX_COORD {
                        return Err(SceneError::OutOfRange);
                    }
                    Ok(
                        Some(
                            Primitive::PointLight(
                                crate::objects::light::PointLight::new(Vec3::new(x, y, z), reach),
                            ),
                        ),
                    )
                },
                None => Err(SceneError::BadValue),
            }
        } else if single && line[0] == 116 {
            match crate::csv::parse_numbers(rest) {
                Some(vs) => {
                    if vs.len() != 12 {
                        return Err(SceneError::BadValue);
                    }
                    let mut i: usize = 0;
                    let mut in_bounds = true;
                    while i < 9
                        invariant
                            0 <= i <= 9,
                            vs@.len() == 12,
                            in_bounds == (forall|j: int|
                                0 <= j < i ==> -MAX_COORD <= #[trigger] vs@[j] <= MAX_COORD),
                        decreases 9 - i,
                    {
                        if vs[i] < -MAX_COORD || vs[i] > MAX_COORD {
                            in_bounds = false;
                        }
                        i = i + 1;
                    }
                    if !in_bounds || vs[9] < 0 || vs[9] > ONE || vs[10] < 0 || vs[10] > ONE
                        || vs[11] < 0 || vs[11] > ONE {
                        return Err(SceneError::OutOfRange);
                    }
                    let a = Vec3::new(vs[0], vs[1], vs[2]);
                    let b = Vec3::new(vs[3], vs[4], vs[5]);
                    let cc = Vec3::new(vs[6], vs[7], vs[8]);
                    let colour = Colour::from_rgb(vs[9], vs[10], vs[11]);
                    Ok(
                        Some(
                            Primitive::Triangle(
                                crate::objects::triangle::Triangle::from_3_points(
                                    &a,
                                    &b,
                                    &cc,
                                    colour,
                                ),
                            ),
                        ),
                    )
                },
                None => Err(SceneError::BadValue),
            }
        } else {
            Err(SceneError::InvalidKind)
        }
    }

    /// Parse every row of a sheet, front to back.
    fn from_csv_rows(s: &[u8]) -> (r: Result<Vec<Primitive>, SceneError>)
        ensures
            match r {
                Ok(ps) => {
                    &&& spec_from_csv(s@) == Ok::<Seq<Primitive>, SceneError>(ps@)
                    &&& forall|i: int| 0 <= i < ps@.len() ==> primitive_wf(#[trigger] ps@[i])
                },
                Err(e) => spec_from_csv(s@) == Err::<Seq<Primitive>, SceneError>(e),
            },
        decreases s@.len(),
    {
        let n = s.len();
        let c = crate::csv::find_byte_at(s, 10, 0);
        if c == n {
            let stripped: &[u8] = if n > 0 && s[n - 1] == 13 {
                vstd::slice::slice_subrange(s, 0, n - 1)
            } else {
                s
            };
            proof {
                if n > 0 && s@[n as int - 1] == 13 {
                    assert(stripped@ =~= strip_cr(s@));
                } else {
                    assert(stripped@ =~= strip_cr(s@));
                }
            }
            match Scene::parse_row(stripped) {
                Ok(Some(p)) => {
                    let mut out: Vec<Primitive> = Vec::new();
                    out.push(p);
                    proof {
                        assert(out@ =~= seq![p]);
                    }
                    Ok(out)
                },
                Ok(None) => {
                    let out: Vec<Primitive> = Vec::new();
                    proof {
                        assert(out@ =~= Seq::<Primitive>::empty());
                    }
                    Ok(out)
                },
                Err(e) => Err(e),
            }
        } else {
            let head = vstd::slice::slice_subrange(s, 0, c);
            let hn = head.len();
            let stripped: &[u8] = if hn > 0 && head[hn - 1] == 13 {
                vstd::slice::slice_subrange(head, 0, hn - 1)
            } else {
                head
            };
            let tail = vstd::slice::slice_subrange(s, c + 1, n);
            proof {
                assert(head@ =~= s@.subrange(0, c as int));
                assert(tail@ =~= s@.subrange(c as int + 1, n as int));
                assert(stripped@ =~= strip_cr(s@.subrange(0, c as int)));
            }
            match Scene::parse_row(stripped) {
                Err(e) => Err(e),
                Ok(opt) => match Scene::from_csv_rows(tail) {
                    Err(e) => Err(e),
                    Ok(mut rest) => match opt {
                        Some(p) => {
                            let ghost rv = rest@;
                            let mut out: Vec<Primitive> = Vec::new();
                            out.push(p);
                            out.append(&mut rest);
                            proof {
                                assert(out@ =~= seq![p] + rv);
                            }
                            Ok(out)
                        },
                        None => Ok(rest),
                    },
                },
            }
        }
    }

    /// Build a scene from comma-separated rows: one primitive per row, blank
    /// rows skipped, the first malformed row rejecting the whole sheet.
    pub fn from_csv(contents: &[u8]) -> (r: Result<Scene, SceneError>)
        ensures
            match r {
                Ok(sc) => {
                    &&& spec_from_csv(contents@) == Ok::<Seq<Primitive>, SceneError>(sc.objects@)
                    &&& sc.max_depth == DEPTH
                    &&& forall|i: int|
                        0 <= i < sc.objects@.len() ==> primitive_wf(#[trigger] sc.objects@[i])
                },
                Err(e) => spec_from_csv(contents@) == Err::<Seq<Primitive>, SceneError>(e),
            },
    {
        match Scene::from_csv_rows(contents) {
            Ok(objects) => Ok(Scene { objects, max_depth: DEPTH }),
            Err(e) => Err(e),
        }
    }

    /// Build a scene from a parsed description document: an object whose
    /// `items` list names each primitive. Construction stops at the first
    /// rejected item, with that item's error.
    pub fn from_json(data: &DocValue) -> (r: Result<Scene, SceneError>)
        ensures
            match r {
                Ok(s) => {
                    &&& spec_from_json(*data) == Ok::<Seq<Primitive>, SceneError>(s.objects@)
                    &&& s.max_depth == 1
                    &&& forall|i: int|
                        0 <= i < s.objects@.len() ==> primitive_wf(#[trigger] s.objects@[i])
                },
                Err(e) => spec_from_json(*data) == Err::<Seq<Primitive>, SceneError>(e),
            },
    {
        match data {
            DocValue::Object(entries) => match doc_get(entries, "items") {
                Some(DocValue::List(items)) => {
                    let mut objects: Vec<Primitive> = Vec::new();
                    let n = items.len();
                    let mut i: usize = 0;
                    proof {
                        assert(items@.take(0) =~= Seq::<DocValue>::empty());
                    }
                    while i < n
                        invariant
                            n == items@.len(),
                            0 <= i <= n,
                            objects@.len() == i,
                            *data == DocValue::Object(*entries),
                            doc_lookup(entries@, "items"@) == Some(DocValue::List(*items)),
                            spec_parse_items(items@.take(i as int)) == Ok::<
                                Seq<Primitive>,
                                SceneError,
                            >(objects@),
                            forall|j: int|
                                0 <= j < i ==> primitive_wf(#[trigger] objects@[j]),
                        decreases n - i,
                    {
                        proof {
                            assert(items@.take(i as int + 1).drop_last() =~= items@.take(i as int));
                            assert(items@.take(i as int + 1).last() == items@[i as int]);
                        }
                        match Scene::parse_item(&items[i]) {
                            Ok(p) => {
                                objects.push(p);
                            },
                            Err(e) => {
                                proof {
                                    assert(spec_parse_items(items@.take(i as int + 1)) == Err::<
                                        Seq<Primitive>,
                                        SceneError,
                                    >(e));
                                    lemma_parse_items_err(items@, i as int + 1, e);
                                    assert(doc_lookup(entries@, "items"@) == Some(
                                        DocValue::List(*items),
                                    ));
                                    assert(spec_from_json(*data) == Err::<
                                        Seq<Primitive>,
                                        SceneError,
                                    >(e));
                                }
                                return Err(e);
                            },
                        }
                        i = i + 1;
                    }
                    proof {
                        assert(items@.take(n as int) =~= items@);
                    }
                    Ok(Scene { objects, max_depth: 1 })
                },
                _ => Err(SceneError::BadValue),
            },
            _ => Err(SceneError::BadValue),
        }
    }

    /// A single-path variant of the traversal, kept for finer control: it
    /// follows one mirror bounce at a time (about the original ray) and
    /// returns the last nearest hit, testing with a black incoming colour.
    pub fn test_intersections_vec(&self, ray: Ray) -> (res: Intersection)
        requires
            scene_wf(*self),
            bounded(ray@.origin, MAX_POS as int),
            bounded(ray@.direction, 2_000_000),
        ensures
            matches_inter(res, vec_trace(*self, ray@, ray@, 0)),
    {
        self.vec_walk(&ray, ray, 0)
    }

    fn vec_walk(&self, orig: &Ray, cur: Ray, depth: u8) -> (res: Intersection)
        requires
            scene_wf(*self),
            depth <= self.max_depth,
            bounded(orig@.direction, 2_000_000),
            bounded(cur@.origin, MAX_POS as int),
            bounded(cur@.direction, 5_000_000),
        ensures
            matches_inter(res, vec_trace(*self, orig@, cur@, depth)),
        decreases self.max_depth - depth,
    {
        let ghost rr = cur@;
        let ghost hits = scene_results_with(*self, rr, sc_gray(0));
        let mut results: Vec<TestIntersectionResult> = Vec::new();
        let n = self.objects.len();
        let mut i: usize = 0;
        while i < n
            invariant
                n == self.objects@.len(),
                0 <= i <= n,
                results@.len() == i,
                scene_wf(*self),
                bounded(rr.origin, MAX_POS as int),
                bounded(rr.direction, MAX_DIR as int),
                hits == scene_results_with(*self, rr, sc_gray(0)),
                cur@ == rr,
                forall|j: int| 0 <= j < i ==> matches_hit(#[trigger] results@[j], hits[j]),
                forall|j: int| 0 <= j < i ==> tir_wf(#[trigger] results@[j], MAX_POS as int),
            decreases n - i,
        {
            let t = self.objects[i].test_intersection(&cur, Colour::from_gray(0));
            results.push(t);
            i = i + 1;
        }
        let mut best = results[0];
        let ghost mut bi: int = 0;
        proof {
            assert(hits.take(1).len() == 1);
            assert(min_hit_idx_first(hits.take(1)) == 0);
            assert(hits.take(1)[0] == hits[0]);
        }
        let mut k: usize = 1;
        while k < n
            invariant
                n == results@.len(),
                n == hits.len(),
                1 <= k <= n,
                0 <= bi < k,
                bi == min_hit_idx_first(hits.take(k as int)),
                matches_hit(best, hits[bi]),
                tir_wf(best, MAX_POS as int),
                forall|j: int| 0 <= j < n ==> matches_hit(#[trigger] results@[j], hits[j]),
                forall|j: int| 0 <= j < n ==> tir_wf(#[trigger] results@[j], MAX_POS as int),
            decreases n - k,
        {
            proof {
                assert(hits.take(k as int + 1).drop_last() =~= hits.take(k as int));
                assert(hits.take(k as int + 1).last() == hits[k as int]);
                assert(hits.take(k as int)[bi] == hits[bi]);
            }
            let earlier = dist_le_check(best.0.distance, results[k].0.distance);
            let later = dist_le_check(results[k].0.distance, best.0.distance);
            if later && !earlier {
                best = results[k];
                proof {
                    bi = k as int;
                }
            }
            k = k + 1;
        }
        proof {
            assert(hits.take(n as int) =~= hits);
        }
        if let Some(normal_ray) = best.0.normal {
            if depth < self.max_depth {
                let bounce = crate::common_maths::maths::reflected_ray(&normal_ray, orig);
                return self.vec_walk(orig, bounce, depth + 1);
            }
        }
        best.0
    }
}

} // verus!
