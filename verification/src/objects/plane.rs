//! Ray–plane intersection and in-plane coordinates.
//!
//! A plane is built from three points `A`, `B`, `C`: its unit normal is the
//! normalized cross product of the spanning edges, and a solver (the
//! adjugate rows and determinant of the matrix with columns `B`, `C`, `A`)
//! is precomputed so a hit point `p` can be resolved into coefficients
//! `(i, j, k)` with `p = i*B + j*C + k*A`; bounded shapes test those
//! coefficients. A singular matrix leaves the solver out, and such planes
//! resolve no coordinates.

use vstd::prelude::*;

use crate::colour::{sc_gray, Colour};
use crate::fixed::{iabs, tdiv, EPS, ONE};
use crate::fixed;
use crate::intersect::{matches_hit, miss_hit, tir_wf, Intersection, SpecHit, TestIntersectionResult};
use crate::objects::{MAX_COORD, MAX_DIR, MAX_POS};
use crate::renderer::{ray_bounded, sr_at_point, R3, Ray};
use crate::surfaces::specular::Specular;
use crate::surfaces::{surface_wf, Surface};
use crate::vec3::{bounded, sv_add, sv_cross_fx, sv_cross_raw, sv_dot_fx, sv_dot_raw, sv_is_zero, sv_normalize, sv_scale_fx, sv_sub, V3, Vec3};
use crate::vec3;

verus! {

/// A plane hit farther out than this per component is dropped as degenerate
/// (a grazing ray resolving to a far-off point).
pub const PT_RANGE: i64 = 100_000_000_000;

/// A plane hit parameter beyond this is dropped as degenerate.
pub const T_RANGE: i64 = 500_000_000_000_000;

/// An in-plane coefficient beyond this is not resolved (far outside any
/// bounded shape either way).
pub const W_RANGE: i64 = 1_000_000_000_000_000;

/// Adjugate rows and determinant of the matrix with columns `B`, `C`, `A`,
/// at the raw scale of coordinate products.
#[derive(Clone, Copy, Debug, PartialEq, Eq, Structural)]
pub struct PlaneSolver {
    pub ix: i128,
    pub iy: i128,
    pub iz: i128,
    pub jx: i128,
    pub jy: i128,
    pub jz: i128,
    pub kx: i128,
    pub ky: i128,
    pub kz: i128,
    pub det: i128,
}

#[derive(Clone, Copy, Debug, PartialEq, Eq, Structural)]
pub struct Plane {
    pub normal: Vec3,
    pub x_basis: Vec3,
    pub y_basis: Vec3,
    pub k: i64,
    pub origin: Vec3,
    pub inverse: Option<PlaneSolver>,
    pub surface: Surface,
}

/// First column of the solve matrix: the construction point `B`.
pub open spec fn pl_c1(p: Plane) -> V3 {
    sv_add(p.x_basis@, p.origin@)
}

/// Second column: the construction point `C`.
pub open spec fn pl_c2(p: Plane) -> V3 {
    sv_add(p.y_basis@, p.origin@)
}

/// Third column: the construction point `A`.
pub open spec fn pl_c3(p: Plane) -> V3 {
    p.origin@
}

pub open spec fn pl_det(p: Plane) -> int {
    sv_dot_raw(pl_c1(p), sv_cross_raw(pl_c2(p), pl_c3(p)))
}

pub open spec fn pl_row_i(p: Plane) -> V3 {
    sv_cross_raw(pl_c2(p), pl_c3(p))
}

pub open spec fn pl_row_j(p: Plane) -> V3 {
    sv_cross_raw(pl_c3(p), pl_c1(p))
}

pub open spec fn pl_row_k(p: Plane) -> V3 {
    sv_cross_raw(pl_c1(p), pl_c2(p))
}

/// The stored solver is the adjugate and determinant of the plane's own
/// matrix, and is absent exactly when that matrix is singular.
pub open spec fn solver_wf(p: Plane) -> bool {
    match p.inverse {
        Some(m) => {
            &&& pl_det(p) != 0
            &&& m.det as int == pl_det(p)
            &&& (V3 { x: m.ix as int, y: m.iy as int, z: m.iz as int }) == pl_row_i(p)
            &&& (V3 { x: m.jx as int, y: m.jy as int, z: m.jz as int }) == pl_row_j(p)
            &&& (V3 { x: m.kx as int, y: m.ky as int, z: m.kz as int }) == pl_row_k(p)
        },
        None => pl_det(p) == 0,
    }
}

/// Geometry within scene bounds, a unit-or-zero normal, a faithful solver,
/// and a sound surface.
pub open spec fn plane_wf(p: Plane) -> bool {
    &&& bounded(p.origin@, MAX_COORD as int)
    &&& bounded(p.x_basis@, 2 * MAX_COORD as int)
    &&& bounded(p.y_basis@, 2 * MAX_COORD as int)
    &&& bounded(p.normal@, ONE as int)
    &&& solver_wf(p)
    &&& surface_wf(p.surface)
}

/// Denominator of the hit solve: how fast the ray closes on the plane.
pub open spec fn pl_den(p: Plane, r: R3) -> int {
    sv_dot_raw(r.direction, p.normal@)
}

pub open spec fn pl_num(p: Plane, r: R3) -> int {
    sv_dot_raw(sv_sub(p.origin@, r.origin), p.normal@)
}

/// Ray parameter of the plane hit.
pub open spec fn pl_t(p: Plane, r: R3) -> int {
    tdiv(pl_num(p, r) * ONE as int, pl_den(p, r))
}

pub open spec fn pl_pt(p: Plane, r: R3) -> V3 {
    sr_at_point(r, pl_t(p, r))
}

/// The ray hits: not parallel (denominator nonzero), the plane not behind
/// the origin, and the hit point within the degenerate-geometry cutoffs.
pub open spec fn pl_hits(p: Plane, r: R3) -> bool {
    &&& pl_den(p, r) != 0
    &&& 0 <= pl_t(p, r) <= T_RANGE
    &&& bounded(pl_pt(p, r), PT_RANGE as int)
}

/// The model outcome of testing a ray against a plane: a half grey at the
/// hit parameter, bouncing along the plane's normal from a hit point pushed
/// a little off the surface along that normal.
pub open spec fn plane_spec(p: Plane, r: R3) -> SpecHit {
    if pl_hits(p, r) {
        SpecHit {
            colour: sc_gray(ONE as int / 2),
            distance: Some(pl_t(p, r)),
            normal: Some(
                R3 {
                    origin: sv_add(pl_pt(p, r), sv_scale_fx(p.normal@, EPS as int)),
                    direction: sv_normalize(p.normal@),
                },
            ),
            surface: Some(p.surface),
        }
    } else {
        miss_hit()
    }
}

/// The in-plane coefficients of a point: the adjugate rows applied to it,
/// over the determinant.
pub open spec fn ipc_w(p: Plane, pt: V3) -> V3 {
    V3 {
        x: tdiv(sv_dot_raw(pl_row_i(p), pt) * ONE as int, pl_det(p)),
        y: tdiv(sv_dot_raw(pl_row_j(p), pt) * ONE as int, pl_det(p)),
        z: tdiv(sv_dot_raw(pl_row_k(p), pt) * ONE as int, pl_det(p)),
    }
}

/// The adjugate rows of a within-bounds plane stay within the scale of one
/// coordinate product.
pub proof fn lemma_rows_bounded(p: Plane)
    requires
        bounded(p.origin@, MAX_COORD as int),
        bounded(p.x_basis@, 2 * MAX_COORD as int),
        bounded(p.y_basis@, 2 * MAX_COORD as int),
    ensures
        bounded(pl_c1(p), 3 * MAX_COORD as int),
        bounded(pl_c2(p), 3 * MAX_COORD as int),
        bounded(pl_c3(p), 3 * MAX_COORD as int),
        bounded(pl_row_i(p), 18_000_000_000_000_000_000),
        bounded(pl_row_j(p), 18_000_000_000_000_000_000),
        bounded(pl_row_k(p), 18_000_000_000_000_000_000),
{
    lemma_cross_raw_bounded(pl_c2(p), pl_c3(p), 3_000_000_000);
    lemma_cross_raw_bounded(pl_c3(p), pl_c1(p), 3_000_000_000);
    lemma_cross_raw_bounded(pl_c1(p), pl_c2(p), 3_000_000_000);
    assert(2 * (3_000_000_000int * 3_000_000_000) == 18_000_000_000_000_000_000int);
}

/// All nine coordinate products of a pair of in-bounds points fit well
/// inside the wide scalars.
proof fn lemma_pair_products(a: V3, b: V3)
    requires
        bounded(a, 1_000_000_000),
        bounded(b, 1_000_000_000),
    ensures
        iabs(a.x * b.x) <= 1_000_000_000_000_000_000,
        iabs(a.x * b.y) <= 1_000_000_000_000_000_000,
        iabs(a.x * b.z) <= 1_000_000_000_000_000_000,
        iabs(a.y * b.x) <= 1_000_000_000_000_000_000,
        iabs(a.y * b.y) <= 1_000_000_000_000_000_000,
        iabs(a.y * b.z) <= 1_000_000_000_000_000_000,
        iabs(a.z * b.x) <= 1_000_000_000_000_000_000,
        iabs(a.z * b.y) <= 1_000_000_000_000_000_000,
        iabs(a.z * b.z) <= 1_000_000_000_000_000_000,
{
    fixed::lemma_mul_bound(a.x, b.x, 1_000_000_000, 1_000_000_000);
    fixed::lemma_mul_bound(a.x, b.y, 1_000_000_000, 1_000_000_000);
    fixed::lemma_mul_bound(a.x, b.z, 1_000_000_000, 1_000_000_000);
    fixed::lemma_mul_bound(a.y, b.x, 1_000_000_000, 1_000_000_000);
    fixed::lemma_mul_bound(a.y, b.y, 1_000_000_000, 1_000_000_000);
    fixed::lemma_mul_bound(a.y, b.z, 1_000_000_000, 1_000_000_000);
    fixed::lemma_mul_bound(a.z, b.x, 1_000_000_000, 1_000_000_000);
    fixed::lemma_mul_bound(a.z, b.y, 1_000_000_000, 1_000_000_000);
    fixed::lemma_mul_bound(a.z, b.z, 1_000_000_000, 1_000_000_000);
}

/// Componentwise bound on a raw cross product.
pub proof fn lemma_cross_raw_bounded(a: V3, b: V3, m: int)
    requires
        bounded(a, m),
        bounded(b, m),
        0 <= m,
    ensures
        bounded(sv_cross_raw(a, b), 2 * (m * m)),
{
    fixed::lemma_mul_bound(a.y, b.z, m, m);
    fixed::lemma_mul_bound(a.z, b.y, m, m);
    fixed::lemma_mul_bound(a.z, b.x, m, m);
    fixed::lemma_mul_bound(a.x, b.z, m, m);
    fixed::lemma_mul_bound(a.x, b.y, m, m);
    fixed::lemma_mul_bound(a.y, b.x, m, m);
}

impl Plane {
    /// The plane through `a`, `b`, `c`, with the default mirror surface.
    pub fn from_3_points(a: &Vec3, b: &Vec3, c: &Vec3) -> (p: Plane)
        requires
            bounded(a@, MAX_COORD as int),
            bounded(b@, MAX_COORD as int),
            bounded(c@, MAX_COORD as int),
        ensures
            p == plane_of(a@, b@, c@, crate::surfaces::default_specular()),
            plane_wf(p),
    {
        Plane::from_3_points_and_surface(a, b, c, Surface::Specular(Specular::new()))
    }

    /// The plane through `a`, `b`, `c`, carrying the given surface.
    pub fn from_3_points_and_surface(a: &Vec3, b: &Vec3, c: &Vec3, surface: Surface) -> (p: Plane)
        requires
            bounded(a@, MAX_COORD as int),
            bounded(b@, MAX_COORD as int),
            bounded(c@, MAX_COORD as int),
        ensures
            p == plane_of(a@, b@, c@, surface),
            surface_wf(surface) ==> plane_wf(p),
    {
        let x_basis = b.sub(a);
        let y_basis = c.sub(a);
        proof {
            let m: int = 2 * MAX_COORD as int;
            fixed::lemma_mul_bound(x_basis@.y, y_basis@.z, m, m);
            fixed::lemma_mul_bound(x_basis@.z, y_basis@.y, m, m);
            fixed::lemma_mul_bound(x_basis@.z, y_basis@.x, m, m);
            fixed::lemma_mul_bound(x_basis@.x, y_basis@.z, m, m);
            fixed::lemma_mul_bound(x_basis@.x, y_basis@.y, m, m);
            fixed::lemma_mul_bound(x_basis@.y, y_basis@.x, m, m);
            fixed::lemma_tdiv_bound(x_basis@.y * y_basis@.z - x_basis@.z * y_basis@.y, ONE as int, 8_000_000_000_000);
            fixed::lemma_tdiv_bound(x_basis@.z * y_basis@.x - x_basis@.x * y_basis@.z, ONE as int, 8_000_000_000_000);
            fixed::lemma_tdiv_bound(x_basis@.x * y_basis@.y - x_basis@.y * y_basis@.x, ONE as int, 8_000_000_000_000);
        }
        let cross = x_basis.cross_fx(&y_basis);
        let normal = if cross.is_zero() {
            Vec3::new(0, 0, 0)
        } else {
            cross.normalize()
        };
        proof {
            if !sv_is_zero(cross@) {
                vec3::lemma_norm_zero(cross@);
                vec3::lemma_normalize_bounded(cross@);
            }
            vec3::lemma_dot_raw_fits(normal@, a@, ONE as int, MAX_COORD as int);
        }
        let k = normal.dot_fx(a);
        // The solver: adjugate rows and determinant of the matrix with
        // columns `b`, `c`, `a`.
        let ax = a.x as i128;
        let ay = a.y as i128;
        let az = a.z as i128;
        let bx = b.x as i128;
        let by = b.y as i128;
        let bz = b.z as i128;
        let cx = c.x as i128;
        let cy = c.y as i128;
        let cz = c.z as i128;
        proof {
            lemma_pair_products(c@, a@);
            lemma_pair_products(a@, b@);
            lemma_pair_products(b@, c@);
        }
        let ix = cy * az - cz * ay;
        let iy = cz * ax - cx * az;
        let iz = cx * ay - cy * ax;
        let jx = ay * bz - az * by;
        let jy = az * bx - ax * bz;
        let jz = ax * by - ay * bx;
        let kx = by * cz - bz * cy;
        let ky = bz * cx - bx * cz;
        let kz = bx * cy - by * cx;
        proof {
            lemma_cross_raw_bounded(c@, a@, 1_000_000_000);
            lemma_cross_raw_bounded(a@, b@, 1_000_000_000);
            lemma_cross_raw_bounded(b@, c@, 1_000_000_000);
            assert(2 * (1_000_000_000int * 1_000_000_000) == 2_000_000_000_000_000_000int);
            vec3::lemma_dot_raw_fits(b@, sv_cross_raw(c@, a@), 1_000_000_000, 2_000_000_000_000_000_000);
        }
        let det = bx * ix + by * iy + bz * iz;
        let inverse = if det == 0 {
            None
        } else {
            Some(PlaneSolver { ix, iy, iz, jx, jy, jz, kx, ky, kz, det })
        };
        let p = Plane { normal, x_basis, y_basis, k, origin: *a, inverse, surface };
        proof {
            assert(pl_c1(p) == b@);
            assert(pl_c2(p) == c@);
            assert(pl_c3(p) == a@);
        }
        p
    }

    /// The plane through `a`, `b`, `c` without the coordinate solver: it
    /// intersects rays but resolves no in-plane coordinates.
    pub fn from_3_points_no_inverse(a: &Vec3, b: &Vec3, c: &Vec3) -> (p: Plane)
        requires
            bounded(a@, MAX_COORD as int),
            bounded(b@, MAX_COORD as int),
            bounded(c@, MAX_COORD as int),
        ensures
            p == (Plane { inverse: None, ..plane_of(a@, b@, c@, crate::surfaces::default_specular()) }),
            bounded(p.origin@, MAX_COORD as int),
            bounded(p.normal@, ONE as int),
    {
        let solved = Plane::from_3_points(a, b, c);
        Plane { inverse: None, ..solved }
    }

    /// Resolve a point into the plane's own coordinates; `None` when the
    /// matrix is singular or a coefficient lands beyond `W_RANGE`.
    pub fn in_plane_coords(&self, point: &Vec3) -> (r: Option<Vec3>)
        requires
            plane_wf(*self),
            bounded(point@, 110_000_000_000),
        ensures
            r is Some <==> (self.inverse is Some && bounded(ipc_w(*self, point@), W_RANGE as int)),
            r matches Some(v) ==> v@ == ipc_w(*self, point@),
    {
        match self.inverse {
            None => None,
            Some(m) => {
                proof {
                    lemma_rows_bounded(*self);
                    let rb: int = 18_000_000_000_000_000_000;
                    let pb: int = 110_000_000_000;
                    vec3::lemma_dot_raw_fits(pl_row_i(*self), point@, rb, pb);
                    vec3::lemma_dot_raw_fits(pl_row_j(*self), point@, rb, pb);
                    vec3::lemma_dot_raw_fits(pl_row_k(*self), point@, rb, pb);
                    fixed::lemma_tdiv_char(sv_dot_raw(pl_row_i(*self), point@) * ONE as int, pl_det(*self));
                    fixed::lemma_tdiv_char(sv_dot_raw(pl_row_j(*self), point@) * ONE as int, pl_det(*self));
                    fixed::lemma_tdiv_char(sv_dot_raw(pl_row_k(*self), point@) * ONE as int, pl_det(*self));
                }
                let px = point.x as i128;
                let py = point.y as i128;
                let pz = point.z as i128;
                let ni = m.ix * px + m.iy * py + m.iz * pz;
                let nj = m.jx * px + m.jy * py + m.jz * pz;
                let nk = m.kx * px + m.ky * py + m.kz * pz;
                let wi = fixed::div_i128(ni * (ONE as i128), m.det);
                let wj = fixed::div_i128(nj * (ONE as i128), m.det);
                let wk = fixed::div_i128(nk * (ONE as i128), m.det);
                let range = W_RANGE as i128;
                if wi > range || wi < -range || wj > range || wj < -range || wk > range || wk
                    < -range {
                    None
                } else {
                    Some(Vec3::new(wi as i64, wj as i64, wk as i64))
                }
            },
        }
    }

    /// Test a ray against this plane.
    pub fn test_intersection(&self, ray: &Ray, _incoming: Colour) -> (res: TestIntersectionResult)
        requires
            plane_wf(*self),
            ray_bounded(ray@, MAX_POS as int, MAX_DIR as int),
        ensures
            matches_hit(res, plane_spec(*self, ray@)),
            tir_wf(res, MAX_POS as int),
    {
        let ghost rr = ray@;
        proof {
            vec3::lemma_dot_raw_fits(rr.direction, self.normal@, MAX_DIR as int, ONE as int);
        }
        let den = ray.direction.dot_raw(&self.normal);
        if den == 0 {
            return TestIntersectionResult(
                Intersection::new(Colour::from_gray(0), None, None),
                None,
            );
        }
        let diff = self.origin.sub(&ray.origin);
        proof {
            vec3::lemma_dot_raw_fits(sv_sub(self.origin@, rr.origin), self.normal@, 200_000_000_000_000, ONE as int);
        }
        let num = diff.dot_raw(&self.normal);
        proof {
            fixed::lemma_mul_bound(
                pl_num(*self, rr),
                ONE as int,
                600_000_000_000_000_000_000,
                1_000_000,
            );
        }
        let t_wide = fixed::div_i128(num * (ONE as i128), den);
        if t_wide < 0 || t_wide > T_RANGE as i128 {
            return TestIntersectionResult(
                Intersection::new(Colour::from_gray(0), None, None),
                None,
            );
        }
        let t = t_wide as i64;
        proof {
            fixed::lemma_mul_bound(rr.direction.x, pl_t(*self, rr), MAX_DIR as int, T_RANGE as int);
            fixed::lemma_mul_bound(rr.direction.y, pl_t(*self, rr), MAX_DIR as int, T_RANGE as int);
            fixed::lemma_mul_bound(rr.direction.z, pl_t(*self, rr), MAX_DIR as int, T_RANGE as int);
        }
        let pt = ray.at_point(t);
        if pt.x > PT_RANGE || pt.x < -PT_RANGE || pt.y > PT_RANGE || pt.y < -PT_RANGE || pt.z
            > PT_RANGE || pt.z < -PT_RANGE {
            return TestIntersectionResult(
                Intersection::new(Colour::from_gray(0), None, None),
                None,
            );
        }
        proof {
            // A nonzero denominator needs a nonzero normal.
            if sv_is_zero(self.normal@) {
                assert(pl_den(*self, rr) == 0) by (nonlinear_arith)
                    requires
                        pl_den(*self, rr) == sv_dot_raw(rr.direction, self.normal@),
                        self.normal@.x == 0,
                        self.normal@.y == 0,
                        self.normal@.z == 0;
            }
            vec3::lemma_norm_zero(self.normal@);
            fixed::lemma_mul_bound(self.normal@.x, EPS as int, ONE as int, EPS as int);
            fixed::lemma_mul_bound(self.normal@.y, EPS as int, ONE as int, EPS as int);
            fixed::lemma_mul_bound(self.normal@.z, EPS as int, ONE as int, EPS as int);
            fixed::lemma_tdiv_bound(self.normal@.x * EPS as int, ONE as int, EPS as int);
            fixed::lemma_tdiv_bound(self.normal@.y * EPS as int, ONE as int, EPS as int);
            fixed::lemma_tdiv_bound(self.normal@.z * EPS as int, ONE as int, EPS as int);
        }
        let off = self.normal.scale_fx(EPS);
        let bounce_from = pt.add(&off);
        let normal_ray = Ray::new(bounce_from, self.normal);
        let half = fixed::div_i128(ONE as i128, 2);
        proof {
            fixed::lemma_tdiv_char(ONE as int, 2);
        }
        TestIntersectionResult(
            Intersection::new(Colour::from_gray(half as i64), Some(t), Some(normal_ray)),
            Some(self.surface),
        )
    }
}

/// The plane the constructors build over points `a`, `b`, `c`: the spanning
/// edges, the normalized cross product (zero when the points are collinear),
/// the plane constant, and the solver for the matrix with columns `b`, `c`,
/// `a` (absent when singular).
pub open spec fn plane_of(a: V3, b: V3, c: V3, surface: Surface) -> Plane {
    let xb = sv_sub(b, a);
    let yb = sv_sub(c, a);
    let cross = sv_cross_fx(xb, yb);
    let normal = if sv_is_zero(cross) {
        V3 { x: 0, y: 0, z: 0 }
    } else {
        sv_normalize(cross)
    };
    let row_i = sv_cross_raw(c, a);
    let row_j = sv_cross_raw(a, b);
    let row_k = sv_cross_raw(b, c);
    let det = sv_dot_raw(b, row_i);
    Plane {
        normal: Vec3 { x: normal.x as i64, y: normal.y as i64, z: normal.z as i64 },
        x_basis: Vec3 { x: xb.x as i64, y: xb.y as i64, z: xb.z as i64 },
        y_basis: Vec3 { x: yb.x as i64, y: yb.y as i64, z: yb.z as i64 },
        k: sv_dot_fx(normal, a) as i64,
        origin: Vec3 { x: a.x as i64, y: a.y as i64, z: a.z as i64 },
        inverse: if det == 0 {
            None
        } else {
            Some(
                PlaneSolver {
                    ix: row_i.x as i128,
                    iy: row_i.y as i128,
                    iz: row_i.z as i128,
                    jx: row_j.x as i128,
                    jy: row_j.y as i128,
                    jz: row_j.z as i128,
                    kx: row_k.x as i128,
                    ky: row_k.y as i128,
                    kz: row_k.z as i128,
                    det: det as i128,
                },
            )
        },
        surface,
    }
}

} // verus!
