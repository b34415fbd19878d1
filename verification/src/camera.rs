//! The camera: one ray per pixel, handed to the scene.
//!
//! A pixel maps to a normalized image-plane offset in `[-1, 1]` per axis;
//! the offset is combined with the camera's facing direction and cast as a
//! normalized ray. The horizontal facing angle is never materialized: its
//! cosine and sine come straight from the facing direction's `x` and `y`
//! components over their planar length.

use vstd::prelude::*;

use crate::colour::{sc_gray, Colour};
use crate::fixed::{iabs, sqrt_floor, tdiv, ONE};
use crate::fixed;
use crate::intersect::TestIntersectionResult;
use crate::objects::MAX_POS;
use crate::renderer::{R3, Ray};
use crate::scene::{render_rel, scene_wf, Scene};
use crate::vec3::{bounded, sv_add, sv_is_zero, sv_normalize, V3, Vec3};
use crate::vec3;

verus! {

pub struct Camera {
    pub location: Ray,
    pub width: u32,
    pub height: u32,
}

/// A camera the renderer accepts: a nonempty image, a position within scene
/// bounds, and a facing whose planar part is at most two thousand units long
/// (stated on the square, so that rotations — which never lengthen it — keep
/// a camera well-formed).
pub open spec fn camera_wf(c: Camera) -> bool {
    let d = c.location@.direction;
    &&& 1 <= c.width
    &&& 1 <= c.height
    &&& bounded(c.location@.origin, 1_000_000_000)
    &&& d.x * d.x + d.y * d.y <= 4_000_000_000_000_000_000
    &&& iabs(d.z) <= 2_000_000_000
}

/// A well-formed camera's facing components are each within two thousand
/// units.
pub proof fn lemma_camera_direction_bounded(c: Camera)
    requires
        camera_wf(c),
    ensures
        bounded(c.location@.direction, 2_000_000_000),
{
    let d = c.location@.direction;
    assert(iabs(d.x) <= 2_000_000_000 && iabs(d.y) <= 2_000_000_000) by (nonlinear_arith)
        requires d.x * d.x + d.y * d.y <= 4_000_000_000_000_000_000;
}

/// Planar length of the facing direction.
pub open spec fn cam_r_xy(d: V3) -> int {
    sqrt_floor(d.x * d.x + d.y * d.y)
}

/// Cosine of the horizontal facing angle (one when the facing is vertical).
pub open spec fn cam_cos(d: V3) -> int {
    if cam_r_xy(d) == 0 {
        ONE as int
    } else {
        tdiv(d.x * ONE as int, cam_r_xy(d))
    }
}

/// Sine of the horizontal facing angle (zero when the facing is vertical).
pub open spec fn cam_sin(d: V3) -> int {
    if cam_r_xy(d) == 0 {
        0
    } else {
        tdiv(d.y * ONE as int, cam_r_xy(d))
    }
}

/// Horizontal screen offset of pixel column `x`, in `[-1, 1]`.
pub open spec fn cam_xnorm(width: u32, x: u32) -> int {
    tdiv(-2 * x * ONE as int, width as int) + ONE as int
}

/// Vertical screen offset of pixel row `y`, in `[-1, 1]`.
pub open spec fn cam_ynorm(height: u32, y: u32) -> int {
    tdiv(2 * y * ONE as int, height as int) - ONE as int
}

/// The image-plane offset of pixel `(x, y)`, rotated into the camera's
/// horizontal frame.
pub open spec fn cam_pixel_dir(c: Camera, x: u32, y: u32) -> V3 {
    let d = c.location@.direction;
    V3 {
        x: -tdiv(cam_ynorm(c.height, y) * cam_sin(d), ONE as int),
        y: tdiv(cam_ynorm(c.height, y) * cam_cos(d), ONE as int),
        z: cam_xnorm(c.width, x),
    }
}

/// What a rendered pixel may hold: black when the pixel's ray degenerates to
/// a zero direction, else the colour of some outcome the render relation
/// admits for that ray at depth zero; either way displayable, components in
/// `[0, ONE]`.
pub open spec fn pixel_rel(c: Camera, s: Scene, x: u32, y: u32, col: Colour) -> bool {
    let d = sv_add(cam_pixel_dir(c, x, y), c.location@.direction);
    &&& crate::colour::cwf(col@)
    &&& if sv_is_zero(d) {
        col@ == sc_gray(0)
    } else {
        exists|res: TestIntersectionResult|
            {
                &&& #[trigger] render_rel(
                    s,
                    R3 { origin: c.location@.origin, direction: sv_normalize(d) },
                    0,
                    res,
                )
                &&& col == res.0.colour
            }
    }
}

/// The cosine/sine pair of the horizontal facing angle, in fixed point.
fn direction_horizontal(d: &Vec3) -> (r: (i64, i64))
    requires
        bounded(d@, 2_000_000_000),
    ensures
        r.0 == cam_cos(d@),
        r.1 == cam_sin(d@),
        iabs(r.0 as int) <= ONE as int,
        iabs(r.1 as int) <= ONE as int,
{
    proof {
        fixed::lemma_mul_bound(d@.x, d@.x, 2_000_000_000, 2_000_000_000);
        fixed::lemma_mul_bound(d@.y, d@.y, 2_000_000_000, 2_000_000_000);
        assert(d@.x * d@.x >= 0 && d@.y * d@.y >= 0) by (nonlinear_arith);
    }
    let sq: i128 = (d.x as i128) * (d.x as i128) + (d.y as i128) * (d.y as i128);
    let r = fixed::isqrt_u128(sq as u128);
    if r == 0 {
        proof {
            fixed::lemma_tdiv_char(ONE as int, 1);
        }
        (ONE, 0)
    } else {
        proof {
            let rr = cam_r_xy(d@);
            assert((r as int) * (r as int) <= 8_000_000_000_000_000_000);
            assert(r as int <= 3_000_000_000) by (nonlinear_arith)
                requires (r as int) * (r as int) <= 8_000_000_000_000_000_000, r as int >= 0;
            fixed::lemma_sqrt_square(iabs(d@.x));
            assert(iabs(d@.x) * iabs(d@.x) == d@.x * d@.x) by (nonlinear_arith);
            fixed::lemma_sqrt_monotonic(iabs(d@.x) * iabs(d@.x), d@.x * d@.x + d@.y * d@.y);
            fixed::lemma_sqrt_square(iabs(d@.y));
            assert(iabs(d@.y) * iabs(d@.y) == d@.y * d@.y) by (nonlinear_arith);
            fixed::lemma_sqrt_monotonic(iabs(d@.y) * iabs(d@.y), d@.x * d@.x + d@.y * d@.y);
            assert(iabs(d@.x * ONE as int) <= ONE as int * iabs(rr)) by (nonlinear_arith)
                requires iabs(d@.x) <= rr, rr >= 1;
            fixed::lemma_tdiv_bound(d@.x * ONE as int, rr, ONE as int);
            assert(iabs(d@.y * ONE as int) <= ONE as int * iabs(rr)) by (nonlinear_arith)
                requires iabs(d@.y) <= rr, rr >= 1;
            fixed::lemma_tdiv_bound(d@.y * ONE as int, rr, ONE as int);
        }
        let c = fixed::div_i128((d.x as i128) * (ONE as i128), r as i128) as i64;
        let s = fixed::div_i128((d.y as i128) * (ONE as i128), r as i128) as i64;
        (c, s)
    }
}

impl Camera {
    /// Render the scene once: one ray per pixel, the resulting colours in a
    /// `width` by `height` buffer.
    pub fn create_buffer(&self, scene: &Scene) -> (buffer: Vec<Vec<Colour>>)
        requires
            camera_wf(*self),
            scene_wf(*scene),
        ensures
            buffer@.len() == self.width,
            forall|x: int| 0 <= x < buffer@.len() ==> (#[trigger] buffer@[x])@.len() == self.height,
            forall|x: int, y: int|
                0 <= x < buffer@.len() && 0 <= y < buffer@[x]@.len() ==> pixel_rel(
                    *self,
                    *scene,
                    x as u32,
                    y as u32,
                    #[trigger] buffer@[x]@[y],
                ),
    {
        proof {
            lemma_camera_direction_bounded(*self);
        }
        let (cos_h, sin_h) = direction_horizontal(&self.location.direction);
        let mut buffer: Vec<Vec<Colour>> = Vec::new();
        let mut x: u32 = 0;
        while x < self.width
            invariant
                camera_wf(*self),
                bounded(self.location@.direction, 2_000_000_000),
                scene_wf(*scene),
                0 <= x <= self.width,
                buffer@.len() == x,
                cos_h == cam_cos(self.location@.direction),
                sin_h == cam_sin(self.location@.direction),
                iabs(cos_h as int) <= ONE as int,
                iabs(sin_h as int) <= ONE as int,
                forall|i: int| 0 <= i < buffer@.len() ==> (#[trigger] buffer@[i])@.len() == self.height,
                forall|i: int, j: int|
                    0 <= i < buffer@.len() && 0 <= j < buffer@[i]@.len() ==> pixel_rel(
                        *self,
                        *scene,
                        i as u32,
                        j as u32,
                        #[trigger] buffer@[i]@[j],
                    ),
            decreases self.width - x,
        {
            let x_norm = fixed::div_i128(
                -2 * (x as i128) * (ONE as i128),
                self.width as i128,
            ) as i64 + ONE;
            proof {
                fixed::lemma_tdiv_bound(-2 * (x as int) * (ONE as int), self.width as int, 2 * ONE as int);
                assert(iabs(-2 * (x as int) * (ONE as int)) <= 2 * ONE as int * (self.width as int))
                    by (nonlinear_arith)
                    requires 0 <= x as int <= self.width as int, 1 <= self.width as int;
            }
            let mut row: Vec<Colour> = Vec::new();
            let mut y: u32 = 0;
            while y < self.height
                invariant
                    camera_wf(*self),
                    bounded(self.location@.direction, 2_000_000_000),
                    scene_wf(*scene),
                    0 <= y <= self.height,
                    row@.len() == y,
                    cos_h == cam_cos(self.location@.direction),
                    sin_h == cam_sin(self.location@.direction),
                    iabs(cos_h as int) <= ONE as int,
                    iabs(sin_h as int) <= ONE as int,
                    x < self.width,
                    x_norm as int == cam_xnorm(self.width, x),
                    iabs(x_norm as int) <= 3 * ONE as int,
                    forall|j: int|
                        0 <= j < row@.len() ==> pixel_rel(
                            *self,
                            *scene,
                            x,
                            j as u32,
                            #[trigger] row@[j],
                        ),
                decreases self.height - y,
            {
                proof {
                    assert(iabs(2 * (y as int) * (ONE as int)) <= 2 * ONE as int * (self.height as int))
                        by (nonlinear_arith)
                        requires 0 <= y as int <= self.height as int, 1 <= self.height as int;
                    fixed::lemma_tdiv_bound(2 * (y as int) * (ONE as int), self.height as int, 2 * ONE as int);
                }
                let y_norm = fixed::div_i128(
                    2 * (y as i128) * (ONE as i128),
                    self.height as i128,
                ) as i64 - ONE;
                proof {
                    fixed::lemma_mul_bound(y_norm as int, cam_sin(self.location@.direction), 3 * ONE as int, ONE as int);
                    fixed::lemma_mul_bound(y_norm as int, cam_cos(self.location@.direction), 3 * ONE as int, ONE as int);
                    fixed::lemma_tdiv_bound(y_norm as int * cam_sin(self.location@.direction), ONE as int, 3 * ONE as int);
                    fixed::lemma_tdiv_bound(y_norm as int * cam_cos(self.location@.direction), ONE as int, 3 * ONE as int);
                }
                let px = -(fixed::div_i128((y_norm as i128) * (sin_h as i128), ONE as i128) as i64);
                let py = fixed::div_i128((y_norm as i128) * (cos_h as i128), ONE as i128) as i64;
                let pixel_direction = Vec3::new(px, py, x_norm);
                let dir = pixel_direction.add(&self.location.direction);
                let colour: Colour;
                if dir.is_zero() {
                    // A facing that exactly cancels the pixel offset has no
                    // ray to cast; the pixel stays black.
                    colour = Colour::black();
                } else {
                    let pixel_ray = Ray::new(self.location.origin, dir);
                    let res = scene.test_intersections(pixel_ray, 0);
                    colour = res.0.colour;
                    proof {
                        assert(pixel_rel(*self, *scene, x, y, colour));
                    }
                }
                row.push(colour);
                y = y + 1;
            }
            buffer.push(row);
            x = x + 1;
        }
        buffer
    }

    /// Turn the camera by the angle whose cosine and sine are given (fixed
    /// point, with `cos^2 + sin^2` at most one — round the pair toward zero),
    /// leaving its vertical component alone. The planar square length never
    /// grows, so repeated turns chain and keep a well-formed camera
    /// well-formed.
    pub fn rotate_horizontal(&mut self, cos_d: i64, sin_d: i64)
        requires
            old(self).location@.direction.x * old(self).location@.direction.x + old(
                self,
            ).location@.direction.y * old(self).location@.direction.y
                <= 4_000_000_000_000_000_000,
            cos_d * cos_d + sin_d * sin_d <= (ONE as int) * (ONE as int),
        ensures
            final(self).location@.origin == old(self).location@.origin,
            final(self).width == old(self).width,
            final(self).height == old(self).height,
            final(self).location@.direction.z == old(self).location@.direction.z,
            final(self).location@.direction.x == tdiv(
                old(self).location@.direction.x * cos_d as int + old(
                    self,
                ).location@.direction.y * sin_d as int,
                ONE as int,
            ),
            final(self).location@.direction.y == tdiv(
                old(self).location@.direction.y * cos_d as int - old(
                    self,
                ).location@.direction.x * sin_d as int,
                ONE as int,
            ),
            ({
                let od = old(self).location@.direction;
                let nd = final(self).location@.direction;
                nd.x * nd.x + nd.y * nd.y <= od.x * od.x + od.y * od.y
            }),
            iabs(final(self).location@.direction.x) <= 2_000_000_000,
            iabs(final(self).location@.direction.y) <= 2_000_000_000,
    {
        let dx = self.location.direction.x;
        let dy = self.location.direction.y;
        proof {
            let px = dx as int;
            let py = dy as int;
            let c = cos_d as int;
            let s2 = sin_d as int;
            let si: int = ONE as int;
            assert(iabs(px) <= 2_000_000_000 && iabs(py) <= 2_000_000_000) by (nonlinear_arith)
                requires px * px + py * py <= 4_000_000_000_000_000_000;
            assert(iabs(c) <= si && iabs(s2) <= si) by (nonlinear_arith)
                requires c * c + s2 * s2 <= si * si, si == 1_000_000;
            fixed::lemma_mul_bound(px, c, 2_000_000_000, si);
            fixed::lemma_mul_bound(py, s2, 2_000_000_000, si);
            fixed::lemma_mul_bound(py, c, 2_000_000_000, si);
            fixed::lemma_mul_bound(px, s2, 2_000_000_000, si);
            let t1 = px * c;
            let t2 = py * s2;
            let t3 = py * c;
            let t4 = px * s2;
            let a = px * c + py * s2;
            let b = py * c - px * s2;
            // Rotating never lengthens the planar part: the pair of new
            // numerators has exactly the old squared length times the pair's
            // own squared length (the cross terms cancel).
            assert((t1 + t2) * (t1 + t2) == t1 * t1 + 2 * (t1 * t2) + t2 * t2)
                by (nonlinear_arith);
            assert((t3 - t4) * (t3 - t4) == t3 * t3 - 2 * (t3 * t4) + t4 * t4)
                by (nonlinear_arith);
            assert(t1 * t2 == t3 * t4) by (nonlinear_arith)
                requires t1 == px * c, t2 == py * s2, t3 == py * c, t4 == px * s2;
            assert(t1 * t1 + t4 * t4 == (px * px) * (c * c + s2 * s2)) by (nonlinear_arith)
                requires t1 == px * c, t4 == px * s2;
            assert(t2 * t2 + t3 * t3 == (py * py) * (c * c + s2 * s2)) by (nonlinear_arith)
                requires t2 == py * s2, t3 == py * c;
            assert((px * px) * (c * c + s2 * s2) + (py * py) * (c * c + s2 * s2) == (px * px + py
                * py) * (c * c + s2 * s2)) by (nonlinear_arith);
            assert(a * a + b * b == (px * px + py * py) * (c * c + s2 * s2));
            assert(px * px + py * py >= 0) by (nonlinear_arith);
            assert((px * px + py * py) * (c * c + s2 * s2) <= (px * px + py * py) * (si * si))
                by (nonlinear_arith)
                requires c * c + s2 * s2 <= si * si, px * px + py * py >= 0;
            assert(iabs(a) <= 2_000_000_000_000_000 && iabs(b) <= 2_000_000_000_000_000)
                by (nonlinear_arith)
                requires
                    a * a + b * b <= (px * px + py * py) * (si * si),
                    px * px + py * py <= 4_000_000_000_000_000_000,
                    si == 1_000_000;
            fixed::lemma_tdiv_bound(a, si, 2_000_000_000);
            fixed::lemma_tdiv_bound(b, si, 2_000_000_000);
            let qa = tdiv(a, si);
            let qb = tdiv(b, si);
            fixed::lemma_tdiv_char(a, si);
            fixed::lemma_tdiv_char(b, si);
            vstd::arithmetic::div_mod::lemma_fundamental_div_mod(iabs(a), si);
            vstd::arithmetic::div_mod::lemma_mod_division_less_than_divisor(iabs(a), si);
            vstd::arithmetic::div_mod::lemma_fundamental_div_mod(iabs(b), si);
            vstd::arithmetic::div_mod::lemma_mod_division_less_than_divisor(iabs(b), si);
            assert(iabs(qa) * si <= iabs(a)) by (nonlinear_arith)
                requires iabs(qa) == iabs(a) / si, iabs(a) == si * (iabs(a) / si) + iabs(a) % si,
                    iabs(a) % si >= 0;
            assert(iabs(qb) * si <= iabs(b)) by (nonlinear_arith)
                requires iabs(qb) == iabs(b) / si, iabs(b) == si * (iabs(b) / si) + iabs(b) % si,
                    iabs(b) % si >= 0;
            assert(qa * qa == iabs(qa) * iabs(qa)) by (nonlinear_arith);
            assert(a * a == iabs(a) * iabs(a)) by (nonlinear_arith);
            assert(qb * qb == iabs(qb) * iabs(qb)) by (nonlinear_arith);
            assert(b * b == iabs(b) * iabs(b)) by (nonlinear_arith);
            assert(qa * qa * (si * si) <= a * a) by (nonlinear_arith)
                requires 0 <= iabs(qa), iabs(qa) * si <= iabs(a), si >= 1,
                    qa * qa == iabs(qa) * iabs(qa), a * a == iabs(a) * iabs(a);
            assert(qb * qb * (si * si) <= b * b) by (nonlinear_arith)
                requires 0 <= iabs(qb), iabs(qb) * si <= iabs(b), si >= 1,
                    qb * qb == iabs(qb) * iabs(qb), b * b == iabs(b) * iabs(b);
            assert((qa * qa + qb * qb) * (si * si) == qa * qa * (si * si) + qb * qb * (si * si))
                by (nonlinear_arith);
            assert(qa * qa + qb * qb <= px * px + py * py) by (nonlinear_arith)
                requires
                    (qa * qa + qb * qb) * (si * si) <= (px * px + py * py) * (si * si),
                    si * si >= 1;
        }
        let new_x = fixed::div_i128(
            (dx as i128) * (cos_d as i128) + (dy as i128) * (sin_d as i128),
            ONE as i128,
        ) as i64;
        let new_y = fixed::div_i128(
            (dy as i128) * (cos_d as i128) - (dx as i128) * (sin_d as i128),
            ONE as i128,
        ) as i64;
        self.location.direction.x = new_x;
        self.location.direction.y = new_y;
    }

    /// Move the camera by `direction` in its own horizontal frame: `x`
    /// forward, `y` sideways, `z` straight up.
    pub fn move_by(&mut self, direction: Vec3)
        requires
            bounded(old(self).location@.origin, 1_000_000_000),
            bounded(old(self).location@.direction, 2_000_000_000),
            bounded(direction@, 1_000_000_000),
        ensures
            final(self).location@.direction == old(self).location@.direction,
            final(self).width == old(self).width,
            final(self).height == old(self).height,
            ({
                let cos_h = cam_cos(old(self).location@.direction);
                let sin_h = cam_sin(old(self).location@.direction);
                &&& final(self).location@.origin.x == old(self).location@.origin.x + tdiv(
                    direction@.x * cos_h,
                    ONE as int,
                ) - tdiv(direction@.y * sin_h, ONE as int)
                &&& final(self).location@.origin.y == old(self).location@.origin.y + tdiv(
                    direction@.x * sin_h,
                    ONE as int,
                ) + tdiv(direction@.y * cos_h, ONE as int)
                &&& final(self).location@.origin.z == old(self).location@.origin.z + direction@.z
            }),
    {
        let (cos_h, sin_h) = direction_horizontal(&self.location.direction);
        proof {
            fixed::lemma_mul_bound(direction@.x, cos_h as int, 1_000_000_000, ONE as int);
            fixed::lemma_mul_bound(direction@.y, sin_h as int, 1_000_000_000, ONE as int);
            fixed::lemma_mul_bound(direction@.x, sin_h as int, 1_000_000_000, ONE as int);
            fixed::lemma_mul_bound(direction@.y, cos_h as int, 1_000_000_000, ONE as int);
            fixed::lemma_tdiv_bound(direction@.x * cos_h as int, ONE as int, 1_000_000_000);
            fixed::lemma_tdiv_bound(direction@.y * sin_h as int, ONE as int, 1_000_000_000);
            fixed::lemma_tdiv_bound(direction@.x * sin_h as int, ONE as int, 1_000_000_000);
            fixed::lemma_tdiv_bound(direction@.y * cos_h as int, ONE as int, 1_000_000_000);
        }
        let fwd_x = fixed::div_i128((direction.x as i128) * (cos_h as i128), ONE as i128) as i64;
        let side_x = fixed::div_i128((direction.y as i128) * (sin_h as i128), ONE as i128) as i64;
        let fwd_y = fixed::div_i128((direction.x as i128) * (sin_h as i128), ONE as i128) as i64;
        let side_y = fixed::div_i128((direction.y as i128) * (cos_h as i128), ONE as i128) as i64;
        self.location.origin.x = self.location.origin.x + fwd_x - side_x;
        self.location.origin.y = self.location.origin.y + fwd_y + side_y;
        self.location.origin.z = self.location.origin.z + direction.z;
    }
}

} // verus!
