//! The background light: a sentinel hit at the farthest representable
//! distance, so it loses the nearest-hit comparison to every real hit and
//! supplies a low ambient colour when nothing else is struck.

use vstd::prelude::*;

use crate::colour::{sc_gray, Colour};
use crate::fixed::{tdiv, ONE};
use crate::intersect::{matches_hit, tir_wf, Intersection, SpecHit, TestIntersectionResult};
use crate::objects::{MAX_DIR, MAX_POS};
use crate::renderer::{ray_bounded, R3, Ray};
use crate::vec3::{sv_is_zero, sv_normalize};
use crate::vec3;

verus! {

#[derive(Clone, Copy, Debug, PartialEq, Eq, Structural)]
pub struct WorldLight {}

/// Ambient brightness seen along a direction: a tenth of full, graded by how
/// much the unit direction points up (its `z`); a degenerate zero-length
/// direction sees the flat tenth.
pub open spec fn wl_brightness(r: R3) -> int {
    if sv_is_zero(r.direction) {
        tdiv(ONE as int, 10)
    } else {
        tdiv(ONE as int + sv_normalize(r.direction).z, 10)
    }
}

/// The model outcome: always a hit, at the farthest representable distance,
/// with no bounce.
pub open spec fn world_light_spec(r: R3) -> SpecHit {
    SpecHit {
        colour: sc_gray(wl_brightness(r)),
        distance: Some(i64::MAX as int),
        normal: None,
        surface: None,
    }
}

impl WorldLight {
    pub fn test_intersection(&self, ray: &Ray, _incoming: Colour) -> (res: TestIntersectionResult)
        requires
            ray_bounded(ray@, MAX_POS as int, MAX_DIR as int),
        ensures
            matches_hit(res, world_light_spec(ray@)),
            tir_wf(res, MAX_POS as int),
    {
        let b: i64;
        if ray.direction.is_zero() {
            b = crate::fixed::div_i128(ONE as i128, 10) as i64;
            proof {
                crate::fixed::lemma_tdiv_char(ONE as int, 10);
            }
        } else {
            let unit = ray.direction.normalize();
            proof {
                vec3::lemma_norm_zero(ray@.direction);
                vec3::lemma_normalize_bounded(ray@.direction);
                crate::fixed::lemma_tdiv_char(ONE as int + sv_normalize(ray@.direction).z, 10);
            }
            b = crate::fixed::div_i128(ONE as i128 + unit.z as i128, 10) as i64;
        }
        proof {
            assert(0 <= wl_brightness(ray@) <= ONE as int);
        }
        TestIntersectionResult(
            Intersection::new(Colour::from_gray(b), Some(i64::MAX), None),
            None,
        )
    }
}

} // verus!
