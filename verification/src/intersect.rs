//! Hit outcomes and the nearest-hit ordering.
//!
//! Every primitive reports an `Intersection`; the engine keeps the least one
//! under an ordering that ranks present distances ascending, ranks any hit
//! before a miss, and ranks two misses equal.

use vstd::prelude::*;

use core::cmp::Ordering;

use crate::colour::{cwf, C3, Colour};
use crate::fixed::ONE;
use crate::renderer::{ray_bounded, R3, Ray};
use crate::surfaces::Surface;

verus! {

/// One primitive's report for one ray. `distance == None` means no
/// intersection; `normal` is the outgoing bounce ray, present only for hits
/// that continue the light path.
#[derive(Clone, Copy, Debug)]
pub struct Intersection {
    pub colour: Colour,
    pub distance: Option<i64>,
    pub normal: Option<Ray>,
}

impl Intersection {
    pub fn new(colour: Colour, distance: Option<i64>, normal: Option<Ray>) -> (r: Intersection)
        ensures
            r.colour == colour,
            r.distance == distance,
            r.normal == normal,
    {
        Intersection { colour, distance, normal }
    }
}

/// An intersection paired with the surface that produced it, kept so the
/// engine can ask that surface for its bounce policy after nearest-hit
/// selection.
#[derive(Clone, Copy, Debug)]
pub struct TestIntersectionResult(pub Intersection, pub Option<Surface>);

/// Rank order on hit distances: hits ascending, any hit before a miss,
/// misses tied.
pub open spec fn dist_le(a: Option<i64>, b: Option<i64>) -> bool {
    match (a, b) {
        (Some(x), Some(y)) => x <= y,
        (Some(_), None) => true,
        (None, Some(_)) => false,
        (None, None) => true,
    }
}

pub open spec fn dist_lt(a: Option<i64>, b: Option<i64>) -> bool {
    dist_le(a, b) && !dist_le(b, a)
}

/// Equal rank: equal distances, or two misses.
pub open spec fn dist_eq(a: Option<i64>, b: Option<i64>) -> bool {
    dist_le(a, b) && dist_le(b, a)
}

/// The ordering ranks every pair, and ranks each outcome level with itself.
pub proof fn lemma_order_total(a: Option<i64>, b: Option<i64>)
    ensures
        dist_le(a, b) || dist_le(b, a),
        dist_le(a, a),
{
}

/// The ordering is transitive.
pub proof fn lemma_order_transitive(a: Option<i64>, b: Option<i64>, c: Option<i64>)
    requires
        dist_le(a, b),
        dist_le(b, c),
    ensures
        dist_le(a, c),
{
}

/// Outcomes ranked both ways are of equal rank.
pub proof fn lemma_order_antisymmetric(a: Option<i64>, b: Option<i64>)
    requires
        dist_le(a, b),
        dist_le(b, a),
    ensures
        dist_eq(a, b),
{
}

/// A miss ranks strictly after every hit, and two hits rank strictly by
/// their distances.
pub proof fn lemma_order_hits_first(d: i64, d1: i64, d2: i64)
    ensures
        dist_lt(Some(d), None),
        dist_lt(Some(d1), Some(d2)) <==> d1 < d2,
{
}

impl PartialEq for Intersection {
    fn eq(&self, other: &Intersection) -> (r: bool) {
        match (self.distance, other.distance) {
            (Some(a), Some(b)) => a == b,
            (None, None) => true,
            _ => false,
        }
    }
}

impl vstd::std_specs::cmp::PartialEqSpecImpl for Intersection {
    open spec fn obeys_eq_spec() -> bool {
        true
    }

    open spec fn eq_spec(&self, other: &Intersection) -> bool {
        dist_eq(self.distance, other.distance)
    }
}

impl PartialOrd for Intersection {
    fn partial_cmp(&self, other: &Intersection) -> (r: Option<Ordering>) {
        match (self.distance, other.distance) {
            (Some(a), Some(b)) => if a == b {
                Some(Ordering::Equal)
            } else if a < b {
                Some(Ordering::Less)
            } else {
                Some(Ordering::Greater)
            },
            (Some(_), None) => Some(Ordering::Less),
            (None, Some(_)) => Some(Ordering::Greater),
            (None, None) => Some(Ordering::Equal),
        }
    }
}

impl vstd::std_specs::cmp::PartialOrdSpecImpl for Intersection {
    open spec fn obeys_partial_cmp_spec() -> bool {
        true
    }

    open spec fn partial_cmp_spec(&self, other: &Intersection) -> Option<Ordering> {
        if dist_eq(self.distance, other.distance) {
            Some(Ordering::Equal)
        } else if dist_le(self.distance, other.distance) {
            Some(Ordering::Less)
        } else {
            Some(Ordering::Greater)
        }
    }
}

impl PartialEq for TestIntersectionResult {
    fn eq(&self, other: &TestIntersectionResult) -> (r: bool) {
        self.0.eq(&other.0)
    }
}

impl vstd::std_specs::cmp::PartialEqSpecImpl for TestIntersectionResult {
    open spec fn obeys_eq_spec() -> bool {
        true
    }

    open spec fn eq_spec(&self, other: &TestIntersectionResult) -> bool {
        dist_eq(self.0.distance, other.0.distance)
    }
}

impl PartialOrd for TestIntersectionResult {
    fn partial_cmp(&self, other: &TestIntersectionResult) -> (r: Option<Ordering>) {
        self.0.partial_cmp(&other.0)
    }
}

impl vstd::std_specs::cmp::PartialOrdSpecImpl for TestIntersectionResult {
    open spec fn obeys_partial_cmp_spec() -> bool {
        true
    }

    open spec fn partial_cmp_spec(&self, other: &TestIntersectionResult) -> Option<Ordering> {
        vstd::std_specs::cmp::PartialOrdSpec::partial_cmp_spec(&self.0, &other.0)
    }
}

/// A well-formed report: a bounce ray implies a surface to ask about it, the
/// bounce ray's components are in range (origin within `mp`, unit-length
/// direction), a reported distance is non-negative, an attached surface is
/// sound, and the colour is displayable.
pub open spec fn tir_wf(t: TestIntersectionResult, mp: int) -> bool {
    &&& match t.0.normal {
        Some(nr) => t.1 is Some && ray_bounded(nr@, mp, ONE as int),
        None => true,
    }
    &&& match t.0.distance {
        Some(d) => d >= 0,
        None => true,
    }
    &&& match t.1 {
        Some(sf) => crate::surfaces::surface_wf(sf),
        None => true,
    }
    &&& cwf(t.0.colour@)
}

/// Executable check of the `dist_le` rank order.
pub fn dist_le_check(a: Option<i64>, b: Option<i64>) -> (r: bool)
    ensures
        r == dist_le(a, b),
{
    match (a, b) {
        (Some(x), Some(y)) => x <= y,
        (Some(_), None) => true,
        (None, Some(_)) => false,
        (None, None) => true,
    }
}

/// Spec-level hit outcome: what one primitive's intersection test means
/// mathematically, before any value is narrowed to a machine integer.
pub ghost struct SpecHit {
    pub colour: C3,
    pub distance: Option<int>,
    pub normal: Option<R3>,
    pub surface: Option<Surface>,
}

/// The executable report carries exactly the model outcome `h`.
pub open spec fn matches_hit(t: TestIntersectionResult, h: SpecHit) -> bool {
    &&& t.0.colour@ == h.colour
    &&& match (t.0.distance, h.distance) {
        (Some(a), Some(b)) => a as int == b,
        (None, None) => true,
        _ => false,
    }
    &&& match (t.0.normal, h.normal) {
        (Some(nr), Some(hr)) => nr@ == hr,
        (None, None) => true,
        _ => false,
    }
    &&& t.1 == h.surface
}

/// The model outcome of not hitting: black, no distance, no bounce.
pub open spec fn miss_hit() -> SpecHit {
    SpecHit { colour: crate::colour::sc_gray(0), distance: None, normal: None, surface: None }
}

/// The rank order of `dist_le`, on model outcomes.
pub open spec fn hit_le(a: SpecHit, b: SpecHit) -> bool {
    match (a.distance, b.distance) {
        (Some(x), Some(y)) => x <= y,
        (Some(_), None) => true,
        (None, Some(_)) => false,
        (None, None) => true,
    }
}

/// The index the engine's nearest-hit selection lands on: the last index
/// whose outcome ranks no later than every other (ties go to the later
/// entry, as the scan replaces on equal rank).
pub open spec fn min_hit_idx(s: Seq<SpecHit>) -> int
    recommends
        s.len() > 0,
    decreases s.len(),
{
    if s.len() <= 1 {
        0
    } else {
        let m = min_hit_idx(s.drop_last());
        if hit_le(s.last(), s[m]) {
            s.len() - 1
        } else {
            m
        }
    }
}

/// The bare intersection carries exactly the model outcome `h`, surface
/// aside.
pub open spec fn matches_inter(t: Intersection, h: SpecHit) -> bool {
    &&& t.colour@ == h.colour
    &&& match (t.distance, h.distance) {
        (Some(a), Some(b)) => a as int == b,
        (None, None) => true,
        _ => false,
    }
    &&& match (t.normal, h.normal) {
        (Some(nr), Some(hr)) => nr@ == hr,
        (None, None) => true,
        _ => false,
    }
}

/// Strict rank order on model outcomes.
pub open spec fn hit_lt(a: SpecHit, b: SpecHit) -> bool {
    hit_le(a, b) && !hit_le(b, a)
}

/// The index a stable ascending sort puts first: the earliest index whose
/// outcome ranks no later than every other (ties keep the earlier entry).
pub open spec fn min_hit_idx_first(s: Seq<SpecHit>) -> int
    recommends
        s.len() > 0,
    decreases s.len(),
{
    if s.len() <= 1 {
        0
    } else {
        let m = min_hit_idx_first(s.drop_last());
        if hit_lt(s.last(), s[m]) {
            s.len() - 1
        } else {
            m
        }
    }
}

/// The selected index is in range and ranks no later than every entry.
pub proof fn lemma_min_hit_idx_le(s: Seq<SpecHit>)
    requires
        s.len() > 0,
    ensures
        0 <= min_hit_idx(s) < s.len(),
        forall|j: int| 0 <= j < s.len() ==> hit_le(s[min_hit_idx(s)], #[trigger] s[j]),
    decreases s.len(),
{
    if s.len() > 1 {
        lemma_min_hit_idx_le(s.drop_last());
        let m = min_hit_idx(s.drop_last());
        assert forall|j: int| 0 <= j < s.len() implies hit_le(s[min_hit_idx(s)], #[trigger] s[j]) by {
            if j < s.len() - 1 {
                assert(s.drop_last()[j] == s[j]);
                assert(s.drop_last()[m] == s[m]);
            }
        }
    }
}

} // verus!
