//! Colours with fixed-point components.
//!
//! A component of `fixed::ONE` is full intensity; rendering keeps components
//! in `[0, ONE]` but the operations are exact on any bounded values.

use vstd::prelude::*;

use crate::fixed::{iabs, tdiv, ONE};
use crate::fixed;

verus! {

/// Spec-level colour: the mathematical value of a `Colour`.
pub ghost struct C3 {
    pub r: int,
    pub g: int,
    pub b: int,
}

/// An RGB colour, components in fixed-point quanta.
#[derive(Clone, Copy, Debug, PartialEq, Eq, Structural)]
pub struct Colour {
    pub r: i64,
    pub g: i64,
    pub b: i64,
}

impl View for Colour {
    type V = C3;

    open spec fn view(&self) -> C3 {
        C3 { r: self.r as int, g: self.g as int, b: self.b as int }
    }
}

/// Every component's magnitude is at most `m`.
pub open spec fn cbounded(c: C3, m: int) -> bool {
    iabs(c.r) <= m && iabs(c.g) <= m && iabs(c.b) <= m
}

/// A displayable colour: every component within `[0, ONE]`.
pub open spec fn cwf(c: C3) -> bool {
    0 <= c.r <= ONE && 0 <= c.g <= ONE && 0 <= c.b <= ONE
}

pub open spec fn sc_gray(v: int) -> C3 {
    C3 { r: v, g: v, b: v }
}

pub open spec fn sc_add(a: C3, b: C3) -> C3 {
    C3 { r: a.r + b.r, g: a.g + b.g, b: a.b + b.b }
}

/// The colour scaled by the fixed-point factor `t`.
pub open spec fn sc_scale_fx(a: C3, t: int) -> C3 {
    C3 {
        r: tdiv(a.r * t, ONE as int),
        g: tdiv(a.g * t, ONE as int),
        b: tdiv(a.b * t, ONE as int),
    }
}

/// The colour divided by the plain integer `k`.
pub open spec fn sc_div_int(a: C3, k: int) -> C3 {
    C3 { r: tdiv(a.r, k), g: tdiv(a.g, k), b: tdiv(a.b, k) }
}

/// Componentwise sum of a sequence of colours.
pub open spec fn sum_c3(cols: Seq<C3>) -> C3
    decreases cols.len(),
{
    if cols.len() == 0 {
        C3 { r: 0, g: 0, b: 0 }
    } else {
        sc_add(sum_c3(cols.drop_last()), cols.last())
    }
}

/// A sum of displayable colours stays within the count times full intensity.
pub proof fn lemma_sum_c3_wf(cols: Seq<C3>)
    requires
        forall|i: int| 0 <= i < cols.len() ==> cwf(#[trigger] cols[i]),
    ensures
        0 <= sum_c3(cols).r <= cols.len() * ONE as int,
        0 <= sum_c3(cols).g <= cols.len() * ONE as int,
        0 <= sum_c3(cols).b <= cols.len() * ONE as int,
    decreases cols.len(),
{
    if cols.len() > 0 {
        assert(forall|i: int| 0 <= i < cols.drop_last().len() ==> cwf(#[trigger] cols.drop_last()[i]));
        lemma_sum_c3_wf(cols.drop_last());
        assert((cols.len() - 1) * ONE as int + ONE as int == cols.len() * ONE as int)
            by (nonlinear_arith);
    }
}

/// Halving a displayable colour gives components in `[0, ONE/2]`.
pub proof fn lemma_scale_half_wf(c: C3)
    requires
        cwf(c),
    ensures
        0 <= sc_scale_fx(c, 500_000).r <= 500_000,
        0 <= sc_scale_fx(c, 500_000).g <= 500_000,
        0 <= sc_scale_fx(c, 500_000).b <= 500_000,
{
    lemma_scale_half_comp(c.r);
    lemma_scale_half_comp(c.g);
    lemma_scale_half_comp(c.b);
}

proof fn lemma_scale_half_comp(x: int)
    requires
        0 <= x <= ONE as int,
    ensures
        0 <= tdiv(x * 500_000, ONE as int) <= 500_000,
{
    assert(0 <= x * 500_000 <= 500_000 * (ONE as int)) by (nonlinear_arith)
        requires 0 <= x <= ONE as int;
    fixed::lemma_tdiv_char(x * 500_000, ONE as int);
    fixed::lemma_tdiv_bound(x * 500_000, ONE as int, 500_000);
}

/// Dividing a bounded non-negative colour by `2k` leaves components in
/// `[0, ONE/2]` when the components are at most `k * ONE`.
pub proof fn lemma_avg_wf(c: C3, k: int)
    requires
        k >= 1,
        0 <= c.r <= k * ONE as int,
        0 <= c.g <= k * ONE as int,
        0 <= c.b <= k * ONE as int,
    ensures
        0 <= sc_div_int(c, 2 * k).r <= 500_000,
        0 <= sc_div_int(c, 2 * k).g <= 500_000,
        0 <= sc_div_int(c, 2 * k).b <= 500_000,
{
    lemma_avg_comp(c.r, k);
    lemma_avg_comp(c.g, k);
    lemma_avg_comp(c.b, k);
}

proof fn lemma_avg_comp(x: int, k: int)
    requires
        k >= 1,
        0 <= x <= k * ONE as int,
    ensures
        0 <= tdiv(x, 2 * k) <= 500_000,
{
    fixed::lemma_tdiv_char(x, 2 * k);
    assert(x <= 500_000 * (2 * k)) by (nonlinear_arith)
        requires 0 <= x <= k * ONE as int, k >= 1;
    fixed::lemma_tdiv_bound(x, 2 * k, 500_000);
}

impl Colour {
    /// Grey of the given fixed-point brightness.
    pub fn from_gray(v: i64) -> (c: Colour)
        ensures
            c@ == sc_gray(v as int),
    {
        Colour { r: v, g: v, b: v }
    }

    pub fn from_rgb(r: i64, g: i64, b: i64) -> (c: Colour)
        ensures
            c@ == (C3 { r: r as int, g: g as int, b: b as int }),
    {
        Colour { r, g, b }
    }

    /// Pure black.
    pub fn black() -> (c: Colour)
        ensures
            c@ == sc_gray(0),
    {
        Colour { r: 0, g: 0, b: 0 }
    }

    pub fn add(&self, o: &Colour) -> (c: Colour)
        requires
            cbounded(self@, 0x2000_0000_0000_0000),
            cbounded(o@, 0x2000_0000_0000_0000),
        ensures
            c@ == sc_add(self@, o@),
    {
        Colour { r: self.r + o.r, g: self.g + o.g, b: self.b + o.b }
    }

    /// The colour scaled by the fixed-point factor `t` (so `multiply` by
    /// `ONE / 2` halves it).
    pub fn multiply(&self, t: i64) -> (c: Colour)
        requires
            iabs(self@.r * t) <= 0x7fff_ffff_ffff_ffff * (ONE as int),
            iabs(self@.g * t) <= 0x7fff_ffff_ffff_ffff * (ONE as int),
            iabs(self@.b * t) <= 0x7fff_ffff_ffff_ffff * (ONE as int),
        ensures
            c@ == sc_scale_fx(self@, t as int),
    {
        proof {
            fixed::lemma_tdiv_bound(self@.r * t, ONE as int, 0x7fff_ffff_ffff_ffff);
            fixed::lemma_tdiv_bound(self@.g * t, ONE as int, 0x7fff_ffff_ffff_ffff);
            fixed::lemma_tdiv_bound(self@.b * t, ONE as int, 0x7fff_ffff_ffff_ffff);
        }
        let r = fixed::div_i128((self.r as i128) * (t as i128), ONE as i128);
        let g = fixed::div_i128((self.g as i128) * (t as i128), ONE as i128);
        let b = fixed::div_i128((self.b as i128) * (t as i128), ONE as i128);
        Colour { r: r as i64, g: g as i64, b: b as i64 }
    }

    /// The colour divided by the plain count `k`.
    pub fn div_int(&self, k: i64) -> (c: Colour)
        requires
            k >= 1,
        ensures
            c@ == sc_div_int(self@, k as int),
    {
        proof {
            fixed::lemma_tdiv_char(self@.r, k as int);
            fixed::lemma_tdiv_char(self@.g, k as int);
            fixed::lemma_tdiv_char(self@.b, k as int);
        }
        let r = fixed::div_i128(self.r as i128, k as i128);
        let g = fixed::div_i128(self.g as i128, k as i128);
        let b = fixed::div_i128(self.b as i128, k as i128);
        Colour { r: r as i64, g: g as i64, b: b as i64 }
    }
}

} // verus!
