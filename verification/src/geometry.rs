//! Node layout geometry: a Q16 fixed-point sine, and the deterministic
//! mapping from a node index to its position on the layout circle.
//!
//! Angles are binary angle measurement (BAM): one full turn is `2^32` units.
//! The sine is the classic rational half-wave approximation
//! `16 u (65536 - u) / (5 * 2^32 - 4 u (65536 - u))` over a half turn, which
//! is exact at every quarter turn, so a regular layout puts nodes at the
//! circle's extreme points exactly.

use vstd::prelude::*;
use vstd::arithmetic::div_mod::lemma_div_is_ordered;
use vstd::arithmetic::div_mod::lemma_div_is_ordered_by_denominator;
use vstd::arithmetic::div_mod::lemma_div_by_multiple;
use vstd::arithmetic::div_mod::lemma_div_pos_is_pos;
use vstd::arithmetic::div_mod::lemma_small_mod;
use vstd::arithmetic::div_mod::lemma_mod_add_multiples_vanish;
use crate::fixed::spec_trunc_div;
use crate::fixed::trunc_div;
use crate::fixed::lemma_trunc_div_bound;
use crate::settings::Settings;

verus! {

/// One full turn in binary angle measurement.
pub const BAM_TURN: u64 = 0x1_0000_0000;

/// One radian in BAM units: `2^32 / (2 * pi)`, rounded to the nearest integer.
pub const BAM_PER_RADIAN: u64 = 683565276;

/// The rational half-wave: for `u` in `[0, 65536]` (a half turn scaled down
/// by `2^15`), a Q16 sine value in `[0, 65536]`, exact at `0`, `32768`
/// and `65536`.
#[verifier::opaque]
pub open spec fn spec_half_wave(u: int) -> int
    recommends
        0 <= u <= 65536,
{
    let p = u * (65536 - u);
    (p * 1048576) / (21474836480 - 4 * p)
}

/// Sine of a BAM angle, Q16: the half-wave over `[0, 2^31)`, its negation
/// over `[2^31, 2^32)`.
pub open spec fn spec_sine_q16(a: int) -> int
    recommends
        0 <= a < 0x1_0000_0000,
{
    if a < 0x8000_0000 {
        spec_half_wave(a / 32768)
    } else {
        -spec_half_wave((a - 0x8000_0000) / 32768)
    }
}

/// Cosine of a BAM angle, Q16: the sine a quarter turn later.
pub open spec fn spec_cosine_q16(a: int) -> int
    recommends
        0 <= a < 0x1_0000_0000,
{
    spec_sine_q16((a + 0x4000_0000) % 0x1_0000_0000)
}

proof fn lemma_half_wave_range(u: int)
    requires
        0 <= u <= 65536,
    ensures
        0 <= spec_half_wave(u) <= 65536,
{
    reveal(spec_half_wave);
    let p = u * (65536 - u);
    assert(0 <= p <= 1073741824) by (nonlinear_arith)
        requires
            0 <= u <= 65536,
            p == u * (65536 - u),
    ;
    let num = p * 1048576;
    let den = 21474836480 - 4 * p;
    assert(num <= 65536 * den);
    assert(num >= 0);
    lemma_div_pos_is_pos(num, den);
    lemma_div_is_ordered(num, 65536 * den, den);
    lemma_div_by_multiple(65536, den);
}

fn half_wave(x: u32) -> (r: i32)
    requires
        x < 0x8000_0000,
    ensures
        r == spec_half_wave((x / 32768) as int),
        0 <= r <= 65536,
{
    let u: i64 = (x / 32768) as i64;
    proof {
        reveal(spec_half_wave);
        vstd::arithmetic::div_mod::lemma_multiply_divide_lt(x as int, 32768, 65536);
        assert(0 <= u < 65536);
        assert(0 <= u * (65536 - u) <= 1073741824) by (nonlinear_arith)
            requires
                0 <= u < 65536,
        ;
        lemma_half_wave_range(u as int);
    }
    let p: i64 = u * (65536 - u);
    let num: i64 = p * 1048576;
    let den: i64 = 21474836480 - 4 * p;
    (num / den) as i32
}

/// Q16 sine of a BAM angle; total over all of `u32`.
pub fn sine_q16(angle: u32) -> (r: i32)
    ensures
        r == spec_sine_q16(angle as int),
        -65536 <= r <= 65536,
{
    if angle < 0x8000_0000 {
        half_wave(angle)
    } else {
        -half_wave(angle - 0x8000_0000)
    }
}

/// Q16 cosine of a BAM angle; total over all of `u32`.
pub fn cosine_q16(angle: u32) -> (r: i32)
    ensures
        r == spec_cosine_q16(angle as int),
        -65536 <= r <= 65536,
{
    let shifted: u64 = (angle as u64 + 0x4000_0000) % 0x1_0000_0000;
    sine_q16(shifted as u32)
}

/// The BAM angle of a node: a regular polygon step plus a deterministic
/// jitter of `cos(index) * step * nodes_offset`, reduced to one turn.
#[verifier::opaque]
pub open spec fn spec_node_bam(st: Settings, index: u16) -> int
    recommends
        st.valid(),
        index < st.nodes,
{
    let step = 0x1_0000_0000int / (st.nodes as int);
    let base = step * index;
    let irad = (index * 683565276) % 0x1_0000_0000;
    let c = spec_cosine_q16(irad);
    let pert = spec_trunc_div(spec_trunc_div(c * step, 65536) * st.nodes_offset, 65536);
    (base + pert) % 0x1_0000_0000
}

/// The node's position on the layout circle, Q16: radius
/// `(diameter - 2) / 2`, centered at `(radius, radius)`.
#[verifier::opaque]
pub open spec fn spec_node_pos(st: Settings, index: u16) -> (int, int)
    recommends
        st.valid(),
        index < st.nodes,
{
    let bam = spec_node_bam(st, index);
    let r = (st.diameter - 2) * 32768;
    (
        r + spec_trunc_div(r * spec_cosine_q16(bam), 65536),
        r + spec_trunc_div(r * spec_sine_q16(bam), 65536),
    )
}

fn node_bam(st: &Settings, index: u16) -> (r: u32)
    requires
        st.valid(),
        index < st.nodes,
    ensures
        r == spec_node_bam(*st, index),
{
    proof {
        reveal(spec_node_bam);
    }
    let step: i64 = 0x1_0000_0000i64 / (st.nodes as i64);
    proof {
        lemma_div_is_ordered_by_denominator(0x1_0000_0000, 2, st.nodes as int);
        lemma_div_pos_is_pos(0x1_0000_0000, st.nodes as int);
        assert(0 <= step <= 0x8000_0000);
        assert(0 <= step * (index as int) <= 0x8000_0000 * 65536) by (nonlinear_arith)
            requires
                0 <= step <= 0x8000_0000,
                0 <= index < 65536,
        ;
    }
    let base: i64 = step * (index as i64);
    let irad: u64 = (index as u64 * BAM_PER_RADIAN) % BAM_TURN;
    let c: i64 = cosine_q16(irad as u32) as i64;
    proof {
        assert(-0x8000_0000 * 65536 <= c * step <= 0x8000_0000 * 65536) by (nonlinear_arith)
            requires
                -65536 <= c <= 65536,
                0 <= step <= 0x8000_0000,
        ;
        lemma_trunc_div_bound(c as int * step as int, 65536, 0x8000_0000);
    }
    let t1: i64 = c * step;
    let t2: i64 = trunc_div(t1, 65536);
    proof {
        assert(-0x8000_0000 * 65536 <= t2 * (st.nodes_offset as int) <= 0x8000_0000
            * 65536) by (nonlinear_arith)
            requires
                -0x8000_0000 <= t2 <= 0x8000_0000,
                0 <= st.nodes_offset <= 65536,
        ;
        lemma_trunc_div_bound(t2 as int * st.nodes_offset as int, 65536, 0x8000_0000);
    }
    let t3: i64 = t2 * (st.nodes_offset as i64);
    let pert: i64 = trunc_div(t3, 65536);
    let s: i64 = base + pert;
    let bam: i64 = if s >= 0 {
        s % 0x1_0000_0000i64
    } else {
        proof {
            lemma_mod_add_multiples_vanish(s as int, 0x1_0000_0000);
            lemma_small_mod((s + 0x1_0000_0000) as nat, 0x1_0000_0000nat);
        }
        s + 0x1_0000_0000i64
    };
    bam as u32
}

impl Settings {
    /// The node's circle position, both coordinates Q16 in
    /// `[0, (diameter - 2) * 65536]`.
    pub fn node_pos(&self, index: u16) -> (r: (i64, i64))
        requires
            self.valid(),
            index < self.nodes,
        ensures
            (r.0 as int, r.1 as int) == spec_node_pos(*self, index),
            0 <= r.0 <= (self.diameter - 2) * 65536,
            0 <= r.1 <= (self.diameter - 2) * 65536,
{
    let st = self;
    proof {
        reveal(spec_node_pos);
    }
    let bam: u32 = node_bam(st, index);
    let s: i64 = sine_q16(bam) as i64;
    let c: i64 = cosine_q16(bam) as i64;
    let radius: i64 = (st.diameter as i64 - 2) * 32768;
    proof {
        assert(-(radius as int * 65536) <= radius as int * c
            <= radius as int * 65536) by (nonlinear_arith)
            requires
                0 <= radius,
                -65536 <= c <= 65536,
        ;
        assert(-(radius as int * 65536) <= radius as int * s
            <= radius as int * 65536) by (nonlinear_arith)
            requires
                0 <= radius,
                -65536 <= s <= 65536,
        ;
        lemma_trunc_div_bound(radius as int * c, 65536, radius as int);
        lemma_trunc_div_bound(radius as int * s, 65536, radius as int);
    }
    let x: i64 = radius + trunc_div(radius * c, 65536);
    let y: i64 = radius + trunc_div(radius * s, 65536);
    (x, y)
}
}

} // verus!
