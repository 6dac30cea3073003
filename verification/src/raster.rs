//! Anti-aliased line traversal (Wu's algorithm) over Q16 fixed-point
//! endpoints.
//!
//! The traversal walks the dominant axis one pixel at a time; at each step it
//! visits one pixel (when the minor coordinate is on a pixel boundary) or two
//! vertically adjacent pixels whose coverage weights split one, proportional
//! to the minor coordinate's fractional part.  Endpoints are normalized
//! first — axes swapped for steep lines, then ordered left to right — so the
//! visit sequence does not depend on the order the endpoints are given in.

use vstd::prelude::*;
use vstd::math::abs;
use crate::fixed::spec_trunc_div;
use crate::fixed::trunc_div;
use crate::fixed::spec_floor_q16;
use crate::fixed::spec_fract_q16;
use crate::fixed::floor_split_q16;
use vstd::arithmetic::div_mod::lemma_div_is_ordered;
use vstd::arithmetic::div_mod::lemma_div_by_multiple;
use vstd::arithmetic::div_mod::lemma_div_pos_is_pos;
use vstd::arithmetic::div_mod::lemma_fundamental_div_mod;
use vstd::arithmetic::div_mod::lemma_mod_division_less_than_divisor;

verus! {

/// One visited pixel and its anti-aliasing coverage weight, Q16 in
/// `(0, 65536]`.
#[derive(Clone, Copy, Debug, PartialEq, Eq, Structural)]
pub struct Visit {
    pub x: u32,
    pub y: u32,
    /// Q16 coverage in `(0, 65536]`.
    pub coverage: u32,
}

/// Builds a visit, undoing the axis swap of a steep traversal.
pub open spec fn spec_mk_visit(cell: int, row: int, cov: int, steep: bool) -> Visit {
    if steep {
        Visit { x: row as u32, y: cell as u32, coverage: cov as u32 }
    } else {
        Visit { x: cell as u32, y: row as u32, coverage: cov as u32 }
    }
}

/// The visits of one step of the walk: the pixel under the minor coordinate
/// `y` (never below row zero), and, when `y` has a fractional part, the pixel
/// above it, the two coverages summing to one.
pub open spec fn spec_step_visits(cell: int, y: int, steep: bool) -> Seq<Visit> {
    let f = spec_floor_q16(y);
    let fract = spec_fract_q16(y);
    let row = if f < 0 {
        0
    } else {
        f
    };
    if fract == 0 {
        seq![spec_mk_visit(cell, row, 65536, steep)]
    } else {
        seq![
            spec_mk_visit(cell, row, 65536 - fract, steep),
            spec_mk_visit(cell, row + 1, fract, steep),
        ]
    }
}

/// The walk itself: `remaining + 1` steps from pixel column `cell`, the
/// minor coordinate advancing y_b the gradient `g` each step.
pub open spec fn spec_walk(cell: int, y: int, g: int, remaining: nat, steep: bool) -> Seq<Visit>
    decreases remaining,
{
    let here = spec_step_visits(cell, y, steep);
    if remaining == 0 {
        here
    } else {
        here + spec_walk(cell + 1, y + g, g, (remaining - 1) as nat, steep)
    }
}

/// The Q16 per-pixel gradient of an axis-normalized segment, truncated
/// toward zero; one (a whole pixel) for a degenerate segment.
pub open spec fn spec_gradient(dx: int, dy: int) -> int {
    if dx == 0 {
        65536
    } else {
        spec_trunc_div(dy * 65536, dx)
    }
}

/// The visit sequence of a segment already normalized to run left to right
/// along its dominant axis.
pub open spec fn spec_walk_segment(x_a: int, y_a: int, x_b: int, y_b: int, steep: bool) -> (Seq<
    Visit>) {
    let g = spec_gradient(x_b - x_a, y_b - y_a);
    let x0 = spec_floor_q16(x_a);
    let n = spec_floor_q16(x_b) - spec_floor_q16(x_a);
    spec_walk(x0, y_a, g, if n >= 0 {
        n as nat
    } else {
        0
    }, steep)
}

/// The full traversal: swap axes when the segment is steeper than 45
/// degrees, order the endpoints along the traversal axis, then walk.
pub open spec fn spec_trace_line(x_a: int, y_a: int, x_b: int, y_b: int) -> Seq<Visit> {
    let steep = abs(y_b - y_a) > abs(x_b - x_a);
    if steep {
        if y_a > y_b {
            spec_walk_segment(y_b, x_b, y_a, x_a, true)
        } else {
            spec_walk_segment(y_a, x_a, y_b, x_b, true)
        }
    } else {
        if x_a > x_b {
            spec_walk_segment(x_b, y_b, x_a, y_a, false)
        } else {
            spec_walk_segment(x_a, y_a, x_b, y_b, false)
        }
    }
}

/// Traversal is symmetric in its endpoints: both orders normalize to the
/// same walk, so they visit the same pixels with the same coverages in the
/// same order.
pub proof fn lemma_trace_line_symmetric(x_a: int, y_a: int, x_b: int, y_b: int)
    ensures
        spec_trace_line(x_a, y_a, x_b, y_b) == spec_trace_line(x_b, y_b, x_a, y_a),
{
    let steep = abs(y_b - y_a) > abs(x_b - x_a);
    if steep {
        if y_a == y_b {
            assert(abs(y_b - y_a) == 0);
        }
    } else {
        if x_a == x_b {
            assert(abs(x_b - x_a) == 0);
            assert(abs(y_b - y_a) <= 0);
            assert(y_a == y_b);
        }
    }
}

/// An inclusive pixel bound for every visit of a traversal whose endpoint
/// coordinates do not exceed `m`: one row above the highest endpoint pixel.
pub open spec fn spec_visit_cap(m: int) -> int {
    (m + 65535) / 65536 + 1
}

/// The largest of a traversal's four endpoint coordinates.
pub open spec fn spec_max4(x_a: int, y_a: int, x_b: int, y_b: int) -> int {
    let m1 = if x_a < y_a {
        y_a
    } else {
        x_a
    };
    let m2 = if x_b < y_b {
        y_b
    } else {
        x_b
    };
    if m1 < m2 {
        m2
    } else {
        m1
    }
}

/// For endpoints within a canvas of side `d` drawn between node positions
/// (coordinates at most `(d - 2) * 65536`), every visit stays strictly
/// inside the canvas.
pub proof fn lemma_cap_within(d: int, m: int)
    requires
        2 <= d,
        0 <= m <= (d - 2) * 65536,
    ensures
        spec_visit_cap(m) <= d - 1,
{
    assert((m + 65535) / 65536 <= ((d - 2) * 65536 + 65535) / 65536) by {
        vstd::arithmetic::div_mod::lemma_div_is_ordered(m + 65535, (d - 2) * 65536 + 65535, 65536);
    }
    assert(((d - 2) * 65536 + 65535) / 65536 == d - 2) by {
        vstd::arithmetic::div_mod::lemma_fundamental_div_mod_converse(
            (d - 2) * 65536 + 65535,
            65536,
            d - 2,
            65535,
        );
    }
}

/// Builds one visit, undoing the axis swap of a steep traversal.
fn mk_visit(cell: i64, row: i64, cov: u32, steep: bool) -> (v: Visit)
    requires
        0 <= cell <= 0xFFFF_FFFF,
        0 <= row <= 0xFFFF_FFFF,
    ensures
        v == spec_mk_visit(cell as int, row as int, cov as int, steep),
{
    if steep {
        Visit { x: row as u32, y: cell as u32, coverage: cov }
    } else {
        Visit { x: cell as u32, y: row as u32, coverage: cov }
    }
}

/// Over the whole walk of a normalized segment, the minor coordinate
/// advances past the far endpoint by less than one pixel.
proof fn lemma_gradient_budget(sx: int, sy: int, ex: int, ey: int, g: int, x0: int, xn: int)
    requires
        0 <= sx <= ex <= 0x7FFF_0000,
        -(ex - sx) <= ey - sy <= ex - sx,
        g == spec_gradient(ex - sx, ey - sy),
        x0 == sx / 65536,
        xn == ex / 65536,
    ensures
        -65536 <= g <= 65536,
        0 <= x0 <= xn,
        g >= 0 ==> (xn - x0) * g <= (ey - sy) + 65535,
        g < 0 ==> (xn - x0) * g >= (ey - sy) - 65535,
{
    let dx = ex - sx;
    let dy = ey - sy;
    let n = xn - x0;
    lemma_div_is_ordered(sx, ex, 65536);
    lemma_div_pos_is_pos(sx, 65536);
    if dx == 0 {
        assert(dy == 0);
        assert(n == 0);
        assert(n * g == 0) by (nonlinear_arith)
            requires
                n == 0,
        ;
    } else {
        lemma_fundamental_div_mod(sx, 65536);
        lemma_fundamental_div_mod(ex, 65536);
        assert(n * 65536 <= dx + 65535);
        if dy >= 0 {
            lemma_div_is_ordered(dy * 65536, 65536 * dx, dx);
            lemma_div_by_multiple(65536, dx);
            lemma_div_pos_is_pos(dy * 65536, dx);
            assert(0 <= g <= 65536);
            lemma_fundamental_div_mod(dy * 65536, dx);
            lemma_mod_division_less_than_divisor(dy * 65536, dx);
            assert(dx * g <= dy * 65536);
            assert(n * 65536 * g <= (dx + 65535) * g) by (nonlinear_arith)
                requires
                    n * 65536 <= dx + 65535,
                    g >= 0,
            ;
            assert((dx + 65535) * g == dx * g + 65535 * g) by (nonlinear_arith);
            assert(n * g * 65536 == n * 65536 * g) by (nonlinear_arith);
            assert(n * g * 65536 <= (dy + 65535) * 65536);
            assert(n * g <= dy + 65535);
        } else {
            let q = ((-dy) * 65536) / dx;
            lemma_div_is_ordered((-dy) * 65536, 65536 * dx, dx);
            lemma_div_by_multiple(65536, dx);
            lemma_div_pos_is_pos((-dy) * 65536, dx);
            assert(g == -q);
            assert(0 <= q <= 65536);
            lemma_fundamental_div_mod((-dy) * 65536, dx);
            lemma_mod_division_less_than_divisor((-dy) * 65536, dx);
            assert(dx * q <= (-dy) * 65536);
            assert(n * 65536 * q <= (dx + 65535) * q) by (nonlinear_arith)
                requires
                    n * 65536 <= dx + 65535,
                    q >= 0,
            ;
            assert((dx + 65535) * q == dx * q + 65535 * q) by (nonlinear_arith);
            assert(n * q * 65536 == n * 65536 * q) by (nonlinear_arith);
            assert(n * q * 65536 <= ((-dy) + 65535) * 65536);
            assert(n * q <= (-dy) + 65535);
            assert(n * g == -(n * q)) by (nonlinear_arith)
                requires
                    g == -q,
            ;
            assert(n * g >= dy - 65535);
            if g >= 0 {
                assert(q == 0);
                assert(dx * q == 0) by (nonlinear_arith)
                    requires
                        q == 0,
                ;
                assert(n * g == 0) by (nonlinear_arith)
                    requires
                        g == 0,
                ;
                assert((-dy) * 65536 < dx);
                assert(-dy <= 32767);
            }
        }
    }
}

/// At every column of the walk the minor coordinate stays within one pixel
/// of the band spanned by the two endpoints.
proof fn lemma_minor_bounds(sy: int, ey: int, g: int, n: int, k: int, my: int)
    requires
        0 <= k <= n,
        my == sy + k * g,
        -65536 <= g <= 65536,
        g >= 0 ==> n * g <= (ey - sy) + 65535,
        g < 0 ==> n * g >= (ey - sy) - 65535,
    ensures
        my <= (if sy < ey { ey } else { sy }) + 65535,
        my >= (if sy < ey { sy } else { ey }) - 65535,
{
    if g >= 0 {
        assert(0 <= k * g <= n * g) by (nonlinear_arith)
            requires
                0 <= k <= n,
                g >= 0,
        ;
    } else {
        assert(n * g <= k * g <= 0) by (nonlinear_arith)
            requires
                0 <= k <= n,
                g < 0,
        ;
    }
}

/// Traverses the line between two Q16 endpoints, returning every visited
/// pixel with its coverage, in traversal order.
///
/// The visit sequence is exactly `spec_trace_line`, every coverage is in
/// `(0, 65536]`, and no visited pixel coordinate exceeds
/// `spec_visit_cap` of the largest endpoint coordinate.
#[verifier::loop_isolation(false)]
#[verifier::rlimit(100)]
pub fn trace_line(a: (i64, i64), b: (i64, i64)) -> (visits: Vec<Visit>)
    requires
        0 <= a.0 <= 0x7FFF_0000,
        0 <= a.1 <= 0x7FFF_0000,
        0 <= b.0 <= 0x7FFF_0000,
        0 <= b.1 <= 0x7FFF_0000,
    ensures
        visits@ == spec_trace_line(a.0 as int, a.1 as int, b.0 as int, b.1 as int),
        forall|i: int|
            0 <= i < visits@.len() ==> 0 < (#[trigger] visits@[i]).coverage <= 65536,
        forall|i: int|
            0 <= i < visits@.len() ==> (#[trigger] visits@[i]).x <= spec_visit_cap(
                spec_max4(a.0 as int, a.1 as int, b.0 as int, b.1 as int),
            ) && visits@[i].y <= spec_visit_cap(
                spec_max4(a.0 as int, a.1 as int, b.0 as int, b.1 as int),
            ),
        visits@.len() <= 2 * spec_visit_cap(
            spec_max4(a.0 as int, a.1 as int, b.0 as int, b.1 as int),
        ),
{
    let ghost m4 = spec_max4(a.0 as int, a.1 as int, b.0 as int, b.1 as int);
    let adx: i64 = if b.0 >= a.0 {
        b.0 - a.0
    } else {
        a.0 - b.0
    };
    let ady: i64 = if b.1 >= a.1 {
        b.1 - a.1
    } else {
        a.1 - b.1
    };
    let steep = ady > adx;
    let (p, q) = if steep {
        ((a.1, a.0), (b.1, b.0))
    } else {
        (a, b)
    };
    let (p, q) = if p.0 > q.0 {
        (q, p)
    } else {
        (p, q)
    };
    let sx: i64 = p.0;
    let sy: i64 = p.1;
    let ex: i64 = q.0;
    let ey: i64 = q.1;
    let dx: i64 = ex - sx;
    let dy: i64 = ey - sy;
    let g: i64 = if dx == 0 {
        65536
    } else {
        trunc_div(dy * 65536, dx)
    };
    let x0: i64 = sx / 65536;
    let xn: i64 = ex / 65536;
    let ghost n = xn as int - x0 as int;
    proof {
        assert(g == spec_gradient(dx as int, dy as int));
        lemma_gradient_budget(sx as int, sy as int, ex as int, ey as int, g as int,
            x0 as int, xn as int);
        assert(sy <= m4 && ey <= m4 && sx <= m4 && ex <= m4);
    }
    let ghost walk_full = spec_walk(x0 as int, sy as int, g as int, n as nat, steep);
    proof {
        assert(x0 == spec_floor_q16(sx as int));
        assert(xn == spec_floor_q16(ex as int));
        assert(walk_full == spec_walk_segment(sx as int, sy as int, ex as int, ey as int, steep));
        assert(walk_full == spec_trace_line(a.0 as int, a.1 as int, b.0 as int, b.1 as int));
    }
    let mut visits: Vec<Visit> = Vec::new();
    let mut cx: i64 = x0;
    let mut my: i64 = sy;
    proof {
        assert((cx - x0) * g == 0) by (nonlinear_arith)
            requires
                cx == x0,
        ;
        assert(visits@ + spec_walk(cx as int, my as int, g as int, (xn - cx) as nat, steep)
            =~= walk_full);
        lemma_div_is_ordered(ex as int, m4, 65536);
        lemma_div_is_ordered(m4, m4 + 65535, 65536);
        assert(xn <= spec_visit_cap(m4) - 1);
    }
    while cx <= xn
        invariant
            x0 <= cx <= xn + 1,
            my == sy + (cx - x0) * g,
            cx <= xn ==> visits@ + spec_walk(
                cx as int,
                my as int,
                g as int,
                (xn - cx) as nat,
                steep,
            ) == walk_full,
            cx > xn ==> visits@ == walk_full,
            forall|i: int|
                0 <= i < visits@.len() ==> 0 < (#[trigger] visits@[i]).coverage <= 65536,
            forall|i: int|
                0 <= i < visits@.len() ==> (#[trigger] visits@[i]).x <= spec_visit_cap(m4)
                    && visits@[i].y <= spec_visit_cap(m4),
            visits@.len() <= 2 * (cx - x0),
            xn <= spec_visit_cap(m4) - 1,
        decreases xn + 1 - cx,
    {
        proof {
            lemma_minor_bounds(sy as int, ey as int, g as int, n, cx as int - x0 as int,
                my as int);
            assert(my <= m4 + 65535);
            assert(-0x2_0000 <= my <= 0x8001_0000);
        }
        let (f, fract) = floor_split_q16(my);
        let row: i64 = if f < 0 {
            0
        } else {
            f
        };
        proof {
            lemma_div_is_ordered(my as int, m4 + 65535, 65536);
            lemma_div_is_ordered(ex as int, m4, 65536);
            lemma_div_is_ordered(m4, m4 + 65535, 65536);
            lemma_div_pos_is_pos(m4 + 65535, 65536);
            assert(row <= spec_visit_cap(m4) - 1);
            assert(cx <= spec_visit_cap(m4) - 1);
        }
        let ghost old_visits = visits@;
        if fract == 0 {
            let v = mk_visit(cx, row, 65536, steep);
            visits.push(v);
        } else {
            let v1 = mk_visit(cx, row, 65536 - fract, steep);
            let v2 = mk_visit(cx, row + 1, fract, steep);
            visits.push(v1);
            visits.push(v2);
        }
        proof {
            assert(visits@ =~= old_visits + spec_step_visits(cx as int, my as int, steep));
            let rem = (xn - cx) as nat;
            if rem == 0 {
                assert(spec_walk(cx as int, my as int, g as int, rem, steep)
                    == spec_step_visits(cx as int, my as int, steep));
                assert(visits@ =~= walk_full);
            } else {
                assert(spec_walk(cx as int, my as int, g as int, rem, steep)
                    == spec_step_visits(cx as int, my as int, steep) + spec_walk(
                    cx as int + 1,
                    my as int + g as int,
                    g as int,
                    (rem - 1) as nat,
                    steep,
                ));
                assert(visits@ + spec_walk(
                    cx as int + 1,
                    my as int + g as int,
                    g as int,
                    (rem - 1) as nat,
                    steep,
                ) =~= walk_full);
            }
            assert((cx - x0 + 1) * g == (cx - x0) * g + g) by (nonlinear_arith);
        }
        cx = cx + 1;
        my = my + g;
    }
    visits
}

} // verus!
