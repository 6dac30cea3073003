//! Run configuration and the pluggable color-distance metric.

use vstd::prelude::*;

verus! {

/// The scalar metric used to compare a target intensity against a sample.
#[derive(Clone, Copy, Debug, PartialEq, Eq, Structural)]
pub enum ColorDistanceFn {
    ABS,
    SQUARE,
}

/// Immutable per-run configuration.
///
/// The fractional fields `nodes_offset` and `string_alpha` are Q16 fixed
/// point: the value 65536 stands for 1.0, and both must lie in `[0, 65536]`.
#[derive(Clone, Copy, Debug, PartialEq, Eq, Structural)]
pub struct Settings {
    /// Side length of the square canvas, in pixels.
    pub diameter: u32,
    /// Number of nodes on the layout circle.
    pub nodes: u16,
    /// Strength of the deterministic angular jitter, Q16 in `[0, 65536]`.
    pub nodes_offset: u32,
    /// Per-pass chord opacity, Q16 in `[0, 65536]`.
    pub string_alpha: u32,
    /// Hard cap on the number of chords drawn in one session.
    pub max_lines: usize,
    /// Whether a chord may be drawn more than once.
    pub repeat_lines: bool,
    /// Which metric scores a candidate chord.
    pub color_distance_fn: ColorDistanceFn,
}

impl Settings {
    /// Bounds that the machine representation forces: the canvas must be
    /// small enough for Q16 coordinates and pixel indexing in `i64`/`usize`,
    /// and the Q16 fractions must encode values in `[0, 1]`.
    pub open spec fn in_machine_limits(self) -> bool {
        &&& 2 <= self.diameter <= 32768
        &&& self.nodes_offset <= 65536
        &&& self.string_alpha <= 65536
    }

    /// A configuration a session can run with: machine limits plus the
    /// configuration rules checked at session construction.
    pub open spec fn valid(self) -> bool {
        &&& self.in_machine_limits()
        &&& 2 <= self.nodes
        &&& 1 <= self.max_lines
    }
}

/// The distance between two intensity samples under the chosen metric:
/// `ABS` is `|a - b|`, `SQUARE` is `(a - b)^2`.
pub open spec fn spec_color_dist(metric: ColorDistanceFn, a: u8, b: u8) -> int {
    let d = a - b;
    match metric {
        ColorDistanceFn::ABS => if d < 0 { -d } else { d },
        ColorDistanceFn::SQUARE => d * d,
    }
}

impl Settings {
    /// Scores how far a canvas sample `b` is from the target intensity `a`.
    pub fn color_dist(&self, a: u8, b: u8) -> (r: i32)
        ensures
            r == spec_color_dist(self.color_distance_fn, a, b),
            0 <= r <= 65025,
            a == b ==> r == 0,
    {
        let d: i32 = a as i32 - b as i32;
        proof {
            assert(-255 <= d <= 255);
            assert(d * d <= 65025 && 0 <= d * d && (d == 0 ==> d * d == 0))
                by (nonlinear_arith)
                requires
                    -255 <= d <= 255,
            ;
        }
        match self.color_distance_fn {
            ColorDistanceFn::ABS => if d < 0 { -d } else { d },
            ColorDistanceFn::SQUARE => d * d,
        }
    }
}

impl Default for Settings {
    /// A medium-sized run: 500-pixel canvas, 200 nodes, full jitter,
    /// 0.3 opacity, squared distance, at most 6000 chords, no repeats.
    fn default() -> (r: Self)
        ensures
            r == (Settings {
                diameter: 500u32,
                nodes: 200u16,
                nodes_offset: 65536u32,
                string_alpha: 19661u32,
                max_lines: 6000usize,
                repeat_lines: false,
                color_distance_fn: ColorDistanceFn::SQUARE,
            }),
            r.valid(),
    {
        Settings {
            diameter: 500,
            nodes: 200,
            nodes_offset: 65536,
            string_alpha: 19661,
            max_lines: 6000,
            repeat_lines: false,
            color_distance_fn: ColorDistanceFn::SQUARE,
        }
    }
}

} // verus!
