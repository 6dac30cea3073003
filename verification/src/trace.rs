//! The greedy path builder: a trace session over a target image, choosing
//! at each step the chord that best darkens the canvas toward the target.

use vstd::prelude::*;
use rayon::iter::IntoParallelIterator;
use rayon::iter::ParallelIterator;
use crate::canvas::Canvas;
use crate::canvas::spec_overlay;
use crate::canvas::spec_pixel_index;
use crate::canvas::overlay_string;
use crate::line_set::LineSet;
use crate::line_set::spec_add_effect;
use crate::geometry::spec_node_pos;
use crate::raster::Visit;
use crate::raster::spec_trace_line;
use crate::raster::spec_max4;
use crate::raster::spec_visit_cap;
use crate::raster::trace_line;
use crate::raster::lemma_cap_within;
use crate::settings::Settings;
use crate::settings::spec_color_dist;

verus! {

/// What one call to `step` did.
#[derive(Clone, Copy, Debug, PartialEq, Eq, Structural)]
pub enum StepOutcome {
    /// A chord between the two nodes was drawn and recorded.
    Advanced(u16, u16),
    /// The session is done; nothing changed.
    Finished,
}

/// Why a session could not be constructed.
#[derive(Clone, Copy, Debug, PartialEq, Eq, Structural)]
pub enum ConfigError {
    /// The target buffer is not `diameter * diameter` samples.
    DimensionMismatch,
    /// Fewer than two nodes.
    TooFewNodes,
    /// A zero chord budget.
    ZeroMaxChords,
}

/// The candidate node reached by iteration index `i`, skipping the current
/// node.
pub open spec fn spec_next_of(current: u16, i: u16) -> u16 {
    if i < current {
        i
    } else {
        (i + 1) as u16
    }
}

/// The scoring gain of one visit: how much the chosen distance to the
/// target shrinks when the visited pixel is darkened by one blend pass.
pub open spec fn spec_visit_gain(canvas: Seq<u8>, target: Seq<u8>, st: Settings, v: Visit) -> int {
    let idx = spec_pixel_index(st.diameter, v.x, v.y);
    let old_pix = canvas[idx];
    let new_pix = spec_overlay(old_pix, v.coverage, st.string_alpha) as u8;
    spec_color_dist(st.color_distance_fn, target[idx], old_pix) - spec_color_dist(
        st.color_distance_fn,
        target[idx],
        new_pix,
    )
}

/// The summed gain over a visit sequence.
pub open spec fn spec_perf(canvas: Seq<u8>, target: Seq<u8>, st: Settings, visits: Seq<Visit>) -> int
    decreases visits.len(),
{
    if visits.len() == 0 {
        0
    } else {
        spec_visit_gain(canvas, target, st, visits.first()) + spec_perf(
            canvas,
            target,
            st,
            visits.drop_first(),
        )
    }
}

/// The visits of the chord between two nodes.
pub open spec fn spec_chord_visits(st: Settings, from: u16, to: u16) -> Seq<Visit> {
    let pa = spec_node_pos(st, from);
    let pb = spec_node_pos(st, to);
    spec_trace_line(pa.0, pa.1, pb.0, pb.1)
}

/// The score of candidate iteration index `i` from `current`: `None` when
/// the chord is skipped (already drawn and repeats are off) or does not
/// improve the canvas, otherwise the mean per-pixel gain (with the count
/// biased by one) paired with the candidate node.
pub open spec fn spec_candidate(
    canvas: Seq<u8>,
    target: Seq<u8>,
    st: Settings,
    chords: LineSet,
    current: u16,
    i: u16,
) -> Option<(int, u16)> {
    let next = spec_next_of(current, i);
    if !st.repeat_lines && chords.spec_has(current, next) {
        None
    } else {
        let visits = spec_chord_visits(st, current, next);
        let perf = spec_perf(canvas, target, st, visits);
        if perf > 0 {
            Some((perf / (1 + visits.len() as int), next))
        } else {
            None
        }
    }
}

/// The better of two scored candidates; an earlier candidate wins a tie.
pub open spec fn spec_better(prev: Option<(int, u16)>, cur: Option<(int, u16)>) -> Option<
    (int, u16),
> {
    match cur {
        Option::None => prev,
        Option::Some(c) => match prev {
            Option::None => Option::Some(c),
            Option::Some(p) => if c.0 > p.0 {
                Option::Some(c)
            } else {
                Option::Some(p)
            },
        },
    }
}

/// The best candidate among iteration indices `[0, m)`.
pub open spec fn spec_best_in(
    canvas: Seq<u8>,
    target: Seq<u8>,
    st: Settings,
    chords: LineSet,
    current: u16,
    m: nat,
) -> Option<(int, u16)>
    decreases m,
{
    if m == 0 {
        Option::None
    } else {
        spec_better(
            spec_best_in(canvas, target, st, chords, current, (m - 1) as nat),
            spec_candidate(canvas, target, st, chords, current, (m - 1) as u16),
        )
    }
}

/// The best next chord from `current` over every legal candidate, ties
/// broken toward the lowest candidate index.
pub open spec fn spec_best(
    canvas: Seq<u8>,
    target: Seq<u8>,
    st: Settings,
    chords: LineSet,
    current: u16,
) -> Option<(int, u16)> {
    spec_best_in(canvas, target, st, chords, current, (st.nodes - 1) as nat)
}

/// Maps an executable candidate score to its mathematical value.
pub open spec fn spec_score_view(r: Option<(i64, u16)>) -> Option<(int, u16)> {
    match r {
        Option::None => Option::None,
        Option::Some(p) => Option::Some((p.0 as int, p.1)),
    }
}

/// `true` when every sample of the sequence has the given value.
pub open spec fn spec_all_eq(s: Seq<u8>, v: u8) -> bool {
    forall|k: int| 0 <= k < s.len() ==> s[k] == v
}

/// Reads one sample of a row-major square buffer.
fn read_sample(buf: &Vec<u8>, d: u32, x: u32, y: u32) -> (r: u8)
    requires
        buf@.len() == d * d,
        d <= 32768,
        x < d,
        y < d,
    ensures
        r == buf@[spec_pixel_index(d, x, y)],
{
    proof {
        assert((y as int) * (d as int) + (x as int) < (d as int) * (d as int) <= 32768
            * 32768) by (nonlinear_arith)
            requires
                x < d,
                y < d,
                d <= 32768,
        ;
    }
    let index: usize = y as usize * d as usize + x as usize;
    buf[index]
}

/// Unfolds one step of the summed gain over a visit suffix.
proof fn lemma_perf_unfold(canvas: Seq<u8>, target: Seq<u8>, st: Settings, all: Seq<Visit>, j: int)
    requires
        0 <= j < all.len(),
    ensures
        spec_perf(canvas, target, st, all.skip(j)) == spec_visit_gain(canvas, target, st, all[j])
            + spec_perf(canvas, target, st, all.skip(j + 1)),
{
    assert(all.skip(j).first() == all[j]);
    assert(all.skip(j).drop_first() =~= all.skip(j + 1));
}

/// An in-progress or finished trace over one target image.
pub struct StringTrace {
    /// The ordered node path; the first entry is always node zero.
    pub traced_nodes: Vec<u16>,
    /// The canvas the chords have been drawn on so far.
    pub canvas: Canvas,
    /// The chords already drawn, when repeats are forbidden.
    pub line_set: LineSet,
    /// Whether the session has finished.
    pub done: bool,
    /// The configuration of this run; fixed for the session's lifetime.
    pub settings: Settings,
    /// The read-only grayscale target, `diameter * diameter` samples.
    pub target: Vec<u8>,
}

impl StringTrace {
    /// The configuration this session was built with.
    pub open spec fn spec_settings(self) -> Settings {
        self.settings
    }

    /// The target image this session traces.
    pub open spec fn spec_target(self) -> Seq<u8> {
        self.target@
    }

    /// The node the next chord would start from.
    pub open spec fn spec_current(self) -> u16 {
        self.traced_nodes@.last()
    }

    /// The best next chord of the session's current state.
    pub open spec fn spec_best_of(self) -> Option<(int, u16)> {
        spec_best(
            self.canvas@,
            self.spec_target(),
            self.spec_settings(),
            self.line_set,
            self.spec_current(),
        )
    }

    pub open spec fn wf(self) -> bool {
        &&& self.spec_settings().valid()
        &&& self.canvas.wf()
        &&& self.canvas.spec_diameter() == self.spec_settings().diameter
        &&& self.spec_target().len() == self.spec_settings().diameter
            * self.spec_settings().diameter
        &&& self.line_set.wf()
        &&& self.line_set.spec_nodes() == self.spec_settings().nodes
        &&& self.traced_nodes@.len() >= 1
        &&& (forall|i: int|
            0 <= i < self.traced_nodes@.len() ==> self.traced_nodes@[i]
                < self.spec_settings().nodes)
        &&& self.traced_nodes@[0] == 0
        &&& (!self.done ==> self.traced_nodes@.len() <= self.spec_settings().max_lines)
    }

    /// Sums the scoring gain of a chord's visits against the current
    /// canvas.  On an all-white target over an all-white canvas no chord
    /// gains.
    fn chord_perf(&self, visits: &Vec<Visit>) -> (perf: i64)
        requires
            self.wf(),
            visits@.len() <= 2 * self.spec_settings().diameter,
            forall|k: int|
                0 <= k < visits@.len() ==> (#[trigger] visits@[k]).x
                    < self.spec_settings().diameter && visits@[k].y
                    < self.spec_settings().diameter && visits@[k].coverage <= 65536,
        ensures
            perf == spec_perf(self.canvas@, self.spec_target(), self.spec_settings(), visits@),
            spec_all_eq(self.canvas@, 255) && spec_all_eq(self.spec_target(), 255) ==> perf
                <= 0,
    {
        let ghost all = visits@;
        let d: u32 = self.settings.diameter;
        let mut perf: i64 = 0;
        let mut j: usize = 0;
        let len = visits.len();
        proof {
            assert(all.skip(0) =~= all);
        }
        while j < len
            invariant
                0 <= j <= len,
                len == all.len(),
                len <= 2 * d,
                visits@ == all,
                self.wf(),
                d == self.spec_settings().diameter,
                forall|k: int|
                    0 <= k < all.len() ==> (#[trigger] all[k]).x < d && all[k].y < d && all[
                        k].coverage <= 65536,
                perf + spec_perf(
                    self.canvas@,
                    self.spec_target(),
                    self.spec_settings(),
                    all.skip(j as int),
                ) == spec_perf(self.canvas@, self.spec_target(), self.spec_settings(), all),
                -65025 * j <= perf <= 65025 * j,
                spec_all_eq(self.canvas@, 255) && spec_all_eq(self.spec_target(), 255)
                    ==> perf <= 0,
            decreases len - j,
        {
            proof {
                lemma_perf_unfold(
                    self.canvas@,
                    self.spec_target(),
                    self.spec_settings(),
                    all,
                    j as int,
                );
            }
            let v = visits[j];
            let tgt = read_sample(&self.target, d, v.x, v.y);
            let old_pix = self.canvas.read(v.x, v.y);
            let new_pix = overlay_string(old_pix, v.coverage, self.settings.string_alpha);
            let gain: i32 = self.settings.color_dist(tgt, old_pix) - self.settings.color_dist(
                tgt,
                new_pix,
            );
            proof {
                assert(gain == spec_visit_gain(
                    self.canvas@,
                    self.spec_target(),
                    self.spec_settings(),
                    all[j as int],
                ));
                if spec_all_eq(self.canvas@, 255) && spec_all_eq(self.spec_target(), 255) {
                    let idx = spec_pixel_index(d, v.x, v.y);
                    assert(0 <= idx < (d as int) * (d as int)) by (nonlinear_arith)
                        requires
                            v.x < d,
                            v.y < d,
                            idx == (v.y as int) * (d as int) + (v.x as int),
                    ;
                    assert(self.spec_target()[idx] == 255);
                    assert(self.canvas@[idx] == 255);
                    assert(tgt == old_pix);
                    assert(gain <= 0);
                }
            }
            perf = perf + gain as i64;
            j = j + 1;
        }
        proof {
            assert(all.skip(len as int) =~= Seq::<Visit>::empty());
        }
        perf
    }

    /// Scores candidate iteration index `i` from `current`.  On an
    /// all-white target over an all-white canvas no candidate scores.
    pub fn candidate_score(&self, current: u16, i: u16) -> (r: Option<(i64, u16)>)
        requires
            self.wf(),
            current < self.spec_settings().nodes,
            i < self.spec_settings().nodes - 1,
        ensures
            spec_score_view(r) == spec_candidate(
                self.canvas@,
                self.spec_target(),
                self.spec_settings(),
                self.line_set,
                current,
                i,
            ),
            spec_all_eq(self.canvas@, 255) && spec_all_eq(self.spec_target(), 255) ==> r
                is None,
    {
        let next: u16 = if i < current {
            i
        } else {
            i + 1
        };
        if !self.settings.repeat_lines && self.line_set.has(current, next) {
            return None;
        }
        let pa = self.settings.node_pos(current);
        let pb = self.settings.node_pos(next);
        let ghost m4 = spec_max4(pa.0 as int, pa.1 as int, pb.0 as int, pb.1 as int);
        let d: u32 = self.settings.diameter;
        proof {
            lemma_cap_within(d as int, m4);
        }
        let visits = trace_line(pa, pb);
        proof {
            assert(visits@ == spec_chord_visits(self.spec_settings(), current, next));
            assert(spec_visit_cap(m4) <= d - 1);
            assert forall|k: int| 0 <= k < visits@.len() implies (#[trigger] visits@[k]).x < d
                && visits@[k].y < d && visits@[k].coverage <= 65536 by {
            }
            assert(visits@.len() <= 2 * d);
        }
        let perf = self.chord_perf(&visits);
        let count: i64 = 1 + visits.len() as i64;
        if perf > 0 {
            Some((perf / count, next))
        } else {
            None
        }
    }
}
/// The canvas after drawing a chord: each visit blended in traversal order.
pub open spec fn spec_apply_visits(canvas: Seq<u8>, st: Settings, visits: Seq<Visit>) -> Seq<u8>
    decreases visits.len(),
{
    if visits.len() == 0 {
        canvas
    } else {
        let v = visits.first();
        let idx = spec_pixel_index(st.diameter, v.x, v.y);
        spec_apply_visits(
            canvas.update(idx, spec_overlay(canvas[idx], v.coverage, st.string_alpha) as u8),
            st,
            visits.drop_first(),
        )
    }
}

/// A scored best candidate names a legal node other than the current one.
proof fn lemma_best_in_bounds(
    canvas: Seq<u8>,
    target: Seq<u8>,
    st: Settings,
    chords: LineSet,
    current: u16,
    m: nat,
)
    requires
        current < st.nodes,
        m <= st.nodes - 1,
    ensures
        match spec_best_in(canvas, target, st, chords, current, m) {
            Option::None => true,
            Option::Some(p) => p.1 < st.nodes && p.1 != current,
        },
    decreases m,
{
    if m > 0 {
        lemma_best_in_bounds(canvas, target, st, chords, current, (m - 1) as nat);
    }
}

impl StringTrace {
    /// Steps left before the budget alone forces the session to finish.
    pub open spec fn spec_remaining(self) -> int {
        if self.done {
            0
        } else {
            self.spec_settings().max_lines + 1 - self.traced_nodes@.len()
        }
    }

    /// Builds a session over a target image.  Construction fails exactly
    /// when the target is not `diameter * diameter` samples, there are
    /// fewer than two nodes, or the chord budget is zero.
    pub fn new(settings: Settings, target: Vec<u8>) -> (r: Result<StringTrace, ConfigError>)
        requires
            settings.in_machine_limits(),
        ensures
            match r {
                Result::Ok(s) => {
                    &&& target@.len() == settings.diameter * settings.diameter
                    &&& settings.nodes >= 2
                    &&& settings.max_lines >= 1
                    &&& s.wf()
                    &&& s.spec_settings() == settings
                    &&& s.spec_target() == target@
                    &&& s.traced_nodes@ == seq![0u16]
                    &&& !s.done
                    &&& spec_all_eq(s.canvas@, 255)
                    &&& (forall|x: u16, y: u16|
                        x < settings.nodes && y < settings.nodes ==> !s.line_set.spec_has(
                            x,
                            y,
                        ))
                },
                Result::Err(e) => {
                    &&& (target@.len() != settings.diameter * settings.diameter
                        || settings.nodes < 2 || settings.max_lines == 0)
                    &&& e == (if target@.len() != settings.diameter * settings.diameter {
                        ConfigError::DimensionMismatch
                    } else if settings.nodes < 2 {
                        ConfigError::TooFewNodes
                    } else {
                        ConfigError::ZeroMaxChords
                    })
                },
            },
    {
        proof {
            assert((settings.diameter as int) * (settings.diameter as int) <= 32768
                * 32768) by (nonlinear_arith)
                requires
                    settings.diameter <= 32768,
            ;
        }
        let side: usize = settings.diameter as usize * settings.diameter as usize;
        if target.len() != side {
            return Err(ConfigError::DimensionMismatch);
        }
        if settings.nodes < 2 {
            return Err(ConfigError::TooFewNodes);
        }
        if settings.max_lines == 0 {
            return Err(ConfigError::ZeroMaxChords);
        }
        let canvas = Canvas::new(settings.diameter);
        let line_set = LineSet::new(settings.nodes);
        let mut traced_nodes: Vec<u16> = Vec::new();
        traced_nodes.push(0);
        proof {
            assert(traced_nodes@ =~= seq![0u16]);
        }
        Ok(StringTrace { traced_nodes, canvas, line_set, done: false, settings, target })
    }

    /// Evaluates every legal candidate and returns the node of the best
    /// one, ties broken toward the lowest candidate index; `None` when no
    /// candidate improves the canvas.  On an all-white target over an
    /// all-white canvas there is never a candidate.
    pub fn best_next_string(&self, current: u16) -> (r: Option<u16>)
        requires
            self.wf(),
            current < self.spec_settings().nodes,
        ensures
            match spec_best(
                self.canvas@,
                self.spec_target(),
                self.spec_settings(),
                self.line_set,
                current,
            ) {
                Option::None => r is None,
                Option::Some(p) => r == Option::Some(p.1),
            },
            spec_all_eq(self.canvas@, 255) && spec_all_eq(self.spec_target(), 255) ==> r
                is None,
    {
        let mut best: Option<(i64, u16)> = None;
        let mut i: u16 = 0;
        let m: u16 = self.settings.nodes - 1;
        while i < m
            invariant
                0 <= i <= m,
                m == self.spec_settings().nodes - 1,
                self.wf(),
                current < self.spec_settings().nodes,
                spec_score_view(best) == spec_best_in(
                    self.canvas@,
                    self.spec_target(),
                    self.spec_settings(),
                    self.line_set,
                    current,
                    i as nat,
                ),
                spec_all_eq(self.canvas@, 255) && spec_all_eq(self.spec_target(), 255)
                    ==> best is None,
            decreases m - i,
        {
            let c = self.candidate_score(current, i);
            match c {
                None => {},
                Some(p) => {
                    match best {
                        None => {
                            best = Some(p);
                        },
                        Some(b) => {
                            if p.0 > b.0 {
                                best = Some(p);
                            }
                        },
                    }
                },
            }
            i = i + 1;
        }
        match best {
            None => None,
            Some(p) => Some(p.1),
        }
    }

    /// Blends every visit of a chord into the canvas, in traversal order.
    fn apply_chord(&mut self, current: u16, next: u16)
        requires
            old(self).wf(),
            current < old(self).spec_settings().nodes,
            next < old(self).spec_settings().nodes,
        ensures
            final(self).wf(),
            final(self).spec_settings() == old(self).spec_settings(),
            final(self).spec_target() == old(self).spec_target(),
            final(self).traced_nodes@ == old(self).traced_nodes@,
            final(self).line_set == old(self).line_set,
            final(self).done == old(self).done,
            final(self).canvas@ == spec_apply_visits(
                old(self).canvas@,
                old(self).spec_settings(),
                spec_chord_visits(old(self).spec_settings(), current, next),
            ),
            forall|k: int|
                0 <= k < old(self).canvas@.len() ==> final(self).canvas@[k] <= old(self).canvas@[k],
    {
        let pa = self.settings.node_pos(current);
        let pb = self.settings.node_pos(next);
        let ghost m4 = spec_max4(pa.0 as int, pa.1 as int, pb.0 as int, pb.1 as int);
        let d: u32 = self.settings.diameter;
        proof {
            lemma_cap_within(d as int, m4);
        }
        let visits = trace_line(pa, pb);
        let ghost all = visits@;
        let ghost orig = self.canvas@;
        proof {
            assert(all == spec_chord_visits(self.spec_settings(), current, next));
            assert(all.skip(0) =~= all);
        }
        let mut j: usize = 0;
        let len = visits.len();
        while j < len
            invariant
                0 <= j <= len,
                len == all.len(),
                visits@ == all,
                self.spec_settings() == old(self).spec_settings(),
                self.spec_target() == old(self).spec_target(),
                self.traced_nodes@ == old(self).traced_nodes@,
                self.line_set == old(self).line_set,
                self.done == old(self).done,
                old(self).wf(),
                self.canvas.wf(),
                self.canvas.spec_diameter() == d,
                d == self.spec_settings().diameter,
                self.canvas@.len() == orig.len(),
                orig == old(self).canvas@,
                forall|k: int|
                    0 <= k < all.len() ==> (#[trigger] all[k]).x < d && all[k].y < d && all[
                        k].coverage <= 65536,
                spec_apply_visits(orig, self.spec_settings(), all) == spec_apply_visits(
                    self.canvas@,
                    self.spec_settings(),
                    all.skip(j as int),
                ),
                forall|k: int| 0 <= k < orig.len() ==> self.canvas@[k] <= orig[k],
            decreases len - j,
        {
            let v = visits[j];
            self.canvas.blend(v.x, v.y, v.coverage, self.settings.string_alpha);
            proof {
                assert(all.skip(j as int).first() == all[j as int]);
                assert(all.skip(j as int).drop_first() =~= all.skip(j as int + 1));
            }
            j = j + 1;
        }
        proof {
            assert(all.skip(len as int) =~= Seq::<Visit>::empty());
        }
    }

    /// Draws the chord from `current` to `next`: blends every visit into
    /// the canvas, records the chord, appends the node, and finishes the
    /// session when the budget is spent.
    fn commit_chord(&mut self, current: u16, next: u16)
        requires
            old(self).wf(),
            !old(self).done,
            current == old(self).spec_current(),
            next < old(self).spec_settings().nodes,
        ensures
            final(self).wf(),
            final(self).spec_settings() == old(self).spec_settings(),
            final(self).spec_target() == old(self).spec_target(),
            final(self).traced_nodes@ == old(self).traced_nodes@.push(next),
            final(self).canvas@ == spec_apply_visits(
                old(self).canvas@,
                old(self).spec_settings(),
                spec_chord_visits(old(self).spec_settings(), current, next),
            ),
            old(self).spec_settings().repeat_lines ==> final(self).line_set == old(self).line_set,
            !old(self).spec_settings().repeat_lines ==> final(self).line_set.wf() && final(self).line_set.spec_nodes() == old(self).spec_settings().nodes && spec_add_effect(
                old(self).line_set,
                final(self).line_set,
                current,
                next,
            ),
            final(self).done == (old(self).traced_nodes@.len() + 1 > old(self).spec_settings().max_lines),
            forall|k: int|
                0 <= k < old(self).canvas@.len() ==> final(self).canvas@[k] <= old(self).canvas@[k],
            final(self).spec_remaining() < old(self).spec_remaining(),
    {
        self.apply_chord(current, next);
        if !self.settings.repeat_lines {
            self.line_set.add(current, next);
        }
        self.traced_nodes.push(next);
        if self.traced_nodes.len() > self.settings.max_lines {
            self.done = true;
        }
    }

    /// Runs one step of the greedy search: evaluates every candidate next
    /// chord against the current canvas, commits the best one, and
    /// finishes when no candidate improves the canvas or the budget is
    /// spent.  A finished session is left unchanged.
    #[verifier::rlimit(100)]
    pub fn step(&mut self) -> (r: StepOutcome)
        requires
            old(self).wf(),
        ensures
            final(self).wf(),
            final(self).spec_settings() == old(self).spec_settings(),
            final(self).spec_target() == old(self).spec_target(),
            (r == StepOutcome::Finished) <==> (old(self).done || old(self).spec_best_of()
                is None),
            old(self).done ==> final(self).done && final(self).traced_nodes@ == old(self).traced_nodes@ && final(self).canvas@ == old(self).canvas@ && final(self).line_set
                == old(self).line_set,
            !old(self).done ==> match old(self).spec_best_of() {
                Option::None => {
                    &&& final(self).done
                    &&& final(self).traced_nodes@ == old(self).traced_nodes@
                    &&& final(self).canvas@ == old(self).canvas@
                    &&& final(self).line_set == old(self).line_set
                },
                Option::Some(p) => {
                    &&& r == StepOutcome::Advanced(old(self).spec_current(), p.1)
                    &&& final(self).traced_nodes@ == old(self).traced_nodes@.push(p.1)
                    &&& final(self).canvas@ == spec_apply_visits(
                        old(self).canvas@,
                        old(self).spec_settings(),
                        spec_chord_visits(
                            old(self).spec_settings(),
                            old(self).spec_current(),
                            p.1,
                        ),
                    )
                    &&& (old(self).spec_settings().repeat_lines ==> final(self).line_set
                        == old(self).line_set)
                    &&& (!old(self).spec_settings().repeat_lines ==> final(self).line_set.wf() && final(self).line_set.spec_nodes() == old(self).spec_settings().nodes && spec_add_effect(
                        old(self).line_set,
                        final(self).line_set,
                        old(self).spec_current(),
                        p.1,
                    ))
                    &&& final(self).done == (old(self).traced_nodes@.len() + 1 > old(self).spec_settings().max_lines)
                    &&& final(self).spec_remaining() < old(self).spec_remaining()
                },
            },
            forall|k: int|
                0 <= k < old(self).canvas@.len() ==> final(self).canvas@[k] <= old(self).canvas@[k],
            !old(self).done && spec_all_eq(old(self).canvas@, 255) && spec_all_eq(
                old(self).spec_target(),
                255,
            ) ==> r == StepOutcome::Finished,
    {
        if self.done {
            return StepOutcome::Finished;
        }
        let last_index = self.traced_nodes.len() - 1;
        let current = self.traced_nodes[last_index];
        proof {
            lemma_best_in_bounds(
                self.canvas@,
                self.spec_target(),
                self.spec_settings(),
                self.line_set,
                current,
                (self.spec_settings().nodes - 1) as nat,
            );
        }
        match self.best_next_string(current) {
            None => {
                self.done = true;
                StepOutcome::Finished
            },
            Some(next) => {
                self.commit_chord(current, next);
                StepOutcome::Advanced(current, next)
            },
        }
    }
}

/// The best next chord depends only on the canvas, the target, the
/// configuration and which chords are members of the dedup set, so two
/// single-threaded sessions in identical observable states choose the same
/// chord at every step: the trace is deterministic.
pub proof fn lemma_best_deterministic(
    canvas: Seq<u8>,
    target: Seq<u8>,
    st: Settings,
    s1: LineSet,
    s2: LineSet,
    current: u16,
)
    requires
        s1.spec_nodes() == st.nodes,
        s2.spec_nodes() == st.nodes,
        forall|x: u16, y: u16|
            x < st.nodes && y < st.nodes ==> s1.spec_has(x, y) == s2.spec_has(x, y),
        current < st.nodes,
    ensures
        spec_best(canvas, target, st, s1, current) == spec_best(canvas, target, st, s2, current),
{
    lemma_best_in_deterministic(canvas, target, st, s1, s2, current, (st.nodes - 1) as nat);
}

proof fn lemma_best_in_deterministic(
    canvas: Seq<u8>,
    target: Seq<u8>,
    st: Settings,
    s1: LineSet,
    s2: LineSet,
    current: u16,
    m: nat,
)
    requires
        s1.spec_nodes() == st.nodes,
        s2.spec_nodes() == st.nodes,
        forall|x: u16, y: u16|
            x < st.nodes && y < st.nodes ==> s1.spec_has(x, y) == s2.spec_has(x, y),
        current < st.nodes,
        m <= st.nodes - 1,
    ensures
        spec_best_in(canvas, target, st, s1, current, m) == spec_best_in(
            canvas,
            target,
            st,
            s2,
            current,
            m,
        ),
    decreases m,
{
    if m > 0 {
        lemma_best_in_deterministic(canvas, target, st, s1, s2, current, (m - 1) as nat);
        let i = (m - 1) as u16;
        let next = spec_next_of(current, i);
        assert(next < st.nodes);
        assert(s1.spec_has(current, next) == s2.spec_has(current, next));
        assert(spec_candidate(canvas, target, st, s1, current, i) == spec_candidate(
            canvas,
            target,
            st,
            s2,
            current,
            i,
        ));
    }
}

/// Relies on rayon's `into_par_iter`, `filter_map` and `max_by_key` over
/// the candidate iteration indices, with each candidate scored by the
/// verified `candidate_score`: the reduction returns `None` exactly when no
/// candidate scores, and otherwise the node of some candidate whose score
/// equals the best score.  Which of several equally scoring candidates
/// comes back is not specified: the parallel reduction's tie-break is left
/// open.
#[verifier::external_body]
fn par_best_next(trace: &StringTrace, current: u16) -> (r: Option<u16>)
    requires
        trace.wf(),
        current < trace.spec_settings().nodes,
    ensures
        (r is None) <==> (spec_best(
            trace.canvas@,
            trace.spec_target(),
            trace.spec_settings(),
            trace.line_set,
            current,
        ) is None),
        match (r, spec_best(
            trace.canvas@,
            trace.spec_target(),
            trace.spec_settings(),
            trace.line_set,
            current,
        )) {
            (Option::Some(nx), Option::Some(p)) => exists|i: u16|
                i < trace.spec_settings().nodes - 1 && #[trigger] spec_candidate(
                    trace.canvas@,
                    trace.spec_target(),
                    trace.spec_settings(),
                    trace.line_set,
                    current,
                    i,
                ) == Option::Some((p.0, nx)),
            _ => true,
        },
{
    (0..trace.settings.nodes - 1)
        .into_par_iter()
        .filter_map(|i| trace.candidate_score(current, i))
        .max_by_key(|p| p.0)
        .map(|p| p.1)
}

impl StringTrace {
    /// The session never exceeds its chord budget: the remaining-step
    /// measure stays within `[0, max_lines]`, and every committed chord
    /// strictly shrinks it, so a session finishes within `max_lines` steps.
    pub proof fn lemma_budget(self)
        requires
            self.wf(),
        ensures
            0 <= self.spec_remaining() <= self.spec_settings().max_lines,
    {
    }

    /// One step of the greedy search with the candidate evaluation fanned
    /// out across threads.  The same as `step`, except that when several
    /// candidates tie for the best score, which of them is committed is not
    /// specified.
    pub fn step_parallel(&mut self) -> (r: StepOutcome)
        requires
            old(self).wf(),
        ensures
            final(self).wf(),
            final(self).spec_settings() == old(self).spec_settings(),
            final(self).spec_target() == old(self).spec_target(),
            (r == StepOutcome::Finished) <==> (old(self).done || old(self).spec_best_of()
                is None),
            old(self).done ==> final(self).done && final(self).traced_nodes@ == old(self).traced_nodes@ && final(self).canvas@ == old(self).canvas@ && final(self).line_set
                == old(self).line_set,
            !old(self).done ==> match old(self).spec_best_of() {
                Option::None => {
                    &&& final(self).done
                    &&& final(self).traced_nodes@ == old(self).traced_nodes@
                    &&& final(self).canvas@ == old(self).canvas@
                    &&& final(self).line_set == old(self).line_set
                },
                Option::Some(p) => match r {
                    StepOutcome::Advanced(c, nx) => {
                        &&& c == old(self).spec_current()
                        &&& (exists|i: u16|
                            i < old(self).spec_settings().nodes - 1 && #[trigger] spec_candidate(
                                old(self).canvas@,
                                old(self).spec_target(),
                                old(self).spec_settings(),
                                old(self).line_set,
                                old(self).spec_current(),
                                i,
                            ) == Option::Some((p.0, nx)))
                        &&& final(self).traced_nodes@ == old(self).traced_nodes@.push(nx)
                        &&& final(self).canvas@ == spec_apply_visits(
                            old(self).canvas@,
                            old(self).spec_settings(),
                            spec_chord_visits(old(self).spec_settings(), c, nx),
                        )
                        &&& (old(self).spec_settings().repeat_lines ==> final(self).line_set
                            == old(self).line_set)
                        &&& (!old(self).spec_settings().repeat_lines ==> final(self).line_set.wf() && final(self).line_set.spec_nodes() == old(self).spec_settings().nodes && spec_add_effect(
                            old(self).line_set,
                            final(self).line_set,
                            c,
                            nx,
                        ))
                        &&& final(self).done == (old(self).traced_nodes@.len() + 1 > old(self).spec_settings().max_lines)
                        &&& final(self).spec_remaining() < old(self).spec_remaining()
                    },
                    StepOutcome::Finished => false,
                },
            },
            forall|k: int|
                0 <= k < old(self).canvas@.len() ==> final(self).canvas@[k] <= old(self).canvas@[k],
    {
        if self.done {
            return StepOutcome::Finished;
        }
        let last_index = self.traced_nodes.len() - 1;
        let current = self.traced_nodes[last_index];
        match par_best_next(self, current) {
            None => {
                self.done = true;
                StepOutcome::Finished
            },
            Some(next) => {
                proof {
                    let p = spec_best(
                        self.canvas@,
                        self.spec_target(),
                        self.spec_settings(),
                        self.line_set,
                        current,
                    )->Some_0;
                    let i = choose|i: u16|
                        i < self.spec_settings().nodes - 1 && #[trigger] spec_candidate(
                            self.canvas@,
                            self.spec_target(),
                            self.spec_settings(),
                            self.line_set,
                            current,
                            i,
                        ) == Option::Some((p.0, next));
                    assert(spec_next_of(current, i) < self.spec_settings().nodes);
                    assert(next < self.spec_settings().nodes);
                }
                self.commit_chord(current, next);
                StepOutcome::Advanced(current, next)
            },
        }
    }
}

} // verus!
