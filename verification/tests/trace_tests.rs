use string_art::settings::ColorDistanceFn;
use string_art::settings::Settings;
use string_art::trace::ConfigError;
use string_art::trace::StepOutcome;
use string_art::trace::StringTrace;

fn small_settings() -> Settings {
    Settings {
        diameter: 10,
        nodes: 4,
        nodes_offset: 0,
        string_alpha: 19661,
        max_lines: 10,
        repeat_lines: false,
        color_distance_fn: ColorDistanceFn::SQUARE,
    }
}

#[test]
fn default_settings_are_the_documented_run() {
    let st = Settings::default();
    assert_eq!(st.diameter, 500);
    assert_eq!(st.nodes, 200);
    assert_eq!(st.nodes_offset, 65536);
    assert_eq!(st.string_alpha, 19661);
    assert_eq!(st.max_lines, 6000);
    assert!(!st.repeat_lines);
    assert_eq!(st.color_distance_fn, ColorDistanceFn::SQUARE);
}

#[test]
fn color_distance_exact_values() {
    let mut st = small_settings();
    st.color_distance_fn = ColorDistanceFn::ABS;
    assert_eq!(st.color_dist(5, 3), 2);
    assert_eq!(st.color_dist(3, 5), 2);
    st.color_distance_fn = ColorDistanceFn::SQUARE;
    assert_eq!(st.color_dist(5, 3), 4);
    assert_eq!(st.color_dist(0, 255), 65025);
}

#[test]
fn regular_four_node_layout_hits_the_extreme_points() {
    let st = small_settings();
    // Radius 4 centered at (4, 4), Q16.
    assert_eq!(st.node_pos(0), (8 * 65536, 4 * 65536));
    assert_eq!(st.node_pos(1), (4 * 65536, 8 * 65536));
    assert_eq!(st.node_pos(2), (0, 4 * 65536));
    assert_eq!(st.node_pos(3), (4 * 65536, 0));
}

#[test]
fn dimension_mismatch_is_rejected() {
    let st = small_settings();
    let target = vec![0u8; 99];
    assert_eq!(
        StringTrace::new(st, target).err(),
        Some(ConfigError::DimensionMismatch)
    );
}

#[test]
fn too_few_nodes_is_rejected() {
    let mut st = small_settings();
    st.nodes = 1;
    let target = vec![0u8; 100];
    assert_eq!(
        StringTrace::new(st, target).err(),
        Some(ConfigError::TooFewNodes)
    );
}

#[test]
fn zero_chord_budget_is_rejected() {
    let mut st = small_settings();
    st.max_lines = 0;
    let target = vec![0u8; 100];
    assert_eq!(
        StringTrace::new(st, target).err(),
        Some(ConfigError::ZeroMaxChords)
    );
}

#[test]
fn all_white_target_finishes_immediately() {
    let st = small_settings();
    let target = vec![255u8; 100];
    let mut trace = StringTrace::new(st, target).unwrap();
    assert_eq!(trace.step(), StepOutcome::Finished);
    assert!(trace.done);
    assert_eq!(trace.traced_nodes, vec![0]);
}

#[test]
fn step_is_a_no_op_once_finished() {
    let st = small_settings();
    let target = vec![255u8; 100];
    let mut trace = StringTrace::new(st, target).unwrap();
    trace.step();
    let nodes_before = trace.traced_nodes.clone();
    let canvas_before = trace.canvas.pixels().clone();
    assert_eq!(trace.step(), StepOutcome::Finished);
    assert_eq!(trace.traced_nodes, nodes_before);
    assert_eq!(trace.canvas.pixels(), &canvas_before);
}

/// A target solid black except the pixels nearest nodes 0 and 2: the chord
/// between those two nodes darkens the most black target area per pixel.
fn crossing_target() -> Vec<u8> {
    let mut target = vec![0u8; 100];
    target[4 * 10 + 8] = 255;
    target[4 * 10] = 255;
    target
}

#[test]
fn first_chord_crosses_the_circle() {
    let st = small_settings();
    let mut trace = StringTrace::new(st, crossing_target()).unwrap();
    assert_eq!(trace.step(), StepOutcome::Advanced(0, 2));
    assert_eq!(trace.traced_nodes, vec![0, 2]);
}

#[test]
fn parallel_step_agrees_on_the_crossing_chord() {
    let st = small_settings();
    let mut trace = StringTrace::new(st, crossing_target()).unwrap();
    assert_eq!(trace.step_parallel(), StepOutcome::Advanced(0, 2));
}

fn patterned_target(side: usize) -> Vec<u8> {
    (0..side * side).map(|i| (i * 37 % 251) as u8).collect()
}

#[test]
fn single_threaded_runs_are_deterministic() {
    let st = Settings {
        diameter: 12,
        nodes: 8,
        nodes_offset: 65536,
        string_alpha: 19661,
        max_lines: 20,
        repeat_lines: false,
        color_distance_fn: ColorDistanceFn::SQUARE,
    };
    let mut first = StringTrace::new(st, patterned_target(12)).unwrap();
    let mut second = StringTrace::new(st, patterned_target(12)).unwrap();
    for _ in 0..32 {
        let a = first.step();
        let b = second.step();
        assert_eq!(a, b);
        if a == StepOutcome::Finished {
            break;
        }
    }
    assert_eq!(first.traced_nodes, second.traced_nodes);
    assert_eq!(first.canvas.pixels(), second.canvas.pixels());
}

#[test]
fn sessions_finish_within_their_chord_budget() {
    let st = Settings {
        diameter: 12,
        nodes: 6,
        nodes_offset: 0,
        string_alpha: 65536,
        max_lines: 3,
        repeat_lines: false,
        color_distance_fn: ColorDistanceFn::ABS,
    };
    let mut trace = StringTrace::new(st, vec![0u8; 144]).unwrap();
    let mut advanced = 0;
    for _ in 0..100 {
        match trace.step() {
            StepOutcome::Advanced(_, _) => advanced += 1,
            StepOutcome::Finished => break,
        }
    }
    assert!(trace.done);
    assert!(advanced <= 3);
    assert!(trace.traced_nodes.len() <= 4);
}

#[test]
fn repeat_lines_off_never_redraws_a_chord() {
    let st = Settings {
        diameter: 10,
        nodes: 4,
        nodes_offset: 0,
        string_alpha: 65536,
        max_lines: 10,
        repeat_lines: false,
        color_distance_fn: ColorDistanceFn::SQUARE,
    };
    let mut trace = StringTrace::new(st, vec![0u8; 100]).unwrap();
    let mut chords = Vec::new();
    for _ in 0..20 {
        match trace.step() {
            StepOutcome::Advanced(a, b) => {
                let chord = (a.min(b), a.max(b));
                assert!(!chords.contains(&chord), "chord {chord:?} drawn twice");
                chords.push(chord);
            }
            StepOutcome::Finished => break,
        }
    }
}
