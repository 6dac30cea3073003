use string_art::raster::trace_line;
use string_art::raster::Visit;

fn q16(v: i64) -> i64 {
    v * 65536
}

fn visit(x: u32, y: u32, coverage: u32) -> Visit {
    Visit { x, y, coverage }
}

fn run(a: (i64, i64), b: (i64, i64)) -> Vec<Visit> {
    trace_line(a, b)
}

#[test]
fn tests() {
    let xiaolin_wu = |a: (i64, i64), b: (i64, i64)| run(a, b);

    assert_eq!(
        xiaolin_wu((q16(0), q16(0)), (q16(6), q16(3))),
        [
            visit(0, 0, 65536),
            visit(1, 0, 32768),
            visit(1, 1, 32768),
            visit(2, 1, 65536),
            visit(3, 1, 32768),
            visit(3, 2, 32768),
            visit(4, 2, 65536),
            visit(5, 2, 32768),
            visit(5, 3, 32768),
            visit(6, 3, 65536),
        ]
    );

    assert_eq!(
        xiaolin_wu((q16(4), q16(2)), (q16(4), q16(6))),
        [
            visit(4, 2, 65536),
            visit(4, 3, 65536),
            visit(4, 4, 65536),
            visit(4, 5, 65536),
            visit(4, 6, 65536),
        ]
    );

    assert_eq!(
        xiaolin_wu((q16(2), q16(4)), (q16(6), q16(4))),
        [
            visit(2, 4, 65536),
            visit(3, 4, 65536),
            visit(4, 4, 65536),
            visit(5, 4, 65536),
            visit(6, 4, 65536),
        ]
    );

    // The algorithm reorders the points to be left-to-right; 22315008 and
    // 19055903 are 340.5 and about 290.77 in Q16.
    assert_eq!(
        xiaolin_wu((22315008, 19055903), (q16(110), q16(170))),
        xiaolin_wu((q16(110), q16(170)), (22315008, 19055903))
    );
}

#[test]
fn traversal_is_symmetric_on_a_steep_line() {
    let a = (q16(3), q16(1));
    let b = (q16(5), q16(9));
    assert_eq!(run(a, b), run(b, a));
}

#[test]
fn coverages_are_positive_and_at_most_one() {
    let visits = run((q16(0), q16(0)), (22315008, 19055903));
    assert!(!visits.is_empty());
    for v in visits {
        assert!(v.coverage > 0 && v.coverage <= 65536);
    }
}

#[test]
fn single_point_line_visits_once() {
    let visits = run((q16(7), q16(7)), (q16(7), q16(7)));
    assert_eq!(visits, [visit(7, 7, 65536)]);
}
