use mandelbrot_rs::escape::{advance, Step, BOUNDED, FIRST_COUNT};

/// Runs the quadratic recurrence in single precision, seeded at the point
/// itself, and lets the library decide after every iterate.
fn evaluate(cx: f32, cy: f32, cap: i32) -> i32 {
    let mut zx: f32 = cx;
    let mut zy: f32 = cy;
    let mut count: i32 = FIRST_COUNT;
    let mut x2: f32 = zx * zx;
    let mut y2: f32 = zy * zy;
    loop {
        match advance(count, cap, x2 + y2 < 4.0) {
            Step::Finish(result) => return result,
            Step::Iterate(next) => {
                zy = zx * zy * 2.0 + cy;
                zx = x2 - y2 + cx;
                count = next;
                x2 = zx * zx;
                y2 = zy * zy;
            }
        }
    }
}

const SAMPLE_POINTS: [(f32, f32); 8] = [
    (0.0, 0.0),
    (2.0, 2.0),
    (-1.0, -1.0),
    (-2.0, 0.0),
    (0.25, 0.5),
    (-0.75, 0.1),
    (1.0e20, -3.0),
    (-1.5, 1.0),
];

#[test]
fn it_works() {
    let result: i32 = 2 + 2;
    assert_eq!(result, 4);
}

#[test]
fn sentinel_and_first_count_values() {
    assert_eq!(BOUNDED, -1);
    assert_eq!(FIRST_COUNT, 1);
}

#[test]
fn advance_iterates_below_the_cap_while_inside() {
    assert_eq!(advance(1, 50, true), Step::Iterate(2));
    assert_eq!(advance(3, 10, true), Step::Iterate(4));
    assert_eq!(advance(9, 10, true), Step::Iterate(10));
    assert_eq!(advance(i32::MAX - 1, i32::MAX, true), Step::Iterate(i32::MAX));
    assert_eq!(advance(-7, 0, true), Step::Iterate(-6));
}

#[test]
fn advance_reports_the_count_on_escape() {
    assert_eq!(advance(1, 2, false), Step::Finish(1));
    assert_eq!(advance(3, 10, false), Step::Finish(3));
    assert_eq!(advance(9, 10, false), Step::Finish(9));
    assert_eq!(advance(i32::MAX - 1, i32::MAX, false), Step::Finish(i32::MAX - 1));
}

#[test]
fn advance_reports_the_sentinel_at_the_cap() {
    assert_eq!(advance(10, 10, true), Step::Finish(-1));
    assert_eq!(advance(10, 10, false), Step::Finish(-1));
    assert_eq!(advance(11, 10, true), Step::Finish(-1));
    assert_eq!(advance(i32::MAX, i32::MAX, true), Step::Finish(-1));
    assert_eq!(advance(1, 1, true), Step::Finish(-1));
    assert_eq!(advance(1, 1, false), Step::Finish(-1));
}

#[test]
fn cap_of_one_is_bounded_everywhere() {
    for (cx, cy) in SAMPLE_POINTS {
        assert_eq!(evaluate(cx, cy, 1), -1);
    }
}

#[test]
fn cap_of_zero_or_less_is_bounded_everywhere() {
    for (cx, cy) in SAMPLE_POINTS {
        assert_eq!(evaluate(cx, cy, 0), -1);
        assert_eq!(evaluate(cx, cy, -5), -1);
        assert_eq!(evaluate(cx, cy, i32::MIN), -1);
    }
    assert_eq!(advance(1, 0, true), Step::Finish(-1));
    assert_eq!(advance(1, -3, false), Step::Finish(-1));
}

#[test]
fn origin_is_bounded_under_every_cap() {
    let mut cap: i32 = 1;
    while cap <= 200 {
        assert_eq!(evaluate(0.0, 0.0, cap), -1);
        cap += 1;
    }
    assert_eq!(evaluate(0.0, 0.0, 100_000), -1);
}

#[test]
fn far_point_escapes_at_the_first_count() {
    let mut cap: i32 = 2;
    while cap <= 200 {
        assert_eq!(evaluate(2.0, 2.0, cap), 1);
        cap += 1;
    }
    assert_eq!(evaluate(2.0, 2.0, i32::MAX), 1);
}

#[test]
fn point_on_the_escape_circle_counts_as_escaped() {
    assert_eq!(evaluate(-2.0, 0.0, 50), 1);
    assert_eq!(evaluate(0.0, 2.0, 50), 1);
}

#[test]
fn escape_counts_of_known_points() {
    assert_eq!(evaluate(-1.0, -1.0, 50), 3);
    assert_eq!(evaluate(-1.0, -1.0, 4), 3);
    assert_eq!(evaluate(0.5, 0.5, 50), 5);
    assert_eq!(evaluate(0.0, -1.0, 50), -1);
    assert_eq!(evaluate(-1.0, 0.0, 50), -1);
}

#[test]
fn escape_at_the_cap_is_reported_as_bounded() {
    assert_eq!(evaluate(-1.0, -1.0, 3), -1);
    assert_eq!(evaluate(0.5, 0.5, 5), -1);
    assert_eq!(evaluate(0.5, 0.5, 6), 5);
}

#[test]
fn slow_escape_depends_on_the_cap() {
    assert_eq!(evaluate(0.26, 0.0, 200), 30);
    assert_eq!(evaluate(0.26, 0.0, 31), 30);
    assert_eq!(evaluate(0.26, 0.0, 30), -1);
    assert_eq!(evaluate(0.26, 0.0, 20), -1);
}

#[test]
fn result_is_the_sentinel_or_a_count_below_the_cap() {
    let caps: [i32; 6] = [1, 2, 3, 10, 50, 1000];
    for cap in caps {
        for (cx, cy) in SAMPLE_POINTS {
            let result: i32 = evaluate(cx, cy, cap);
            assert!(result == -1 || (1 <= result && result < cap));
            assert_ne!(result, 0);
        }
    }
}

#[test]
fn evaluation_is_repeatable() {
    for (cx, cy) in SAMPLE_POINTS {
        assert_eq!(evaluate(cx, cy, 75), evaluate(cx, cy, 75));
    }
}
