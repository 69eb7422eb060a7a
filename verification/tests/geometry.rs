use survey_geometry::geometry::{Mercator, MercatorLine, MercatorSegment, COORD_LIMIT, SLOPE_LIMIT};

const SCALE: i64 = 1_000_000_000;

#[test]
fn parallel_identical_slopes() {
    // Two distinct lines of identical slope are parallel within tolerance.
    let l1 = MercatorLine::from_slope(2 * SCALE, Mercator { x: 0, y: 0 });
    let l2 = MercatorLine::from_slope(2 * SCALE, Mercator { x: 0, y: SCALE });
    assert_eq!(l1.intersection(l2), None);
}

#[test]
fn parallel_identical_horizontal() {
    let l1 = MercatorLine { slope: 0, y_intercept: 0 };
    let l2 = MercatorLine { slope: 0, y_intercept: 7 };
    assert_eq!(l1.intersection(l2), None);
}

#[test]
fn near_parallel_slopes_intersect() {
    // Slopes 1.0 and 1.0 + 1e-3 are distinct: a defined crossing comes back.
    let l1 = MercatorLine { slope: SCALE, y_intercept: 0 };
    let l2 = MercatorLine {
        slope: SCALE + 1_000_000,
        y_intercept: -1_000_000,
    };
    let p = l1.intersection(l2).unwrap();
    assert_eq!(p, Mercator { x: SCALE, y: SCALE });
}

#[test]
fn bounded_intersection_accepted() {
    // Segment (0,0)-(10,0) and the line y = x - 5 cross at (5,0).
    let seg = MercatorSegment {
        a: Mercator { x: 0, y: 0 },
        b: Mercator { x: 10 * SCALE, y: 0 },
    };
    let line = MercatorLine {
        slope: SCALE,
        y_intercept: -5 * SCALE,
    };
    assert_eq!(
        seg.intersection(line),
        Some(Mercator { x: 5 * SCALE, y: 0 })
    );
}

#[test]
fn bounded_intersection_rejected() {
    // The same line shifted to cross at x = 15 misses the segment.
    let seg = MercatorSegment {
        a: Mercator { x: 0, y: 0 },
        b: Mercator { x: 10 * SCALE, y: 0 },
    };
    let line = MercatorLine {
        slope: SCALE,
        y_intercept: -15 * SCALE,
    };
    assert_eq!(seg.intersection(line), None);
}

#[test]
fn vertical_segment_intersection() {
    // A vertical segment still reports the crossing of a line through it.
    let seg = MercatorSegment {
        a: Mercator { x: 2 * SCALE, y: 0 },
        b: Mercator { x: 2 * SCALE, y: 10 * SCALE },
    };
    let line = MercatorLine {
        slope: 0,
        y_intercept: 3 * SCALE,
    };
    assert_eq!(
        seg.intersection(line),
        Some(Mercator {
            x: 2 * SCALE,
            y: 3 * SCALE
        })
    );
    let above = MercatorLine {
        slope: 0,
        y_intercept: 11 * SCALE,
    };
    assert_eq!(seg.intersection(above), None);
}

#[test]
fn slope_of_vertical_chord_is_undefined() {
    let a = Mercator { x: SCALE, y: 0 };
    let b = Mercator { x: SCALE, y: 5 * SCALE };
    assert_eq!(a.slope(b), None);
}

#[test]
fn slope_exact_value() {
    let a = Mercator { x: 0, y: 0 };
    let b = Mercator {
        x: 3 * SCALE,
        y: 4 * SCALE,
    };
    // 4/3 truncated at nine decimal places.
    assert_eq!(a.slope(b), Some(1_333_333_333));
}

#[test]
fn distance_squared_exact() {
    let a = Mercator { x: 0, y: 0 };
    let b = Mercator { x: 3, y: 4 };
    assert_eq!(a.distance_squared(b), 25);
}

#[test]
fn midpoint_exact() {
    let seg = MercatorSegment {
        a: Mercator { x: 0, y: 2 },
        b: Mercator { x: 10, y: 4 },
    };
    assert_eq!(seg.midpoint(), Mercator { x: 5, y: 3 });
}

#[test]
fn from_slope_exact() {
    let p = Mercator {
        x: SCALE,
        y: 2 * SCALE,
    };
    let l = MercatorLine::from_slope(SCALE / 2, p);
    assert_eq!(l.slope, SCALE / 2);
    assert_eq!(l.y_intercept, 3 * SCALE / 2);
}

#[test]
fn tessellation_ends_on_terminal_point() {
    // Whatever the step, the exact terminal endpoint is the last element.
    let seg = MercatorSegment {
        a: Mercator { x: 0, y: 0 },
        b: Mercator { x: 10 * SCALE, y: 0 },
    };
    for step in [3 * SCALE, 7 * SCALE, SCALE / 3, 9 * SCALE + 123] {
        let pts = seg.plot(step);
        assert_eq!(*pts.last().unwrap(), seg.b);
    }
}

#[test]
fn tessellation_spacing_and_terminal() {
    let seg = MercatorSegment {
        a: Mercator { x: 0, y: 0 },
        b: Mercator { x: 10 * SCALE, y: 0 },
    };
    let pts = seg.plot(3 * SCALE);
    // Samples at 0, 3, 6, 9, then the terminal point.
    assert_eq!(pts.len(), 5);
    assert_eq!(pts[0], Mercator { x: 0, y: 0 });
    assert_eq!(pts[1], Mercator { x: 3 * SCALE, y: 0 });
    assert_eq!(pts[3], Mercator { x: 9 * SCALE, y: 0 });
    assert_eq!(pts[4], Mercator { x: 10 * SCALE, y: 0 });
}

#[test]
fn tessellation_terminal_is_exact_not_sampled() {
    // On a slanted chord the sampled y values truncate, but the terminal
    // element is the true endpoint, not a line sample.
    let seg = MercatorSegment {
        a: Mercator { x: 0, y: 0 },
        b: Mercator {
            x: 3 * SCALE,
            y: 4 * SCALE,
        },
    };
    let pts = seg.plot(SCALE);
    assert_eq!(pts.len(), 6);
    assert_eq!(pts[1], Mercator { x: 600_000_000, y: 799_999_999 });
    assert_eq!(
        pts[4],
        Mercator {
            x: 2_400_000_000,
            y: 3_199_999_999
        }
    );
    assert_eq!(*pts.last().unwrap(), seg.b);
}

#[test]
fn tessellation_reversed_segment_ends_high() {
    // The walk runs from the low x to the high x, so a reversed segment
    // ends on its first endpoint.
    let seg = MercatorSegment {
        a: Mercator { x: 10 * SCALE, y: 0 },
        b: Mercator { x: 0, y: 0 },
    };
    let pts = seg.plot(4 * SCALE);
    assert_eq!(*pts.last().unwrap(), seg.a);
}

#[test]
fn tessellation_vertical_segment_degenerates() {
    let seg = MercatorSegment {
        a: Mercator { x: SCALE, y: 0 },
        b: Mercator { x: SCALE, y: 5 * SCALE },
    };
    let pts = seg.plot(SCALE);
    assert_eq!(pts.len(), 2);
    assert_eq!(pts[0], seg.a);
    assert_eq!(pts[1], seg.b);
}

#[test]
fn intersection_symmetric_generic() {
    // The two-line system is symmetric, and so is the intersection.
    let l1 = MercatorLine {
        slope: 2 * SCALE,
        y_intercept: 7,
    };
    let l2 = MercatorLine {
        slope: -3 * SCALE,
        y_intercept: 4 * SCALE,
    };
    assert_eq!(l1.intersection(l2), l2.intersection(l1));
    assert!(l1.intersection(l2).is_some());
}

#[test]
fn intersection_symmetric_at_window_edge() {
    // A crossing with y exactly on the coordinate-window bound is
    // accepted the same way in both argument orders.
    let l1 = MercatorLine {
        slope: SLOPE_LIMIT,
        y_intercept: COORD_LIMIT,
    };
    let l2 = MercatorLine {
        slope: -SLOPE_LIMIT,
        y_intercept: COORD_LIMIT + 1,
    };
    let p12 = l1.intersection(l2);
    let p21 = l2.intersection(l1);
    assert_eq!(p12, p21);
    assert_eq!(
        p12,
        Some(Mercator {
            x: 0,
            y: COORD_LIMIT
        })
    );
}
