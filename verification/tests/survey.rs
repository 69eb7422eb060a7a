use survey_geometry::geometry::{Mercator, MercatorSegment};
use survey_geometry::survey::{
    coord_average, hash_mark, linear_regression, sidelines_and_50, stanford, syracuse, Survey,
};
use survey_geometry::Error;

const SCALE: i64 = 1_000_000_000;

/// A regular 2x5 grid of hash marks, tilted along the direction (4, 3):
/// columns 1.5 planar units apart along the axis, rows 1.0 apart across
/// it, so the five cross-row chords are strictly the shortest and the
/// eight adjacent along-row chords come next.
fn tilted_grid() -> Vec<Mercator> {
    let unit = 100_000_000i64;
    let mut pts = Vec::new();
    for c in 0..5i64 {
        pts.push(Mercator {
            x: 12 * c * unit,
            y: 9 * c * unit,
        });
    }
    for c in 0..5i64 {
        pts.push(Mercator {
            x: 12 * c * unit - 6 * unit,
            y: 9 * c * unit + 8 * unit,
        });
    }
    pts
}

#[test]
fn hash_mark_grid_recovers_axis() {
    // The grouping heuristic recovers the grid axis slope 0.75 exactly.
    let marks = tilted_grid();
    let s = hash_mark(&marks, false).unwrap();
    assert_eq!(
        s.field,
        Mercator {
            x: 2_100_000_000,
            y: 2_200_000_000
        }
    );
    assert_eq!(s.line.slope, 750_000_000);
    assert_eq!(s.line.y_intercept, 625_000_000);
}

#[test]
fn hash_mark_eleven_marks_uses_regression() {
    let mut marks = tilted_grid();
    marks.push(Mercator { x: SCALE, y: SCALE });
    let s = hash_mark(&marks, false).unwrap();
    // Field is still the mean of the first ten marks.
    assert_eq!(
        s.field,
        Mercator {
            x: 2_100_000_000,
            y: 2_200_000_000
        }
    );
    // Least squares over all eleven marks.
    assert_eq!(s.line.slope, 701_298_701);
}

#[test]
fn hash_mark_center_fit_uses_supplemental_marks() {
    let mut marks = tilted_grid();
    marks.push(Mercator { x: SCALE, y: SCALE });
    let s = hash_mark(&marks, true).unwrap();
    // Least squares over the supplemental mark plus the field point.
    assert_eq!(s.line.slope, 1_090_909_090);
}

#[test]
fn hash_mark_few_marks_uses_regression() {
    let marks = vec![
        Mercator { x: 0, y: 0 },
        Mercator {
            x: SCALE,
            y: 2 * SCALE,
        },
        Mercator {
            x: 2 * SCALE,
            y: 4 * SCALE,
        },
    ];
    let s = hash_mark(&marks, false).unwrap();
    assert_eq!(s.field, Mercator { x: SCALE, y: 2 * SCALE });
    assert_eq!(s.line.slope, 2 * SCALE);
}

#[test]
fn hash_mark_no_marks_is_insufficient() {
    let marks: Vec<Mercator> = Vec::new();
    assert_eq!(hash_mark(&marks, false), Err(Error::SurveyInsufficient));
}

#[test]
fn regression_degenerate_on_shared_x() {
    // Three or more points sharing one x must report the degeneracy, not
    // produce an unusable slope.
    let marks = vec![
        Mercator { x: SCALE, y: SCALE },
        Mercator {
            x: SCALE,
            y: 2 * SCALE,
        },
        Mercator {
            x: SCALE,
            y: 3 * SCALE,
        },
    ];
    assert_eq!(linear_regression(&marks), Err(Error::RegressionDegenerate));
    assert_eq!(hash_mark(&marks, false), Err(Error::RegressionDegenerate));
}

#[test]
fn regression_exact_slope() {
    let marks = vec![
        Mercator { x: 0, y: 0 },
        Mercator { x: SCALE, y: SCALE },
        Mercator {
            x: 2 * SCALE,
            y: 2 * SCALE,
        },
    ];
    assert_eq!(linear_regression(&marks), Ok(SCALE));
}

#[test]
fn coord_average_exact() {
    let pts = vec![
        Mercator { x: 1, y: 2 },
        Mercator { x: 3, y: 4 },
    ];
    assert_eq!(coord_average(&pts, 2), Mercator { x: 2, y: 3 });
}

#[test]
fn survey_from_slope_builds_line() {
    let field = Mercator {
        x: SCALE,
        y: 2 * SCALE,
    };
    let s = Survey::from_slope(field, SCALE / 2);
    assert_eq!(s.field, field);
    assert_eq!(s.as_line().slope, SCALE / 2);
    assert_eq!(s.as_line().y_intercept, 3 * SCALE / 2);
}

fn horizontal_sidelines() -> (MercatorSegment, MercatorSegment) {
    (
        MercatorSegment {
            a: Mercator { x: 0, y: 0 },
            b: Mercator { x: 10 * SCALE, y: 0 },
        },
        MercatorSegment {
            a: Mercator { x: 0, y: 10 * SCALE },
            b: Mercator {
                x: 10 * SCALE,
                y: 10 * SCALE,
            },
        },
    )
}

fn slanted_fifty() -> MercatorSegment {
    MercatorSegment {
        a: Mercator { x: 4 * SCALE, y: 0 },
        b: Mercator {
            x: 6 * SCALE,
            y: 10 * SCALE,
        },
    }
}

#[test]
fn sidelines_field_is_midpoint_of_crossings() {
    let marks: Vec<Mercator> = Vec::new();
    let s = sidelines_and_50(slanted_fifty(), horizontal_sidelines(), &marks).unwrap();
    assert_eq!(
        s.field,
        Mercator {
            x: 5 * SCALE,
            y: 5 * SCALE
        }
    );
    // No extra markers: the mean of the two sideline slopes.
    assert_eq!(s.line.slope, 0);
    assert_eq!(s.line.y_intercept, 5 * SCALE);
}

#[test]
fn sidelines_with_marks_uses_regression() {
    let marks = vec![Mercator { x: 0, y: SCALE }];
    let s = sidelines_and_50(slanted_fifty(), horizontal_sidelines(), &marks).unwrap();
    assert_eq!(
        s.field,
        Mercator {
            x: 5 * SCALE,
            y: 5 * SCALE
        }
    );
    // Least squares over the four sideline endpoints, the extra marker
    // and the field point.
    assert_eq!(s.line.slope, 137_931_034);
}

#[test]
fn sidelines_parallel_midline_is_insufficient() {
    // A midline parallel to a sideline has no crossing with it.
    let (s0, s1) = horizontal_sidelines();
    let flat_fifty = MercatorSegment {
        a: Mercator { x: 0, y: 5 * SCALE },
        b: Mercator {
            x: 10 * SCALE,
            y: 5 * SCALE,
        },
    };
    let marks: Vec<Mercator> = Vec::new();
    assert_eq!(
        sidelines_and_50(flat_fifty, (s0, s1), &marks),
        Err(Error::SurveyInsufficient)
    );
}

#[test]
fn sidelines_vertical_reference_is_insufficient() {
    let (s0, s1) = horizontal_sidelines();
    let vertical_fifty = MercatorSegment {
        a: Mercator { x: 5 * SCALE, y: 0 },
        b: Mercator {
            x: 5 * SCALE,
            y: 10 * SCALE,
        },
    };
    let marks: Vec<Mercator> = Vec::new();
    assert_eq!(
        sidelines_and_50(vertical_fifty, (s0, s1), &marks),
        Err(Error::SurveyInsufficient)
    );
}

#[test]
fn stanford_mean_of_endpoints_and_slopes() {
    let (s0, s1) = horizontal_sidelines();
    let segments = vec![s0, s1];
    let marks: Vec<Mercator> = Vec::new();
    let s = stanford(&segments, &marks).unwrap();
    assert_eq!(
        s.field,
        Mercator {
            x: 5 * SCALE,
            y: 5 * SCALE
        }
    );
    assert_eq!(s.line.slope, 0);
}

#[test]
fn stanford_with_marks_uses_regression() {
    let (s0, s1) = horizontal_sidelines();
    let segments = vec![s0, s1];
    let marks = vec![
        Mercator { x: 0, y: 0 },
        Mercator {
            x: SCALE,
            y: 2 * SCALE,
        },
    ];
    let s = stanford(&segments, &marks).unwrap();
    assert_eq!(s.line.slope, 928_571_428);
}

#[test]
fn stanford_without_segments_is_insufficient() {
    let segments: Vec<MercatorSegment> = Vec::new();
    let marks: Vec<Mercator> = Vec::new();
    assert_eq!(stanford(&segments, &marks), Err(Error::SurveyInsufficient));
}

#[test]
fn syracuse_midline_from_first_two_marks() {
    let (s0, s1) = horizontal_sidelines();
    let fifty = slanted_fifty();
    let marks = vec![fifty.a, fifty.b];
    let segments = vec![s0, s1];
    let s = syracuse(&marks, &segments).unwrap();
    assert_eq!(
        s.field,
        Mercator {
            x: 5 * SCALE,
            y: 5 * SCALE
        }
    );
    assert_eq!(s.line.slope, 0);
}

#[test]
fn syracuse_too_few_marks_is_insufficient() {
    let (s0, s1) = horizontal_sidelines();
    let marks = vec![Mercator { x: 0, y: 0 }];
    let segments = vec![s0, s1];
    assert_eq!(syracuse(&marks, &segments), Err(Error::SurveyInsufficient));
}

#[test]
fn default_dispatches_on_segments() {
    let (s0, s1) = horizontal_sidelines();
    let segments = vec![slanted_fifty(), s0, s1];
    let marks: Vec<Mercator> = Vec::new();
    let s = survey_geometry::survey::default(&marks, &segments, false).unwrap();
    assert_eq!(
        s.field,
        Mercator {
            x: 5 * SCALE,
            y: 5 * SCALE
        }
    );
}

#[test]
fn default_wrong_segment_count_is_insufficient() {
    let (s0, _) = horizontal_sidelines();
    let segments = vec![s0];
    let marks: Vec<Mercator> = Vec::new();
    assert_eq!(
        survey_geometry::survey::default(&marks, &segments, false),
        Err(Error::SurveyInsufficient)
    );
}

#[test]
fn default_without_segments_runs_hash_mark() {
    let segments: Vec<MercatorSegment> = Vec::new();
    let marks = tilted_grid();
    let s = survey_geometry::survey::default(&marks, &segments, false).unwrap();
    assert_eq!(s.line.slope, 750_000_000);
}
