use survey_geometry::boundary::{Boundary, BoundaryEntry};
use survey_geometry::geometry::{Mercator, MercatorSegment};
use survey_geometry::survey::Survey;
use survey_geometry::Error;

const SCALE: i64 = 1_000_000_000;

fn vertex(x: i64, y: i64) -> BoundaryEntry {
    BoundaryEntry::Vertex(Mercator { x, y })
}

/// A closed square boundary with corners (0,0), (10,0), (10,10), (0,10).
fn square() -> Boundary {
    let entries = vec![
        vertex(0, 0),
        vertex(10 * SCALE, 0),
        vertex(10 * SCALE, 10 * SCALE),
        vertex(0, 10 * SCALE),
        vertex(0, 0),
    ];
    Boundary::load(&entries).unwrap()
}

#[test]
fn load_pairs_consecutive_vertices() {
    let b = square();
    assert_eq!(b.0.len(), 4);
    assert_eq!(
        b.0[1],
        MercatorSegment {
            a: Mercator {
                x: 10 * SCALE,
                y: 0
            },
            b: Mercator {
                x: 10 * SCALE,
                y: 10 * SCALE
            },
        }
    );
}

#[test]
fn load_skips_comment_entries() {
    let entries = vec![
        BoundaryEntry::Comment,
        vertex(0, 0),
        BoundaryEntry::Comment,
        vertex(SCALE, 0),
        vertex(SCALE, SCALE),
    ];
    let b = Boundary::load(&entries).unwrap();
    assert_eq!(b.0.len(), 2);
    assert_eq!(
        b.0[0],
        MercatorSegment {
            a: Mercator { x: 0, y: 0 },
            b: Mercator { x: SCALE, y: 0 },
        }
    );
}

#[test]
fn load_single_vertex_is_insufficient() {
    let entries = vec![vertex(0, 0)];
    assert_eq!(
        Boundary::load(&entries).unwrap_err(),
        Error::BoundaryInsufficient
    );
}

#[test]
fn load_only_comments_is_insufficient() {
    let entries = vec![BoundaryEntry::Comment, BoundaryEntry::Comment];
    assert_eq!(
        Boundary::load(&entries).unwrap_err(),
        Error::BoundaryInsufficient
    );
}

#[test]
fn clip_square_end_to_end() {
    // A field point at (5,5) with a horizontal orientation line clips to
    // the segment (0,5)-(10,5), west end first.
    let b = square();
    let survey = Survey::from_slope(
        Mercator {
            x: 5 * SCALE,
            y: 5 * SCALE,
        },
        0,
    );
    let seg = b.limit(&survey).unwrap();
    assert_eq!(seg.a, Mercator { x: 0, y: 5 * SCALE });
    assert_eq!(
        seg.b,
        Mercator {
            x: 10 * SCALE,
            y: 5 * SCALE
        }
    );
}

#[test]
fn clip_one_sided_crossing_fails() {
    // A field point east of the square leaves the east partition empty:
    // a caller treats that as the boundary-limit failure.
    let b = square();
    let survey = Survey::from_slope(
        Mercator {
            x: 15 * SCALE,
            y: 5 * SCALE,
        },
        0,
    );
    let clipped = b.limit(&survey);
    assert_eq!(clipped, None);
    assert_eq!(
        clipped.ok_or(Error::BoundaryLimitFailed),
        Err(Error::BoundaryLimitFailed)
    );
}

#[test]
fn clip_keeps_nearest_crossing_per_side() {
    // Two boundary walls on each side: only the nearer crossing of each
    // side survives.
    let entries = vec![
        vertex(-4 * SCALE, -SCALE),
        vertex(-4 * SCALE, SCALE),
        vertex(-2 * SCALE, SCALE),
        vertex(-2 * SCALE, -SCALE),
        vertex(3 * SCALE, -SCALE),
        vertex(3 * SCALE, SCALE),
        vertex(6 * SCALE, SCALE),
        vertex(6 * SCALE, -SCALE),
    ];
    let b = Boundary::load(&entries).unwrap();
    let survey = Survey::from_slope(Mercator { x: 0, y: 0 }, 0);
    let seg = b.limit(&survey).unwrap();
    assert_eq!(seg.a, Mercator { x: -2 * SCALE, y: 0 });
    assert_eq!(seg.b, Mercator { x: 3 * SCALE, y: 0 });
}
