//! Planar geometry in the projected (Mercator-like) coordinate space.
//!
//! Coordinates are fixed-point values scaled by [`crate::numeric::SCALE`].
//! A slope is likewise scaled: a stored slope `s` stands for the real slope
//! `s / SCALE`. Lines are carried in slope-intercept form, which cannot
//! represent a vertical line; constructors guard that case explicitly and
//! return `None` instead of fabricating an unusable value, and the same
//! guard rejects slopes too steep for the fixed-point representation.

use crate::numeric::{div_i128, iabs, isqrt, tdiv, SCALE};
use vstd::prelude::*;

verus! {

/// Floor of the nonnegative square root of `n`, as the unique integer
/// whose square brackets `n`.
pub open spec fn sqrt_floor(n: int) -> int {
    choose|r: int| 0 <= r && #[trigger] (r * r) <= n && n < (r + 1) * (r + 1)
}

/// Any integer whose square brackets `n` is `sqrt_floor(n)`.
pub proof fn lemma_sqrt_floor_unique(n: int, r: int)
    requires
        0 <= r,
        r * r <= n,
        n < (r + 1) * (r + 1),
    ensures
        sqrt_floor(n) == r,
{
    assert(0 <= r && r * r <= n && n < (r + 1) * (r + 1));
    let c = sqrt_floor(n);
    assert(0 <= c && c * c <= n && n < (c + 1) * (c + 1));
    assert(c == r) by (nonlinear_arith)
        requires
            0 <= r,
            r * r <= n,
            n < (r + 1) * (r + 1),
            0 <= c,
            c * c <= n,
            n < (c + 1) * (c + 1),
    ;
}

/// Largest coordinate magnitude the engine works on. The whole Earth fits
/// well inside this window: planar `x` spans `[-pi, pi]` scaled, and `y`
/// reaches this bound only within a hair's width of the poles.
pub const COORD_LIMIT: i64 = 0x8_0000_0000;

/// Largest representable slope magnitude (scaled by `SCALE`); anything
/// steeper is treated as vertical.
pub const SLOPE_LIMIT: i64 = 0x4000_0000_0000;

/// Largest y-intercept magnitude a line built by this module can carry.
pub const INTERCEPT_LIMIT: i64 = 0x10_0000_0000_0000;

/// Reciprocal of the relative tolerance of the parallel-line test, the
/// analogue of an IEEE double's epsilon: two lines count as parallel when
/// `|s1 - s2| * PARALLEL_EPS_DEN < max(|s1|, |s2|)`.
pub const PARALLEL_EPS_DEN: i128 = 0x10_0000_0000_0000;

/// Smaller of two mathematical integers.
pub open spec fn imin(a: int, b: int) -> int {
    if a < b {
        a
    } else {
        b
    }
}

/// Larger of two mathematical integers.
pub open spec fn imax(a: int, b: int) -> int {
    if a < b {
        b
    } else {
        a
    }
}

/// A point of the planar projected space, both coordinates scaled by
/// `SCALE`.
#[derive(Debug, Clone, Copy, PartialEq, Eq, Structural)]
pub struct Mercator {
    pub x: i64,
    pub y: i64,
}

/// An infinite non-vertical line of the planar space in slope-intercept
/// form, both fields scaled by `SCALE`.
#[derive(Debug, Clone, Copy, PartialEq, Eq, Structural)]
pub struct MercatorLine {
    pub slope: i64,
    pub y_intercept: i64,
}

impl Mercator {
    /// The point lies inside the coordinate window the engine works on.
    pub open spec fn wf(self) -> bool {
        &&& -COORD_LIMIT <= self.x <= COORD_LIMIT
        &&& -COORD_LIMIT <= self.y <= COORD_LIMIT
    }

    /// Squared planar distance between two points. Distances are compared,
    /// never measured, so the squared form carries exactly the same order
    /// and stays in exact integer arithmetic.
    pub open spec fn distance_squared_spec(self, other: Mercator) -> int {
        (other.x - self.x) * (other.x - self.x) + (other.y - self.y) * (other.y - self.y)
    }

    /// Squared planar distance to `other`.
    pub fn distance_squared(self, other: Mercator) -> (r: u128)
        requires
            self.wf(),
            other.wf(),
        ensures
            r == self.distance_squared_spec(other),
    {
        let dx: i128 = other.x as i128 - self.x as i128;
        let dy: i128 = other.y as i128 - self.y as i128;
        proof {
            crate::numeric::lemma_mul_bound(dx as int, dx as int, 2 * COORD_LIMIT as int, 2 * COORD_LIMIT as int);
            crate::numeric::lemma_mul_bound(dy as int, dy as int, 2 * COORD_LIMIT as int, 2 * COORD_LIMIT as int);
            assert(dx * dx >= 0 && dy * dy >= 0) by (nonlinear_arith);
        }
        (dx * dx) as u128 + (dy * dy) as u128
    }

    /// Scaled slope of the chord from `self` to `other`: `None` for a
    /// vertical chord (equal `x`) and for chords steeper than
    /// `SLOPE_LIMIT`, which the slope-intercept form cannot carry.
    pub open spec fn slope_spec(self, other: Mercator) -> Option<i64> {
        if other.x == self.x {
            None
        } else {
            let s = tdiv((other.y - self.y) * SCALE, other.x - self.x);
            if -SLOPE_LIMIT <= s <= SLOPE_LIMIT {
                Some(s as i64)
            } else {
                None
            }
        }
    }

    /// Scaled slope of the chord from `self` to `other`.
    pub fn slope(self, other: Mercator) -> (r: Option<i64>)
        requires
            self.wf(),
            other.wf(),
        ensures
            r == self.slope_spec(other),
    {
        let dx: i128 = other.x as i128 - self.x as i128;
        if dx == 0 {
            return None;
        }
        let dy: i128 = other.y as i128 - self.y as i128;
        proof {
            crate::numeric::lemma_mul_bound(dy as int, SCALE as int, 2 * COORD_LIMIT as int, SCALE as int);
        }
        let s = div_i128(dy * SCALE as i128, dx);
        if -SLOPE_LIMIT as i128 <= s && s <= SLOPE_LIMIT as i128 {
            Some(s as i64)
        } else {
            None
        }
    }
}

impl MercatorLine {
    /// The line's fields lie inside the representable window.
    pub open spec fn wf(self) -> bool {
        &&& -SLOPE_LIMIT <= self.slope <= SLOPE_LIMIT
        &&& -INTERCEPT_LIMIT <= self.y_intercept <= INTERCEPT_LIMIT
    }

    /// The y value of the line at `x`, with the fixed-point rounding the
    /// executable code performs.
    pub open spec fn y_at_spec(self, x: int) -> int {
        tdiv(self.slope * x, SCALE as int) + self.y_intercept
    }

    /// Evaluate the line at `x`.
    pub fn y_at(self, x: i64) -> (r: i64)
        requires
            self.wf(),
            -COORD_LIMIT <= x <= COORD_LIMIT,
        ensures
            r == self.y_at_spec(x as int),
            iabs(r as int) <= 2 * INTERCEPT_LIMIT,
    {
        proof {
            crate::numeric::lemma_mul_bound(self.slope as int, x as int, SLOPE_LIMIT as int, COORD_LIMIT as int);
            crate::numeric::lemma_tdiv_bound(self.slope as int * x as int, SCALE as int, INTERCEPT_LIMIT as int);
        }
        let t = div_i128(self.slope as i128 * x as i128, SCALE as i128);
        (t as i64) + self.y_intercept
    }

    /// The line with the given scaled slope through `point`.
    pub open spec fn from_slope_spec(slope: i64, point: Mercator) -> MercatorLine {
        MercatorLine { slope, y_intercept: (point.y - tdiv(slope * point.x, SCALE as int)) as i64 }
    }

    /// Build the line of scaled slope `slope` through `point`.
    pub fn from_slope(slope: i64, point: Mercator) -> (r: MercatorLine)
        requires
            -SLOPE_LIMIT <= slope <= SLOPE_LIMIT,
            point.wf(),
        ensures
            r == MercatorLine::from_slope_spec(slope, point),
            r.wf(),
    {
        proof {
            crate::numeric::lemma_mul_bound(slope as int, point.x as int, SLOPE_LIMIT as int, COORD_LIMIT as int);
            crate::numeric::lemma_tdiv_bound(slope as int * point.x as int, SCALE as int, INTERCEPT_LIMIT as int - COORD_LIMIT as int);
        }
        let t = div_i128(slope as i128 * point.x as i128, SCALE as i128);
        MercatorLine { slope, y_intercept: point.y - t as i64 }
    }

    /// The line through two points: `None` when the chord is vertical or
    /// too steep to represent.
    pub open spec fn new_spec(start: Mercator, end: Mercator) -> Option<MercatorLine> {
        match start.slope_spec(end) {
            None => None,
            Some(s) => Some(MercatorLine::from_slope_spec(s, start)),
        }
    }

    /// Build the line through `start` and `end`.
    pub fn new(start: Mercator, end: Mercator) -> (r: Option<MercatorLine>)
        requires
            start.wf(),
            end.wf(),
        ensures
            r == MercatorLine::new_spec(start, end),
            r is Some ==> r.unwrap().wf(),
    {
        match start.slope(end) {
            None => None,
            Some(s) => Some(MercatorLine::from_slope(s, start)),
        }
    }

    /// Of two lines, the one a crossing's y is evaluated on: the flatter
    /// line (smaller slope magnitude, losing the least precision), with
    /// ties broken by the smaller intercept and then the smaller slope.
    /// The choice depends only on the unordered pair of lines, which makes
    /// the intersection symmetric in its arguments.
    pub open spec fn eval_line_spec(l1: MercatorLine, l2: MercatorLine) -> MercatorLine {
        if iabs(l1.slope as int) < iabs(l2.slope as int) {
            l1
        } else if iabs(l2.slope as int) < iabs(l1.slope as int) {
            l2
        } else if l1.y_intercept < l2.y_intercept {
            l1
        } else if l2.y_intercept < l1.y_intercept {
            l2
        } else if l1.slope <= l2.slope {
            l1
        } else {
            l2
        }
    }

    /// Pick the line a crossing's y is evaluated on.
    fn eval_line(l1: MercatorLine, l2: MercatorLine) -> (r: MercatorLine)
        requires
            l1.wf(),
            l2.wf(),
        ensures
            r == MercatorLine::eval_line_spec(l1, l2),
            r.wf(),
    {
        let a1 = if l1.slope < 0 {
            -l1.slope
        } else {
            l1.slope
        };
        let a2 = if l2.slope < 0 {
            -l2.slope
        } else {
            l2.slope
        };
        if a1 < a2 {
            l1
        } else if a2 < a1 {
            l2
        } else if l1.y_intercept < l2.y_intercept {
            l1
        } else if l2.y_intercept < l1.y_intercept {
            l2
        } else if l1.slope <= l2.slope {
            l1
        } else {
            l2
        }
    }

    /// The magnitude-scaled parallel test: true when the slopes differ by
    /// less than an epsilon scaled to the slopes' own magnitude (the exact
    /// analogue of the IEEE-epsilon test, stated over scaled integers), and
    /// always true for identical slopes.
    pub open spec fn parallel_spec(self, other: MercatorLine) -> bool {
        ||| self.slope == other.slope
        ||| iabs(self.slope - other.slope) * PARALLEL_EPS_DEN < imax(
            iabs(self.slope as int),
            iabs(other.slope as int),
        )
    }

    /// Where this line crosses `other`: `None` for lines parallel within
    /// tolerance, and for true crossings that fall outside the coordinate
    /// window, which the fixed-point representation cannot carry — the one
    /// place this contract narrows the ideal "unique crossing" answer.
    /// The crossing's y is evaluated on the flatter of the two lines, so
    /// the result does not depend on the argument order.
    pub open spec fn intersection_spec(self, other: MercatorLine) -> Option<Mercator> {
        if self.parallel_spec(other) {
            None
        } else {
            let x = tdiv((other.y_intercept - self.y_intercept) * SCALE, self.slope - other.slope);
            if iabs(x) > COORD_LIMIT {
                None
            } else {
                let y = MercatorLine::eval_line_spec(self, other).y_at_spec(x);
                if iabs(y) > COORD_LIMIT {
                    None
                } else {
                    Some(Mercator { x: x as i64, y: y as i64 })
                }
            }
        }
    }

    /// Compute the unique crossing of two non-parallel lines.
    ///
    /// Two lines of identical slope are always parallel within tolerance,
    /// so they never return a crossing.
    pub fn intersection(self, other: MercatorLine) -> (r: Option<Mercator>)
        requires
            self.wf(),
            other.wf(),
        ensures
            r == self.intersection_spec(other),
            self.slope == other.slope ==> r is None,
            r is Some ==> r.unwrap().wf(),
    {
        let ds: i128 = self.slope as i128 - other.slope as i128;
        let abs_ds: i128 = if ds < 0 {
            -ds
        } else {
            ds
        };
        let abs_self: i128 = if self.slope < 0 {
            -(self.slope as i128)
        } else {
            self.slope as i128
        };
        let abs_other: i128 = if other.slope < 0 {
            -(other.slope as i128)
        } else {
            other.slope as i128
        };
        let steepest: i128 = if abs_self < abs_other {
            abs_other
        } else {
            abs_self
        };
        proof {
            crate::numeric::lemma_mul_bound(abs_ds as int, PARALLEL_EPS_DEN as int, 2 * SLOPE_LIMIT as int, PARALLEL_EPS_DEN as int);
        }
        if ds == 0 || abs_ds * PARALLEL_EPS_DEN < steepest {
            return None;
        }
        let db: i128 = other.y_intercept as i128 - self.y_intercept as i128;
        proof {
            crate::numeric::lemma_mul_bound(db as int, SCALE as int, 2 * INTERCEPT_LIMIT as int, SCALE as int);
        }
        let x = div_i128(db * SCALE as i128, ds);
        if x < -COORD_LIMIT as i128 || x > COORD_LIMIT as i128 {
            return None;
        }
        let y = MercatorLine::eval_line(self, other).y_at(x as i64);
        if y < -COORD_LIMIT || y > COORD_LIMIT {
            return None;
        }
        Some(Mercator { x: x as i64, y })
    }
}

/// Accuracy of the fixed-point crossing: whenever two lines report a
/// crossing, its x solves the two-line system up to one unit of
/// resolution — scaled by the slope difference, the returned x differs
/// from the exact solution's numerator by less than one denominator.
pub proof fn lemma_intersection_near_exact(l1: MercatorLine, l2: MercatorLine)
    requires
        l1.intersection_spec(l2) is Some,
    ensures
        ({
            let p = l1.intersection_spec(l2).unwrap();
            let num = (l2.y_intercept - l1.y_intercept) * SCALE;
            let den = l1.slope - l2.slope;
            iabs(num - den * p.x) < iabs(den)
        }),
{
    assert(!l1.parallel_spec(l2));
    let num = (l2.y_intercept - l1.y_intercept) * SCALE;
    let den = l1.slope - l2.slope;
    assert(l1.intersection_spec(l2).unwrap().x == tdiv(num, den));
    crate::numeric::lemma_tdiv_remainder(num, den);
}

/// Line intersection is symmetric in its arguments, as the two-line
/// system it solves is: both orders return no crossing, or both return
/// the same crossing.
pub proof fn lemma_intersection_symmetric(l1: MercatorLine, l2: MercatorLine)
    ensures
        l1.intersection_spec(l2) == l2.intersection_spec(l1),
{
    assert(l1.parallel_spec(l2) == l2.parallel_spec(l1));
    if !l1.parallel_spec(l2) {
        crate::numeric::lemma_tdiv_neg(
            (l2.y_intercept - l1.y_intercept) * SCALE,
            l1.slope - l2.slope,
        );
        assert((l1.y_intercept - l2.y_intercept) * SCALE == -((l2.y_intercept - l1.y_intercept)
            * SCALE));
        assert(MercatorLine::eval_line_spec(l1, l2) == MercatorLine::eval_line_spec(l2, l1));
    }
}

/// A bounded chord of the planar space, owned by value.
#[derive(Debug, Clone, Copy, PartialEq, Eq, Structural)]
pub struct MercatorSegment {
    pub a: Mercator,
    pub b: Mercator,
}

impl MercatorSegment {
    /// Both endpoints lie inside the coordinate window.
    pub open spec fn wf(self) -> bool {
        self.a.wf() && self.b.wf()
    }

    /// Smaller endpoint x.
    pub open spec fn x_start(self) -> int {
        imin(self.a.x as int, self.b.x as int)
    }

    /// Larger endpoint x.
    pub open spec fn x_end(self) -> int {
        imax(self.a.x as int, self.b.x as int)
    }

    /// The endpoint a tessellation walking x upward ends on.
    pub open spec fn terminal_spec(self) -> Mercator {
        if self.a.x > self.b.x {
            self.a
        } else {
            self.b
        }
    }

    /// The endpoint a tessellation walking x upward starts from.
    pub open spec fn origin_spec(self) -> Mercator {
        if self.a.x > self.b.x {
            self.b
        } else {
            self.a
        }
    }

    /// The segment's own infinite line: `None` when the segment is
    /// vertical or too steep to represent in slope-intercept form.
    pub fn as_line(self) -> (r: Option<MercatorLine>)
        requires
            self.wf(),
        ensures
            r == MercatorLine::new_spec(self.a, self.b),
            r is Some ==> r.unwrap().wf(),
    {
        MercatorLine::new(self.a, self.b)
    }

    /// Midpoint of the chord, with truncating halving.
    pub open spec fn midpoint_spec(self) -> Mercator {
        Mercator {
            x: tdiv(self.a.x + self.b.x, 2) as i64,
            y: tdiv(self.a.y + self.b.y, 2) as i64,
        }
    }

    /// Midpoint of the chord.
    pub fn midpoint(self) -> (r: Mercator)
        requires
            self.wf(),
        ensures
            r == self.midpoint_spec(),
            r.wf(),
    {
        proof {
            crate::numeric::lemma_tdiv_bound(self.a.x + self.b.x, 2, COORD_LIMIT as int);
            crate::numeric::lemma_tdiv_bound(self.a.y + self.b.y, 2, COORD_LIMIT as int);
        }
        let x = div_i128(self.a.x as i128 + self.b.x as i128, 2);
        let y = div_i128(self.a.y as i128 + self.b.y as i128, 2);
        Mercator { x: x as i64, y: y as i64 }
    }

    /// Where `line` crosses this bounded chord.
    ///
    /// For an ordinary segment this is the crossing of the two infinite
    /// lines, accepted only when its x lies within the segment's x-range.
    /// For a vertical (or unrepresentably steep) segment, where the
    /// segment has no slope-intercept line, the guarded case evaluates
    /// `line` at the segment's x and accepts the crossing only when its y
    /// lies within the segment's y-range.
    pub open spec fn intersection_spec(self, line: MercatorLine) -> Option<Mercator> {
        match MercatorLine::new_spec(self.a, self.b) {
            None => {
                let x = self.a.x;
                let y = line.y_at_spec(x as int);
                if iabs(y) > COORD_LIMIT {
                    None
                } else if imin(self.a.y as int, self.b.y as int) <= y <= imax(
                    self.a.y as int,
                    self.b.y as int,
                ) {
                    Some(Mercator { x, y: y as i64 })
                } else {
                    None
                }
            },
            Some(seg_line) => match seg_line.intersection_spec(line) {
                None => None,
                Some(p) => {
                    if self.x_start() <= p.x <= self.x_end() {
                        Some(p)
                    } else {
                        None
                    }
                },
            },
        }
    }

    /// Intersect the segment with an infinite line.
    pub fn intersection(self, line: MercatorLine) -> (r: Option<Mercator>)
        requires
            self.wf(),
            line.wf(),
        ensures
            r == self.intersection_spec(line),
            r is Some ==> r.unwrap().wf(),
    {
        match self.as_line() {
            None => {
                let x = self.a.x;
                let y = line.y_at(x);
                if y < -COORD_LIMIT || y > COORD_LIMIT {
                    return None;
                }
                let y_lo = if self.a.y < self.b.y {
                    self.a.y
                } else {
                    self.b.y
                };
                let y_hi = if self.a.y < self.b.y {
                    self.b.y
                } else {
                    self.a.y
                };
                if y_lo <= y && y <= y_hi {
                    Some(Mercator { x, y })
                } else {
                    None
                }
            },
            Some(seg_line) => {
                match seg_line.intersection(line) {
                    None => None,
                    Some(p) => {
                        let x_lo = if self.a.x < self.b.x {
                            self.a.x
                        } else {
                            self.b.x
                        };
                        let x_hi = if self.a.x < self.b.x {
                            self.b.x
                        } else {
                            self.a.x
                        };
                        if x_lo <= p.x && p.x <= x_hi {
                            Some(p)
                        } else {
                            None
                        }
                    },
                }
            },
        }
    }

    /// The x increment of a tessellation of this line with the given
    /// planar step: the increment is sized so that successive samples are
    /// approximately `step` apart along the line, and is at least one
    /// resolution unit so the walk always advances.
    pub open spec fn plot_dx_spec(line: MercatorLine, step: i64) -> int {
        imax(
            1,
            tdiv(step * SCALE, sqrt_floor(SCALE * SCALE + line.slope * line.slope)),
        )
    }

    /// What a tessellation of this segment looks like: for a vertical (or
    /// unrepresentably steep) segment, exactly the two endpoints; for any
    /// other segment, samples of the segment's own line spaced
    /// [`MercatorSegment::plot_dx_spec`] apart in x, walking from the low
    /// end strictly short of the high end, followed by the terminal
    /// endpoint itself.
    pub open spec fn plot_post(self, step: i64, r: Seq<Mercator>) -> bool {
        if MercatorLine::new_spec(self.a, self.b) is None {
            r == seq![self.origin_spec(), self.terminal_spec()]
        } else {
            let line = MercatorLine::new_spec(self.a, self.b).unwrap();
            let dx = MercatorSegment::plot_dx_spec(line, step);
            &&& r.len() >= 2
            &&& forall|i: int|
                0 <= i < r.len() - 1 ==> #[trigger] r[i].x == self.x_start() + i * dx
                    && r[i].y == line.y_at_spec(self.x_start() + i * dx)
                    && self.x_start() + i * dx < self.x_end()
            &&& self.x_start() + (r.len() - 1) * dx >= self.x_end()
        }
    }

    /// Tessellate the segment: walk planar x from the low end to the high
    /// end in fixed increments, sampling the segment's own line, and end
    /// with the exact terminal endpoint, which is always the last element
    /// no matter the step. A vertical segment, which cannot be walked in
    /// x, degenerates to its two endpoints.
    #[verifier::rlimit(60)]
    pub fn plot(self, step: i64) -> (r: Vec<Mercator>)
        requires
            self.wf(),
            0 < step <= COORD_LIMIT,
        ensures
            r@.len() >= 1,
            r@[r@.len() - 1] == self.terminal_spec(),
            self.plot_post(step, r@),
    {
        let line_opt = self.as_line();
        match line_opt {
            None => {
                let mut v: Vec<Mercator> = Vec::new();
                if self.a.x > self.b.x {
                    v.push(self.b);
                    v.push(self.a);
                } else {
                    v.push(self.a);
                    v.push(self.b);
                }
                proof {
                    assert(MercatorLine::new_spec(self.a, self.b) is None);
                    assert(v@.len() == 2);
                    assert(v@[0] == self.origin_spec());
                    assert(v@[1] == self.terminal_spec());
                    assert(v@ =~= seq![self.origin_spec(), self.terminal_spec()]);
                    assert(self.plot_post(step, v@));
                }
                v
            },
            Some(line) => {
                proof {
                    crate::numeric::lemma_mul_bound(line.slope as int, line.slope as int, SLOPE_LIMIT as int, SLOPE_LIMIT as int);
                    assert((line.slope as int) * (line.slope as int) >= 0) by (nonlinear_arith);
                }
                let s2: i128 = line.slope as i128 * line.slope as i128;
                let n128: i128 = SCALE as i128 * SCALE as i128 + s2;
                let root: u64 = isqrt(n128 as u128);
                proof {
                    lemma_sqrt_floor_unique(n128 as int, root as int);
                    assert(root >= SCALE) by {
                        assert(SCALE as int * SCALE as int <= n128 as int);
                        assert((root as int + 1) * (root as int + 1) > n128 as int);
                        assert((root as int) + 1 > SCALE as int) by (nonlinear_arith)
                            requires
                                SCALE as int * SCALE as int <= n128 as int,
                                (root as int + 1) * (root as int + 1) > n128 as int,
                                root as int >= 0,
                        ;
                    }
                    crate::numeric::lemma_mul_bound(step as int, SCALE as int, COORD_LIMIT as int, SCALE as int);
                    assert((step as int) * (SCALE as int) < (step as int + 1) * (root as int)) by (nonlinear_arith)
                        requires
                            root as int >= SCALE as int,
                            0 < step as int,
                            SCALE as int > 0,
                    ;
                    crate::numeric::lemma_tdiv_bound(step as int * SCALE as int, root as int, step as int);
                }
                let q: i128 = div_i128(step as i128 * SCALE as i128, root as i128);
                let dx: i64 = if q < 1 {
                    1
                } else {
                    q as i64
                };
                proof {
                    assert(dx as int == MercatorSegment::plot_dx_spec(line, step));
                }
                let x_lo: i64 = if self.a.x < self.b.x {
                    self.a.x
                } else {
                    self.b.x
                };
                let x_hi: i64 = if self.a.x < self.b.x {
                    self.b.x
                } else {
                    self.a.x
                };
                let terminal: Mercator = if self.a.x > self.b.x {
                    self.a
                } else {
                    self.b
                };
                let mut v: Vec<Mercator> = Vec::new();
                let mut x: i64 = x_lo;
                let ghost dxg: int = dx as int;
                while x < x_hi
                    invariant
                        line.wf(),
                        0 < dx <= COORD_LIMIT,
                        dxg == dx as int,
                        -COORD_LIMIT <= x_lo <= COORD_LIMIT,
                        -COORD_LIMIT <= x_hi <= COORD_LIMIT,
                        x_lo < x_hi,
                        x as int == x_lo + v@.len() * dxg,
                        x as int <= x_hi + dxg,
                        forall|i: int|
                            0 <= i < v@.len() ==> #[trigger] v@[i].x == x_lo + i * dxg
                                && v@[i].y == line.y_at_spec(x_lo + i * dxg)
                                && x_lo + i * dxg < x_hi,
                    decreases x_hi + dx - x,
                {
                    let y = line.y_at(x);
                    proof {
                        assert(v@.len() * dxg + dxg == (v@.len() + 1) * dxg) by (nonlinear_arith);
                    }
                    v.push(Mercator { x, y });
                    x = x + dx;
                }
                let ghost pre = v@;
                v.push(terminal);
                proof {
                    assert(v@ == pre.push(terminal));
                    assert(forall|i: int|
                        0 <= i < pre.len() ==> #[trigger] pre.push(terminal)[i] == pre[i]);
                    assert(MercatorLine::new_spec(self.a, self.b) == Some(line));
                    assert(dxg == MercatorSegment::plot_dx_spec(line, step));
                    assert(x_lo == self.x_start() && x_hi == self.x_end());
                    assert(terminal == self.terminal_spec());
                    assert(v@.len() >= 2);
                    assert forall|i: int| 0 <= i < v@.len() - 1 implies #[trigger] v@[i].x
                        == self.x_start() + i * dxg && v@[i].y == line.y_at_spec(
                        self.x_start() + i * dxg,
                    ) && self.x_start() + i * dxg < self.x_end() by {
                        assert(v@[i] == pre.push(terminal)[i]);
                        assert(v@[i] == pre[i]);
                        assert(pre[i].x == x_lo + i * dxg);
                    }
                    assert(self.x_start() + (v@.len() - 1) * dxg >= self.x_end());
                    assert(self.plot_post(step, v@));
                }
                v
            },
        }
    }
}

} // verus!
