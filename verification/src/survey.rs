//! Survey estimation: three interchangeable strategies that turn a site's
//! extracted marker points and reference segments into the site's center
//! point and orientation axis.
//!
//! Strategy selection is an explicit, injectable policy: [`default`]
//! dispatches purely on the shape of the extracted data (reference segments
//! present, marker count), and every strategy is also callable directly.
//! No per-site override lives in this module; a caller that wants one picks
//! the strategy itself.

use crate::geometry::{imin, Mercator, MercatorLine, MercatorSegment, COORD_LIMIT, SLOPE_LIMIT};
use crate::numeric::{div_i128, iabs, tdiv, SCALE};
use crate::Error;
use vstd::multiset::Multiset;
use vstd::prelude::*;

verus! {

/// Most samples a single least-squares fit accepts; keeps every
/// intermediate sum inside `i128`.
pub const REGRESSION_LIMIT: usize = 4096;

/// The estimated center and orientation axis of one site.
#[derive(Debug, Clone, Copy, PartialEq, Eq, Structural)]
pub struct Survey {
    pub field: Mercator,
    pub line: MercatorLine,
}

impl Survey {
    /// Both the field point and the orientation line are representable.
    pub open spec fn wf(self) -> bool {
        self.field.wf() && self.line.wf()
    }

    /// Build a survey result from a field point and the scaled slope of
    /// its orientation axis.
    pub fn from_slope(field: Mercator, slope: i64) -> (r: Survey)
        requires
            field.wf(),
            -SLOPE_LIMIT <= slope <= SLOPE_LIMIT,
        ensures
            r.field == field,
            r.line == MercatorLine::from_slope_spec(slope, field),
            r.wf(),
    {
        Survey { field, line: MercatorLine::from_slope(slope, field) }
    }

    /// The orientation axis as an infinite planar line.
    pub fn as_line(self) -> (r: MercatorLine)
        ensures
            r == self.line,
    {
        self.line
    }
}

/// Sum of the x coordinates of a sequence of points.
pub open spec fn sum_x(points: Seq<Mercator>) -> int
    decreases points.len(),
{
    if points.len() == 0 {
        0
    } else {
        sum_x(points.drop_last()) + points.last().x
    }
}

/// Sum of the y coordinates of a sequence of points.
pub open spec fn sum_y(points: Seq<Mercator>) -> int
    decreases points.len(),
{
    if points.len() == 0 {
        0
    } else {
        sum_y(points.drop_last()) + points.last().y
    }
}

/// Sum of the products `x * y` over a sequence of points.
pub open spec fn sum_xy(points: Seq<Mercator>) -> int
    decreases points.len(),
{
    if points.len() == 0 {
        0
    } else {
        sum_xy(points.drop_last()) + points.last().x * points.last().y
    }
}

/// Sum of the squares `x * x` over a sequence of points.
pub open spec fn sum_x2(points: Seq<Mercator>) -> int
    decreases points.len(),
{
    if points.len() == 0 {
        0
    } else {
        sum_x2(points.drop_last()) + points.last().x * points.last().x
    }
}

/// Every point of the sequence lies inside the coordinate window.
pub open spec fn all_wf(points: Seq<Mercator>) -> bool {
    forall|i: int| 0 <= i < points.len() ==> (#[trigger] points[i]).wf()
}

/// Componentwise arithmetic mean of a sequence of points, with truncating
/// division. Meaningful only for a non-empty sequence.
pub open spec fn average_spec(points: Seq<Mercator>) -> Mercator {
    Mercator {
        x: tdiv(sum_x(points), points.len() as int) as i64,
        y: tdiv(sum_y(points), points.len() as int) as i64,
    }
}

/// Arithmetic mean of the first `n` points.
pub fn coord_average(points: &Vec<Mercator>, n: usize) -> (r: Mercator)
    requires
        0 < n <= points@.len(),
        all_wf(points@),
    ensures
        r == average_spec(points@.take(n as int)),
        r.wf(),
{
    let mut sx: i128 = 0;
    let mut sy: i128 = 0;
    let mut i: usize = 0;
    while i < n
        invariant
            0 < n <= points@.len(),
            all_wf(points@),
            i <= n,
            sx == sum_x(points@.take(i as int)),
            sy == sum_y(points@.take(i as int)),
            iabs(sx as int) <= i * COORD_LIMIT,
            iabs(sy as int) <= i * COORD_LIMIT,
        decreases n - i,
    {
        let p = points[i];
        proof {
            assert(points@.take(i + 1).drop_last() =~= points@.take(i as int));
            assert(points@.take(i + 1).last() == points@[i as int]);
        }
        sx = sx + p.x as i128;
        sy = sy + p.y as i128;
        i = i + 1;
    }
    proof {
        crate::numeric::lemma_tdiv_bound(sx as int, n as int, COORD_LIMIT as int);
        crate::numeric::lemma_tdiv_bound(sy as int, n as int, COORD_LIMIT as int);
    }
    let ax = div_i128(sx, n as i128);
    let ay = div_i128(sy, n as i128);
    Mercator { x: ax as i64, y: ay as i64 }
}

/// Numerator of the ordinary-least-squares slope over a sequence of
/// points: `n * sum(xy) - sum(x) * sum(y)`.
pub open spec fn reg_num(points: Seq<Mercator>) -> int {
    points.len() * sum_xy(points) - sum_x(points) * sum_y(points)
}

/// Denominator of the ordinary-least-squares slope: `n * sum(x^2) -
/// sum(x)^2`. Zero exactly when the x coordinates carry no variance.
pub open spec fn reg_den(points: Seq<Mercator>) -> int {
    points.len() * sum_x2(points) - sum_x(points) * sum_x(points)
}

/// The ordinary-least-squares slope of a sequence of points, scaled by
/// `SCALE` and truncated; degenerate when the denominator is zero (every
/// x equal) or when the fitted axis is too steep to represent.
pub open spec fn regression_spec(points: Seq<Mercator>) -> Result<i64, Error> {
    if reg_den(points) == 0 {
        Err(Error::RegressionDegenerate)
    } else {
        let s = tdiv(reg_num(points) * SCALE, reg_den(points));
        if -SLOPE_LIMIT <= s <= SLOPE_LIMIT {
            Ok(s as i64)
        } else {
            Err(Error::RegressionDegenerate)
        }
    }
}

/// Ordinary-least-squares slope of the given points, scaled by `SCALE`.
///
/// Returns `RegressionDegenerate` when all x coordinates are equal (a
/// vertical or duplicate-x data set) and when the fitted slope is steeper
/// than the representation allows.
pub fn linear_regression(points: &Vec<Mercator>) -> (r: Result<i64, Error>)
    requires
        all_wf(points@),
        points@.len() <= REGRESSION_LIMIT,
    ensures
        r == regression_spec(points@),
{
    let n: usize = points.len();
    let mut sx: i128 = 0;
    let mut sy: i128 = 0;
    let mut sxy: i128 = 0;
    let mut sx2: i128 = 0;
    let mut i: usize = 0;
    while i < n
        invariant
            n == points@.len() <= REGRESSION_LIMIT,
            all_wf(points@),
            i <= n,
            sx == sum_x(points@.take(i as int)),
            sy == sum_y(points@.take(i as int)),
            sxy == sum_xy(points@.take(i as int)),
            sx2 == sum_x2(points@.take(i as int)),
            iabs(sx as int) <= i * COORD_LIMIT,
            iabs(sy as int) <= i * COORD_LIMIT,
            iabs(sxy as int) <= i * COORD_LIMIT * COORD_LIMIT,
            0 <= sx2 <= i * COORD_LIMIT * COORD_LIMIT,
        decreases n - i,
    {
        let p = points[i];
        proof {
            assert(points@.take(i + 1).drop_last() =~= points@.take(i as int));
            assert(points@.take(i + 1).last() == points@[i as int]);
            crate::numeric::lemma_mul_bound(p.x as int, p.y as int, COORD_LIMIT as int, COORD_LIMIT as int);
            crate::numeric::lemma_mul_bound(p.x as int, p.x as int, COORD_LIMIT as int, COORD_LIMIT as int);
            assert((p.x as int) * (p.x as int) >= 0) by (nonlinear_arith);
        }
        sx = sx + p.x as i128;
        sy = sy + p.y as i128;
        sxy = sxy + p.x as i128 * p.y as i128;
        sx2 = sx2 + p.x as i128 * p.x as i128;
        i = i + 1;
    }
    proof {
        assert(points@.take(n as int) =~= points@);
        crate::numeric::lemma_mul_bound(n as int, sxy as int, REGRESSION_LIMIT as int, REGRESSION_LIMIT as int * COORD_LIMIT as int * COORD_LIMIT as int);
        crate::numeric::lemma_mul_bound(sx as int, sy as int, REGRESSION_LIMIT as int * COORD_LIMIT as int, REGRESSION_LIMIT as int * COORD_LIMIT as int);
        crate::numeric::lemma_mul_bound(n as int, sx2 as int, REGRESSION_LIMIT as int, REGRESSION_LIMIT as int * COORD_LIMIT as int * COORD_LIMIT as int);
        crate::numeric::lemma_mul_bound(sx as int, sx as int, REGRESSION_LIMIT as int * COORD_LIMIT as int, REGRESSION_LIMIT as int * COORD_LIMIT as int);
    }
    let num: i128 = n as i128 * sxy - sx * sy;
    let den: i128 = n as i128 * sx2 - sx * sx;
    if den == 0 {
        return Err(Error::RegressionDegenerate);
    }
    proof {
        crate::numeric::lemma_mul_bound(num as int, SCALE as int, 0x1_0000_0000_0000_0000_0000_0000, SCALE as int);
    }
    let s = div_i128(num * SCALE as i128, den);
    if -SLOPE_LIMIT as i128 <= s && s <= SLOPE_LIMIT as i128 {
        Ok(s as i64)
    } else {
        Err(Error::RegressionDegenerate)
    }
}

/// Sums over a constant-x sequence collapse to multiples of that x.
proof fn lemma_const_x_sums(points: Seq<Mercator>, c: int)
    requires
        forall|i: int| 0 <= i < points.len() ==> (#[trigger] points[i]).x == c,
    ensures
        sum_x(points) == points.len() * c,
        sum_x2(points) == points.len() * (c * c),
    decreases points.len(),
{
    if points.len() > 0 {
        let rest = points.drop_last();
        lemma_const_x_sums(rest, c);
        assert((points.len() - 1) * c + c == points.len() * c) by (nonlinear_arith);
        assert((points.len() - 1) * (c * c) + c * c == points.len() * (c * c)) by (nonlinear_arith);
    }
}

/// Degeneracy of least squares on zero-variance data: when every point
/// shares one x coordinate, the least-squares denominator is exactly zero,
/// so the regression reports `RegressionDegenerate` rather than a slope.
pub proof fn lemma_regression_degenerate(points: Seq<Mercator>)
    requires
        points.len() > 0,
        forall|i: int| 0 <= i < points.len() ==> (#[trigger] points[i]).x == points[0].x,
    ensures
        reg_den(points) == 0,
        regression_spec(points) == Err::<i64, Error>(Error::RegressionDegenerate),
{
    let c = points[0].x as int;
    lemma_const_x_sums(points, c);
    let n = points.len() as int;
    assert(n * (n * (c * c)) - (n * c) * (n * c) == 0) by (nonlinear_arith);
}

/// Sum of the squared deviations of every x coordinate from `v`.
spec fn sum_sq_dev(points: Seq<Mercator>, v: int) -> int
    decreases points.len(),
{
    if points.len() == 0 {
        0
    } else {
        sum_sq_dev(points.drop_last(), v) + (points.last().x - v) * (points.last().x - v)
    }
}

/// The squared-deviation sum expands to the usual quadratic in the sums.
proof fn lemma_sum_sq_dev_expand(points: Seq<Mercator>, v: int)
    ensures
        sum_sq_dev(points, v) == sum_x2(points) - 2 * v * sum_x(points) + points.len() * (v * v),
    decreases points.len(),
{
    if points.len() > 0 {
        let rest = points.drop_last();
        let x = points.last().x as int;
        lemma_sum_sq_dev_expand(rest, v);
        let n = rest.len() as int;
        let s = sum_x(rest);
        let q = sum_x2(rest);
        let d = sum_sq_dev(rest, v);
        assert(d + (x - v) * (x - v) == (q + x * x) - 2 * v * (s + x) + (n + 1) * (v * v))
            by (nonlinear_arith)
            requires
                d == q - 2 * v * s + n * (v * v),
        ;
    }
}

/// A squared-deviation sum is nonnegative, and vanishes only when every x
/// equals `v`.
proof fn lemma_sum_sq_dev_zero(points: Seq<Mercator>, v: int)
    ensures
        sum_sq_dev(points, v) >= 0,
        sum_sq_dev(points, v) == 0 ==> forall|i: int|
            0 <= i < points.len() ==> (#[trigger] points[i]).x == v,
    decreases points.len(),
{
    if points.len() > 0 {
        let rest = points.drop_last();
        let x = points.last().x as int;
        lemma_sum_sq_dev_zero(rest, v);
        assert((x - v) * (x - v) >= 0) by (nonlinear_arith);
        if sum_sq_dev(points, v) == 0 {
            assert((x - v) * (x - v) == 0);
            assert(x == v) by (nonlinear_arith)
                requires
                    (x - v) * (x - v) == 0,
            ;
            assert(forall|i: int|
                0 <= i < points.len() ==> (#[trigger] points[i]).x == v) by {
                assert(forall|i: int| 0 <= i < rest.len() ==> points[i] == rest[i]);
            }
        }
    }
}

/// Dropping the last point splits the denominator into the smaller
/// denominator plus the last x's squared deviations from the rest.
proof fn lemma_reg_den_step(points: Seq<Mercator>)
    requires
        points.len() > 0,
    ensures
        reg_den(points) == reg_den(points.drop_last()) + sum_sq_dev(
            points.drop_last(),
            points.last().x as int,
        ),
{
    let rest = points.drop_last();
    let v = points.last().x as int;
    let n = rest.len() as int;
    let s = sum_x(rest);
    let q = sum_x2(rest);
    lemma_sum_sq_dev_expand(rest, v);
    assert((n + 1) * (q + v * v) - (s + v) * (s + v) == (n * q - s * s) + (q - 2 * v * s + n * (v
        * v))) by (nonlinear_arith);
}

/// Full characterization of least-squares degeneracy: the denominator is
/// never negative, and it vanishes exactly when every sample shares one x
/// coordinate — the regression is degenerate if and only if the data's x
/// values carry no variance.
pub proof fn lemma_regression_degenerate_iff(points: Seq<Mercator>)
    ensures
        reg_den(points) >= 0,
        reg_den(points) == 0 <==> (forall|i: int, j: int|
            0 <= i < points.len() && 0 <= j < points.len() ==> (#[trigger] points[i]).x == (
            #[trigger] points[j]).x),
    decreases points.len(),
{
    if points.len() == 0 {
    } else {
        let rest = points.drop_last();
        let v = points.last().x as int;
        lemma_regression_degenerate_iff(rest);
        lemma_reg_den_step(points);
        lemma_sum_sq_dev_zero(rest, v);
        if reg_den(points) == 0 {
            assert(reg_den(rest) == 0 && sum_sq_dev(rest, v) == 0);
            assert(forall|i: int, j: int|
                0 <= i < points.len() && 0 <= j < points.len() ==> (#[trigger] points[i]).x == (
                #[trigger] points[j]).x) by {
                assert(forall|i: int| 0 <= i < rest.len() ==> points[i] == rest[i]);
                assert(forall|i: int| 0 <= i < rest.len() ==> (#[trigger] rest[i]).x == v);
            }
        } else {
            if forall|i: int, j: int|
                0 <= i < points.len() && 0 <= j < points.len() ==> (#[trigger] points[i]).x == (
                #[trigger] points[j]).x {
                if points.len() == 1 {
                    assert(sum_x(points) == v && sum_x2(points) == v * v);
                    assert(reg_den(points) == 0) by (nonlinear_arith)
                        requires
                            points.len() == 1,
                            sum_x(points) == v,
                            sum_x2(points) == v * v,
                            reg_den(points) == points.len() * sum_x2(points) - sum_x(points)
                                * sum_x(points),
                    ;
                } else {
                    assert(forall|i: int| 0 <= i < rest.len() ==> (#[trigger] rest[i]).x
                        == rest[0].x);
                    lemma_const_x_sums(rest, rest[0].x as int);
                    assert(rest[0].x == v);
                    lemma_sum_sq_dev_expand(rest, v);
                    let n = rest.len() as int;
                    assert(reg_den(rest) == n * (n * (v * v)) - (n * v) * (n * v)
                        && n * (n * (v * v)) - (n * v) * (n * v) == 0) by (nonlinear_arith)
                        requires
                            sum_x(rest) == n * v,
                            sum_x2(rest) == n * (v * v),
                            reg_den(rest) == n * sum_x2(rest) - sum_x(rest) * sum_x(rest),
                    ;
                    assert(sum_sq_dev(rest, v) == n * (v * v) - 2 * v * (n * v) + n * (v * v)
                        && n * (v * v) - 2 * v * (n * v) + n * (v * v) == 0) by (nonlinear_arith)
                        requires
                            sum_x(rest) == n * v,
                            sum_x2(rest) == n * (v * v),
                            sum_sq_dev(rest, v) == sum_x2(rest) - 2 * v * sum_x(rest) + n * (v * v),
                    ;
                }
            }
        }
    }
}

/// Magnitude bound of a single hash-mark slope contribution: the square of
/// `SCALE`, which bounds both a chord slope and its negative reciprocal.
pub const CONTRIB_LIMIT: i128 = 1_000_000_000_000_000_000;

/// One unordered pair of hash marks: the squared planar length of the
/// chord between them, and the chord's scaled slope (`None` for a vertical
/// or unrepresentably steep chord).
#[derive(Debug, Clone, Copy)]
pub struct Chord {
    pub d2: u128,
    pub slope: Option<i64>,
}

/// The chord between points `i` and `j` of a sequence.
pub open spec fn chord_of(points: Seq<Mercator>, i: int, j: int) -> Chord {
    Chord {
        d2: points[i].distance_squared_spec(points[j]) as u128,
        slope: points[i].slope_spec(points[j]),
    }
}

/// All chords of pairs `(i, j)` with `i < j`, enumerated in ascending
/// lexicographic pair order starting from the pair `(i, j)`.
pub open spec fn chords_rec(points: Seq<Mercator>, i: nat, j: nat) -> Seq<Chord>
    decreases points.len() - i, points.len() - j,
{
    if i + 1 >= points.len() {
        Seq::empty()
    } else if j >= points.len() {
        chords_rec(points, i + 1, i + 2)
    } else {
        seq![chord_of(points, i as int, j as int)] + chords_rec(points, i, j + 1)
    }
}

/// All unordered pairwise chords of a sequence of points, in ascending
/// lexicographic pair order.
pub open spec fn chords_spec(points: Seq<Mercator>) -> Seq<Chord> {
    chords_rec(points, 0, 1)
}

/// Stable insertion of a chord into a distance-sorted sequence: the new
/// chord goes after every chord whose distance does not exceed it.
pub open spec fn insert_sorted(s: Seq<Chord>, c: Chord) -> Seq<Chord>
    decreases s.len(),
{
    if s.len() == 0 {
        seq![c]
    } else if c.d2 < s.last().d2 {
        insert_sorted(s.drop_last(), c).push(s.last())
    } else {
        s.push(c)
    }
}

/// Stable sort of a chord sequence by ascending squared distance.
pub open spec fn sort_chords(s: Seq<Chord>) -> Seq<Chord>
    decreases s.len(),
{
    if s.len() == 0 {
        Seq::<Chord>::empty()
    } else {
        insert_sorted(sort_chords(s.drop_last()), s.last())
    }
}

/// A chord sequence ordered by ascending squared length.
pub open spec fn sorted_by_d2(s: Seq<Chord>) -> bool {
    forall|i: int, j: int| 0 <= i <= j < s.len() ==> (#[trigger] s[i]).d2 <= (#[trigger] s[j]).d2
}

/// Insertion keeps every squared length below a common bound.
proof fn lemma_insert_sorted_upper(s: Seq<Chord>, c: Chord, m: u128)
    requires
        forall|i: int| 0 <= i < s.len() ==> (#[trigger] s[i]).d2 <= m,
        c.d2 <= m,
    ensures
        forall|i: int|
            0 <= i < insert_sorted(s, c).len() ==> (#[trigger] insert_sorted(s, c)[i]).d2 <= m,
    decreases s.len(),
{
    if s.len() == 0 {
    } else if c.d2 < s.last().d2 {
        assert(forall|i: int|
            0 <= i < s.drop_last().len() ==> (#[trigger] s.drop_last()[i]).d2 <= m);
        lemma_insert_sorted_upper(s.drop_last(), c, m);
        let t = insert_sorted(s.drop_last(), c);
        assert forall|i: int| 0 <= i < insert_sorted(s, c).len() implies (#[trigger] insert_sorted(
            s,
            c,
        )[i]).d2 <= m by {
            if i < t.len() {
                assert(insert_sorted(s, c)[i] == t[i]);
            } else {
                assert(insert_sorted(s, c)[i] == s.last());
            }
        }
    } else {
    }
}

/// Insertion into a sorted sequence keeps it sorted.
proof fn lemma_insert_sorted_sorted(s: Seq<Chord>, c: Chord)
    requires
        sorted_by_d2(s),
    ensures
        sorted_by_d2(insert_sorted(s, c)),
    decreases s.len(),
{
    if s.len() == 0 {
    } else {
        let last = s.last();
        let rest = s.drop_last();
        assert(sorted_by_d2(rest));
        if c.d2 < last.d2 {
            lemma_insert_sorted_sorted(rest, c);
            assert(forall|i: int| 0 <= i < rest.len() ==> (#[trigger] rest[i]).d2 <= last.d2);
            lemma_insert_sorted_upper(rest, c, last.d2);
            let t = insert_sorted(rest, c);
            assert forall|i: int, j: int| 0 <= i <= j < t.push(last).len() implies (#[trigger] t.push(
                last,
            )[i]).d2 <= (#[trigger] t.push(last)[j]).d2 by {
                if j < t.len() {
                    assert(t.push(last)[i] == t[i] && t.push(last)[j] == t[j]);
                } else if i < t.len() {
                    assert(t.push(last)[i] == t[i] && t.push(last)[j] == last);
                } else {
                    assert(t.push(last)[i] == last && t.push(last)[j] == last);
                }
            }
        } else {
            assert forall|i: int, j: int| 0 <= i <= j < s.push(c).len() implies (#[trigger] s.push(
                c,
            )[i]).d2 <= (#[trigger] s.push(c)[j]).d2 by {
                if j < s.len() {
                    assert(s.push(c)[i] == s[i] && s.push(c)[j] == s[j]);
                } else if i < s.len() {
                    assert(s.push(c)[i] == s[i] && s.push(c)[j] == c);
                    assert(s[i].d2 <= last.d2);
                } else {
                    assert(s.push(c)[i] == c && s.push(c)[j] == c);
                }
            }
        }
    }
}

/// Insertion adds exactly the new chord to the sequence's contents.
proof fn lemma_insert_sorted_multiset(s: Seq<Chord>, c: Chord)
    ensures
        insert_sorted(s, c).to_multiset() =~= s.to_multiset().insert(c),
    decreases s.len(),
{
    broadcast use vstd::seq_lib::group_to_multiset_ensures;

    if s.len() == 0 {
        assert(seq![c] =~= Seq::<Chord>::empty().push(c));
        assert(Seq::<Chord>::empty().push(c).to_multiset() =~= Seq::<Chord>::empty().to_multiset().insert(c));
        assert(Seq::<Chord>::empty().to_multiset() =~= Multiset::<Chord>::empty());
    } else if c.d2 < s.last().d2 {
        let rest = s.drop_last();
        let last = s.last();
        lemma_insert_sorted_multiset(rest, c);
        assert(s =~= rest.push(last));
        assert(s.to_multiset() =~= rest.to_multiset().insert(last));
        assert(insert_sorted(s, c).to_multiset() =~= insert_sorted(rest, c).to_multiset().insert(
            last,
        ));
        assert(insert_sorted(rest, c).to_multiset().insert(last) =~= rest.to_multiset().insert(
            c,
        ).insert(last));
        assert(rest.to_multiset().insert(c).insert(last) =~= rest.to_multiset().insert(
            last,
        ).insert(c));
    } else {
    }
}

/// The chord ranking really sorts: the ranked sequence is ordered by
/// ascending squared chord length, so the chords the hash-mark heuristic
/// treats as cross-axis are never farther apart than the ones it treats
/// as along-axis.
pub proof fn lemma_sort_chords_sorted(s: Seq<Chord>)
    ensures
        sorted_by_d2(sort_chords(s)),
    decreases s.len(),
{
    if s.len() > 0 {
        lemma_sort_chords_sorted(s.drop_last());
        lemma_insert_sorted_sorted(sort_chords(s.drop_last()), s.last());
    }
}

/// The chord ranking loses and invents nothing: the ranked sequence holds
/// exactly the chords of its input, so the hash-mark heuristic's groups
/// partition the true pairwise chords of the markers.
pub proof fn lemma_sort_chords_permutation(s: Seq<Chord>)
    ensures
        sort_chords(s).to_multiset() =~= s.to_multiset(),
    decreases s.len(),
{
    broadcast use vstd::seq_lib::group_to_multiset_ensures;

    if s.len() > 0 {
        let rest = s.drop_last();
        let last = s.last();
        lemma_sort_chords_permutation(rest);
        lemma_insert_sorted_multiset(sort_chords(rest), last);
        assert(s =~= rest.push(last));
        assert(s.to_multiset() =~= rest.to_multiset().insert(last));
    }
}

/// How many chords of a sequence are strictly nearer than `t`.
pub open spec fn count_nearer(s: Seq<Chord>, t: u128) -> int
    decreases s.len(),
{
    if s.len() == 0 {
        0
    } else {
        count_nearer(s.drop_last(), t) + (if s.last().d2 < t {
            1int
        } else {
            0int
        })
    }
}

/// Insertion adds one to the count of nearer chords exactly when the new
/// chord is nearer.
proof fn lemma_insert_sorted_count(s: Seq<Chord>, c: Chord, t: u128)
    ensures
        count_nearer(insert_sorted(s, c), t) == count_nearer(s, t) + (if c.d2 < t {
            1int
        } else {
            0int
        }),
    decreases s.len(),
{
    if s.len() == 0 {
        assert(seq![c].drop_last() =~= Seq::<Chord>::empty());
        assert(seq![c].last() == c);
        assert(count_nearer(Seq::<Chord>::empty(), t) == 0);
        assert(count_nearer(seq![c], t) == (if c.d2 < t {
            1int
        } else {
            0int
        }));
    } else if c.d2 < s.last().d2 {
        lemma_insert_sorted_count(s.drop_last(), c, t);
        let inner = insert_sorted(s.drop_last(), c);
        assert(inner.push(s.last()).drop_last() =~= inner);
        assert(inner.push(s.last()).last() == s.last());
        assert(count_nearer(inner.push(s.last()), t) == count_nearer(inner, t) + (if s.last().d2
            < t {
            1int
        } else {
            0int
        }));
    } else {
        assert(s.push(c).drop_last() =~= s);
        assert(s.push(c).last() == c);
        assert(count_nearer(s.push(c), t) == count_nearer(s, t) + (if c.d2 < t {
            1int
        } else {
            0int
        }));
    }
}

/// The ranking keeps the count of nearer chords.
proof fn lemma_sort_chords_count(s: Seq<Chord>, t: u128)
    ensures
        count_nearer(sort_chords(s), t) == count_nearer(s, t),
    decreases s.len(),
{
    if s.len() > 0 {
        lemma_sort_chords_count(s.drop_last(), t);
        lemma_insert_sorted_count(sort_chords(s.drop_last()), s.last(), t);
    }
}

/// A nearer-chord count never leaves the sequence's index range.
proof fn lemma_count_nearer_bound(s: Seq<Chord>, t: u128)
    ensures
        0 <= count_nearer(s, t) <= s.len(),
    decreases s.len(),
{
    if s.len() > 0 {
        lemma_count_nearer_bound(s.drop_last(), t);
    }
}

/// In a distance-ordered sequence, the chords nearer than `t` form
/// exactly the prefix of length `count_nearer`.
proof fn lemma_sorted_count_prefix(s: Seq<Chord>, t: u128)
    requires
        sorted_by_d2(s),
    ensures
        forall|i: int| 0 <= i < count_nearer(s, t) ==> (#[trigger] s[i]).d2 < t,
        forall|i: int| count_nearer(s, t) <= i < s.len() ==> (#[trigger] s[i]).d2 >= t,
    decreases s.len(),
{
    if s.len() > 0 {
        let rest = s.drop_last();
        let n = s.len() as int;
        assert(sorted_by_d2(rest));
        lemma_sorted_count_prefix(rest, t);
        lemma_count_nearer_bound(rest, t);
        let k = count_nearer(rest, t);
        assert(forall|i: int| 0 <= i < rest.len() ==> #[trigger] rest[i] == s[i]);
        if s.last().d2 < t {
            if k < rest.len() {
                assert(rest[k].d2 >= t);
                assert(s[k].d2 <= s[n - 1].d2);
                assert(false);
            }
            assert(count_nearer(s, t) == n);
            assert forall|i: int| 0 <= i < count_nearer(s, t) implies (#[trigger] s[i]).d2
                < t by {
                if i < n - 1 {
                    assert(rest[i].d2 < t);
                }
            }
        } else {
            assert(count_nearer(s, t) == k);
            assert forall|i: int| 0 <= i < count_nearer(s, t) implies (#[trigger] s[i]).d2
                < t by {
                assert(rest[i].d2 < t);
            }
            assert forall|i: int| count_nearer(s, t) <= i < s.len() implies (#[trigger] s[i]).d2
                >= t by {
                if i < n - 1 {
                    assert(rest[i].d2 >= t);
                }
            }
        }
    }
}

/// The grouping the ranking induces: against any distance threshold, the
/// ranked sequence starts with exactly the chords strictly nearer than
/// the threshold, as many as the input holds, and the rest follow. So
/// when exactly five chords of a ten-marker set are strictly shorter
/// than every other pairwise chord — as on a regular two-row grid whose
/// row spacing is below its column spacing — the five ranks the
/// hash-mark heuristic treats as cross-axis are exactly those chords.
pub proof fn lemma_sort_chords_grouping(s: Seq<Chord>, t: u128)
    ensures
        count_nearer(sort_chords(s), t) == count_nearer(s, t),
        forall|i: int|
            0 <= i < count_nearer(s, t) ==> (#[trigger] sort_chords(s)[i]).d2 < t,
        forall|i: int|
            count_nearer(s, t) <= i < sort_chords(s).len() ==> (#[trigger] sort_chords(s)[i]).d2
                >= t,
{
    lemma_sort_chords_count(s, t);
    lemma_sort_chords_sorted(s);
    lemma_sorted_count_prefix(sort_chords(s), t);
}

/// Insert a chord into a distance-sorted vector, keeping equal distances
/// in arrival order.
fn insert_chord(v: &mut Vec<Chord>, c: Chord)
    ensures
        final(v)@ == insert_sorted(old(v)@, c),
    decreases old(v)@.len(),
{
    if v.len() == 0 {
        v.push(c);
    } else {
        let last = v[v.len() - 1];
        if c.d2 < last.d2 {
            v.pop();
            insert_chord(v, c);
            v.push(last);
        } else {
            v.push(c);
        }
    }
}

/// The contribution a chord of the cross-axis group makes to the slope
/// estimate: the negative reciprocal of its slope, scaled. A vertical
/// chord contributes the horizontal slope zero; a horizontal chord has a
/// vertical perpendicular, which no slope can carry.
pub open spec fn perp_contrib(c: Chord) -> Option<int> {
    match c.slope {
        None => Some(0),
        Some(s) => if s == 0 {
            None
        } else {
            Some(tdiv(-(CONTRIB_LIMIT as int), s as int))
        },
    }
}

/// The contribution a chord of the along-axis group makes to the slope
/// estimate: its own slope. A vertical chord's slope cannot be carried.
pub open spec fn para_contrib(c: Chord) -> Option<int> {
    match c.slope {
        None => None,
        Some(s) => Some(s as int),
    }
}

/// Sum of the first `k` slope contributions of a distance-sorted chord
/// sequence: the five shortest chords count as cross-axis, the rest as
/// along-axis. `None` as soon as any contribution is undefined.
pub open spec fn contribs(sorted: Seq<Chord>, k: nat) -> Option<int>
    decreases k,
{
    if k == 0 {
        Some(0)
    } else {
        match contribs(sorted, (k - 1) as nat) {
            None => None,
            Some(acc) => {
                let c = sorted[k - 1];
                match (if k <= 5 {
                    perp_contrib(c)
                } else {
                    para_contrib(c)
                }) {
                    None => None,
                    Some(v) => Some(acc + v),
                }
            },
        }
    }
}

/// An undefined contribution stays undefined for every longer prefix.
proof fn lemma_contribs_none_persists(sorted: Seq<Chord>, k: nat, m: nat)
    requires
        k <= m,
        contribs(sorted, k) is None,
    ensures
        contribs(sorted, m) is None,
    decreases m - k,
{
    if k < m {
        lemma_contribs_none_persists(sorted, k, (m - 1) as nat);
    }
}

/// The slope of the hash-mark heuristic on a distance-sorted list of all
/// pairwise chords: the five shortest chords contribute their perpendicular
/// slope, the next eight their own slope, and the slope estimate is the
/// mean of those thirteen contributions. Undefined contributions, and a
/// mean too steep to represent, report `SurveyInsufficient`.
pub open spec fn hash_slope_spec(points: Seq<Mercator>) -> Result<i64, Error> {
    let sorted = sort_chords(chords_spec(points));
    if sorted.len() < 13 {
        Err(Error::SurveyInsufficient)
    } else {
        match contribs(sorted, 13) {
            None => Err(Error::SurveyInsufficient),
            Some(sum) => {
                let s = tdiv(sum, 13);
                if -SLOPE_LIMIT <= s <= SLOPE_LIMIT {
                    Ok(s as i64)
                } else {
                    Err(Error::SurveyInsufficient)
                }
            },
        }
    }
}

/// A survey built from a field point and a strategy's slope result,
/// passing a failed slope estimate through unchanged.
pub open spec fn survey_of_slope(field: Mercator, slope_r: Result<i64, Error>) -> Result<
    Survey,
    Error,
> {
    match slope_r {
        Err(e) => Err(e),
        Ok(s) => Ok(Survey { field, line: MercatorLine::from_slope_spec(s, field) }),
    }
}

/// The hash-mark strategy and its marker-count fallbacks, as a function of
/// the extracted markers: the field point is the mean of the first ten
/// markers (of all markers when fewer), and the orientation slope comes
/// from the pairwise-chord heuristic for exactly ten markers, and from a
/// least-squares fit otherwise — over the supplemental markers plus the
/// field point when `center_fit` is set, over all markers when not.
pub open spec fn hash_mark_spec(points: Seq<Mercator>, center_fit: bool) -> Result<
    Survey,
    Error,
> {
    if points.len() == 0 {
        Err(Error::SurveyInsufficient)
    } else {
        let field = average_spec(points.take(imin(10, points.len() as int)));
        if points.len() == 10 {
            survey_of_slope(field, hash_slope_spec(points))
        } else if points.len() > 10 {
            let sample = if center_fit {
                points.skip(10).push(field)
            } else {
                points
            };
            survey_of_slope(field, regression_spec(sample))
        } else {
            survey_of_slope(field, regression_spec(points))
        }
    }
}

/// Estimate a site from hash-mark survey markers.
///
/// With exactly ten markers the orientation comes from the pairwise-chord
/// grouping heuristic; with any other count it comes from a least-squares
/// fit as [`hash_mark_spec`] states.
#[verifier::rlimit(80)]
pub fn hash_mark(marks: &Vec<Mercator>, center_fit: bool) -> (r: Result<Survey, Error>)
    requires
        all_wf(marks@),
        marks@.len() + 5 <= REGRESSION_LIMIT,
    ensures
        r == hash_mark_spec(marks@, center_fit),
        r is Ok ==> r.unwrap().wf(),
{
    let n = marks.len();
    if n == 0 {
        return Err(Error::SurveyInsufficient);
    }
    let field = coord_average(marks, if n < 10 {
        n
    } else {
        10
    });
    if n == 10 {
        let mut chords: Vec<Chord> = Vec::new();
        let mut i: usize = 0;
        proof {
            assert(chords@ + chords_rec(marks@, 0, 1) =~= chords_rec(marks@, 0, 1));
        }
        while i + 1 < n
            invariant
                n == marks@.len(),
                n == 10,
                all_wf(marks@),
                i <= n,
                chords@ + chords_rec(marks@, i as nat, (i + 1) as nat) == chords_spec(marks@),
            decreases n - i,
        {
            let mut j: usize = i + 1;
            while j < n
                invariant
                    n == marks@.len(),
                    n == 10,
                    all_wf(marks@),
                    i + 1 < n,
                    i + 1 <= j <= n,
                    chords@ + chords_rec(marks@, i as nat, j as nat) == chords_spec(marks@),
                decreases n - j,
            {
                let d2 = marks[i].distance_squared(marks[j]);
                let sl = marks[i].slope(marks[j]);
                let c = Chord { d2, slope: sl };
                proof {
                    assert(c == chord_of(marks@, i as int, j as int));
                    assert(chords_rec(marks@, i as nat, j as nat) == seq![
                        chord_of(marks@, i as int, j as int),
                    ] + chords_rec(marks@, i as nat, (j + 1) as nat));
                    assert(chords@.push(c) + chords_rec(marks@, i as nat, (j + 1) as nat) =~= chords@
                        + chords_rec(marks@, i as nat, j as nat));
                }
                chords.push(c);
                j = j + 1;
            }
            proof {
                assert(chords_rec(marks@, i as nat, n as nat) == chords_rec(
                    marks@,
                    (i + 1) as nat,
                    (i + 2) as nat,
                ));
            }
            i = i + 1;
        }
        proof {
            assert(chords@ + chords_rec(marks@, i as nat, (i + 1) as nat) =~= chords@);
            assert(chords@ == chords_spec(marks@));
        }
        let mut sorted: Vec<Chord> = Vec::new();
        let mut k: usize = 0;
        while k < chords.len()
            invariant
                k <= chords@.len(),
                sorted@ == sort_chords(chords@.take(k as int)),
            decreases chords@.len() - k,
        {
            proof {
                assert(chords@.take(k + 1).drop_last() =~= chords@.take(k as int));
                assert(chords@.take(k + 1).last() == chords@[k as int]);
            }
            insert_chord(&mut sorted, chords[k]);
            k = k + 1;
        }
        proof {
            assert(chords@.take(chords@.len() as int) =~= chords@);
        }
        if sorted.len() < 13 {
            return Err(Error::SurveyInsufficient);
        }
        let mut acc: i128 = 0;
        let mut rank: usize = 0;
        while rank < 13
            invariant
                marks@.len() == 10,
                sorted@ == sort_chords(chords_spec(marks@)),
                sorted@.len() >= 13,
                field == average_spec(marks@.take(imin(10, marks@.len() as int))),
                field.wf(),
                rank <= 13,
                contribs(sorted@, rank as nat) == Some(acc as int),
                iabs(acc as int) <= rank * 0x8000_0000_0000_0000,
            decreases 13 - rank,
        {
            let c = sorted[rank];
            let term: i128 = if rank < 5 {
                match c.slope {
                    None => 0,
                    Some(s) => {
                        if s == 0 {
                            proof {
                                assert(contribs(sorted@, (rank + 1) as nat) is None);
                                lemma_contribs_none_persists(sorted@, (rank + 1) as nat, 13);
                            }
                            return Err(Error::SurveyInsufficient);
                        }
                        div_i128(-CONTRIB_LIMIT, s as i128)
                    },
                }
            } else {
                match c.slope {
                    None => {
                        proof {
                            assert(contribs(sorted@, (rank + 1) as nat) is None);
                            lemma_contribs_none_persists(sorted@, (rank + 1) as nat, 13);
                        }
                        return Err(Error::SurveyInsufficient);
                    },
                    Some(s) => s as i128,
                }
            };
            proof {
                assert(contribs(sorted@, (rank + 1) as nat) == Some(acc + term));
            }
            acc = acc + term;
            rank = rank + 1;
        }
        let s = div_i128(acc, 13);
        proof {
            crate::numeric::lemma_tdiv_abs(acc as int, 13);
        }
        if -SLOPE_LIMIT as i128 <= s && s <= SLOPE_LIMIT as i128 {
            Ok(Survey::from_slope(field, s as i64))
        } else {
            Err(Error::SurveyInsufficient)
        }
    } else if n > 10 {
        let slope_r = if center_fit {
            let mut pts: Vec<Mercator> = Vec::new();
            let mut i: usize = 10;
            while i < n
                invariant
                    10 <= i <= n,
                    n == marks@.len(),
                    all_wf(marks@),
                    pts@ == marks@.subrange(10, i as int),
                decreases n - i,
            {
                proof {
                    assert(marks@.subrange(10, i + 1) =~= marks@.subrange(10, i as int).push(
                        marks@[i as int],
                    ));
                }
                pts.push(marks[i]);
                i = i + 1;
            }
            pts.push(field);
            proof {
                assert(pts@ =~= marks@.skip(10).push(average_spec(marks@.take(10))));
            }
            linear_regression(&pts)
        } else {
            linear_regression(marks)
        };
        match slope_r {
            Ok(s) => Ok(Survey::from_slope(field, s)),
            Err(e) => Err(e),
        }
    } else {
        proof {
            assert(marks@.take(imin(10, marks@.len() as int)) =~= marks@);
        }
        match linear_regression(marks) {
            Ok(s) => Ok(Survey::from_slope(field, s)),
            Err(e) => Err(e),
        }
    }
}

/// Every segment of the sequence has well-formed endpoints.
pub open spec fn all_wf_segments(segments: Seq<MercatorSegment>) -> bool {
    forall|i: int| 0 <= i < segments.len() ==> (#[trigger] segments[i]).wf()
}

/// The sidelines-and-midline strategy: the field point is the midpoint of
/// the midline's crossings with the two sidelines, and the orientation
/// comes from a least-squares fit over the sidelines' four endpoints, the
/// extra markers and the field point — or, with no extra markers, from the
/// mean of the two sidelines' own slopes. A vertical reference line or a
/// missing crossing reports `SurveyInsufficient`.
pub open spec fn sidelines_spec(
    fifty: MercatorSegment,
    s0: MercatorSegment,
    s1: MercatorSegment,
    marks: Seq<Mercator>,
) -> Result<Survey, Error> {
    match (
        MercatorLine::new_spec(fifty.a, fifty.b),
        MercatorLine::new_spec(s0.a, s0.b),
        MercatorLine::new_spec(s1.a, s1.b),
    ) {
        (Some(lf), Some(l0), Some(l1)) => match (
            lf.intersection_spec(l0),
            lf.intersection_spec(l1),
        ) {
            (Some(e0), Some(e1)) => {
                let field = (MercatorSegment { a: e0, b: e1 }).midpoint_spec();
                if marks.len() > 0 {
                    survey_of_slope(
                        field,
                        regression_spec(seq![s0.a, s0.b, s1.a, s1.b] + marks + seq![field]),
                    )
                } else {
                    let s = tdiv(l0.slope + l1.slope, 2);
                    Ok(Survey { field, line: MercatorLine::from_slope_spec(s as i64, field) })
                }
            },
            _ => Err(Error::SurveyInsufficient),
        },
        _ => Err(Error::SurveyInsufficient),
    }
}

/// Estimate a site from one midline segment, two sideline segments and
/// any number of extra markers, as [`sidelines_spec`] states.
pub fn sidelines_and_50(
    fifty: MercatorSegment,
    sidelines: (MercatorSegment, MercatorSegment),
    marks: &Vec<Mercator>,
) -> (r: Result<Survey, Error>)
    requires
        fifty.wf(),
        sidelines.0.wf(),
        sidelines.1.wf(),
        all_wf(marks@),
        marks@.len() + 5 <= REGRESSION_LIMIT,
    ensures
        r == sidelines_spec(fifty, sidelines.0, sidelines.1, marks@),
        r is Ok ==> r.unwrap().wf(),
{
    let s0 = sidelines.0;
    let s1 = sidelines.1;
    let lf = match fifty.as_line() {
        Some(l) => l,
        None => {
            return Err(Error::SurveyInsufficient);
        },
    };
    let l0 = match s0.as_line() {
        Some(l) => l,
        None => {
            return Err(Error::SurveyInsufficient);
        },
    };
    let l1 = match s1.as_line() {
        Some(l) => l,
        None => {
            return Err(Error::SurveyInsufficient);
        },
    };
    let e0 = match lf.intersection(l0) {
        Some(p) => p,
        None => {
            return Err(Error::SurveyInsufficient);
        },
    };
    let e1 = match lf.intersection(l1) {
        Some(p) => p,
        None => {
            return Err(Error::SurveyInsufficient);
        },
    };
    let field = (MercatorSegment { a: e0, b: e1 }).midpoint();
    if marks.len() > 0 {
        let mut pts: Vec<Mercator> = Vec::new();
        pts.push(s0.a);
        pts.push(s0.b);
        pts.push(s1.a);
        pts.push(s1.b);
        let mut i: usize = 0;
        while i < marks.len()
            invariant
                all_wf(marks@),
                s0.wf(),
                s1.wf(),
                i <= marks@.len(),
                pts@ == seq![s0.a, s0.b, s1.a, s1.b] + marks@.take(i as int),
            decreases marks@.len() - i,
        {
            proof {
                assert(marks@.take(i + 1) =~= marks@.take(i as int).push(marks@[i as int]));
            }
            pts.push(marks[i]);
            i = i + 1;
        }
        pts.push(field);
        proof {
            assert(marks@.take(marks@.len() as int) =~= marks@);
            assert(pts@ =~= seq![s0.a, s0.b, s1.a, s1.b] + marks@ + seq![field]);
            assert(all_wf(pts@));
        }
        match linear_regression(&pts) {
            Ok(s) => Ok(Survey::from_slope(field, s)),
            Err(e) => Err(e),
        }
    } else {
        proof {
            crate::numeric::lemma_tdiv_bound(l0.slope + l1.slope, 2, SLOPE_LIMIT as int);
        }
        let s = div_i128(l0.slope as i128 + l1.slope as i128, 2);
        Ok(Survey::from_slope(field, s as i64))
    }
}

/// The endpoints of a sequence of segments, in order, both endpoints of
/// each segment.
pub open spec fn endpoints_spec(segments: Seq<MercatorSegment>) -> Seq<Mercator>
    decreases segments.len(),
{
    if segments.len() == 0 {
        Seq::empty()
    } else {
        endpoints_spec(segments.drop_last()).push(segments.last().a).push(segments.last().b)
    }
}

/// Sum of the scaled slopes of a sequence of segments; `None` as soon as
/// any segment is vertical or too steep to represent.
pub open spec fn slope_sum_spec(segments: Seq<MercatorSegment>) -> Option<int>
    decreases segments.len(),
{
    if segments.len() == 0 {
        Some(0)
    } else {
        match (
            slope_sum_spec(segments.drop_last()),
            MercatorLine::new_spec(segments.last().a, segments.last().b),
        ) {
            (Some(acc), Some(l)) => Some(acc + l.slope),
            _ => None,
        }
    }
}

/// An undefined slope sum on a prefix stays undefined for the whole
/// sequence.
proof fn lemma_slope_sum_none_persists(segments: Seq<MercatorSegment>, k: int)
    requires
        0 <= k <= segments.len(),
        slope_sum_spec(segments.take(k)) is None,
    ensures
        slope_sum_spec(segments) is None,
    decreases segments.len() - k,
{
    if k < segments.len() {
        assert(segments.take(k + 1).drop_last() =~= segments.take(k));
        lemma_slope_sum_none_persists(segments, k + 1);
    } else {
        assert(segments.take(k) =~= segments);
    }
}

/// The reference-lines variant: the field point is the mean of all the
/// reference segments' endpoints, and the orientation comes from a
/// least-squares fit over the markers plus the field point — or, with no
/// markers, from the mean of the segments' own slopes.
pub open spec fn stanford_spec(
    segments: Seq<MercatorSegment>,
    marks: Seq<Mercator>,
) -> Result<Survey, Error> {
    if segments.len() == 0 {
        Err(Error::SurveyInsufficient)
    } else {
        let field = average_spec(endpoints_spec(segments));
        if marks.len() > 0 {
            survey_of_slope(field, regression_spec(marks.push(field)))
        } else {
            match slope_sum_spec(segments) {
                None => Err(Error::SurveyInsufficient),
                Some(sum) => {
                    let s = tdiv(sum, segments.len() as int);
                    Ok(Survey { field, line: MercatorLine::from_slope_spec(s as i64, field) })
                },
            }
        }
    }
}

/// Estimate a site whose survey gives only reference line segments, plus
/// optional markers, as [`stanford_spec`] states.
pub fn stanford(segments: &Vec<MercatorSegment>, marks: &Vec<Mercator>) -> (r: Result<
    Survey,
    Error,
>)
    requires
        all_wf_segments(segments@),
        all_wf(marks@),
        segments@.len() <= REGRESSION_LIMIT,
        marks@.len() + 1 <= REGRESSION_LIMIT,
    ensures
        r == stanford_spec(segments@, marks@),
        r is Ok ==> r.unwrap().wf(),
{
    let n = segments.len();
    if n == 0 {
        return Err(Error::SurveyInsufficient);
    }
    let mut endpoints: Vec<Mercator> = Vec::new();
    let mut i: usize = 0;
    while i < n
        invariant
            n == segments@.len(),
            all_wf_segments(segments@),
            i <= n,
            endpoints@ == endpoints_spec(segments@.take(i as int)),
            endpoints@.len() == 2 * i,
            all_wf(endpoints@),
        decreases n - i,
    {
        proof {
            assert(segments@.take(i + 1).drop_last() =~= segments@.take(i as int));
            assert(segments@.take(i + 1).last() == segments@[i as int]);
        }
        let seg = segments[i];
        endpoints.push(seg.a);
        endpoints.push(seg.b);
        i = i + 1;
    }
    proof {
        assert(segments@.take(n as int) =~= segments@);
    }
    let field = coord_average(&endpoints, endpoints.len());
    proof {
        assert(endpoints@.take(endpoints@.len() as int) =~= endpoints@);
    }
    if marks.len() > 0 {
        let mut pts: Vec<Mercator> = Vec::new();
        let mut j: usize = 0;
        while j < marks.len()
            invariant
                all_wf(marks@),
                j <= marks@.len(),
                pts@ == marks@.take(j as int),
            decreases marks@.len() - j,
        {
            proof {
                assert(marks@.take(j + 1) =~= marks@.take(j as int).push(marks@[j as int]));
            }
            pts.push(marks[j]);
            j = j + 1;
        }
        pts.push(field);
        proof {
            assert(marks@.take(marks@.len() as int) =~= marks@);
            assert(pts@ =~= marks@.push(field));
            assert(all_wf(pts@));
        }
        match linear_regression(&pts) {
            Ok(s) => Ok(Survey::from_slope(field, s)),
            Err(e) => Err(e),
        }
    } else {
        let mut sum: i128 = 0;
        let mut j: usize = 0;
        while j < n
            invariant
                n == segments@.len() <= REGRESSION_LIMIT,
                all_wf_segments(segments@),
                n > 0,
                field == average_spec(endpoints_spec(segments@)),
                field.wf(),
                marks@.len() == 0,
                j <= n,
                slope_sum_spec(segments@.take(j as int)) == Some(sum as int),
                iabs(sum as int) <= j * SLOPE_LIMIT,
            decreases n - j,
        {
            proof {
                assert(segments@.take(j + 1).drop_last() =~= segments@.take(j as int));
                assert(segments@.take(j + 1).last() == segments@[j as int]);
            }
            let seg = segments[j];
            match seg.as_line() {
                None => {
                    proof {
                        assert(slope_sum_spec(segments@.take(j + 1)) is None);
                        lemma_slope_sum_none_persists(segments@, j + 1);
                    }
                    return Err(Error::SurveyInsufficient);
                },
                Some(l) => {
                    proof {
                        assert(slope_sum_spec(segments@.take(j + 1)) == Some(sum + l.slope));
                    }
                    sum = sum + l.slope as i128;
                },
            }
            j = j + 1;
        }
        proof {
            assert(segments@.take(n as int) =~= segments@);
            crate::numeric::lemma_tdiv_bound(sum as int, n as int, SLOPE_LIMIT as int);
        }
        let s = div_i128(sum, n as i128);
        Ok(Survey::from_slope(field, s as i64))
    }
}

/// The paired-markers variant: the midline is the segment between the
/// first two markers, the first two reference segments are the sidelines,
/// and the remaining markers are the extra markers of the
/// sidelines-and-midline strategy. Fewer than two markers, or a segment
/// count other than two, reports `SurveyInsufficient`.
pub open spec fn syracuse_spec(
    marks: Seq<Mercator>,
    segments: Seq<MercatorSegment>,
) -> Result<Survey, Error> {
    if marks.len() < 2 || segments.len() != 2 {
        Err(Error::SurveyInsufficient)
    } else {
        sidelines_spec(
            MercatorSegment { a: marks[0], b: marks[1] },
            segments[0],
            segments[1],
            marks.skip(2),
        )
    }
}

/// Estimate a site whose survey gives the midline as two markers and the
/// sidelines as segments, as [`syracuse_spec`] states.
pub fn syracuse(marks: &Vec<Mercator>, segments: &Vec<MercatorSegment>) -> (r: Result<
    Survey,
    Error,
>)
    requires
        all_wf(marks@),
        all_wf_segments(segments@),
        marks@.len() + 5 <= REGRESSION_LIMIT,
    ensures
        r == syracuse_spec(marks@, segments@),
        r is Ok ==> r.unwrap().wf(),
{
    if marks.len() < 2 || segments.len() != 2 {
        return Err(Error::SurveyInsufficient);
    }
    let fifty = MercatorSegment { a: marks[0], b: marks[1] };
    let mut rest: Vec<Mercator> = Vec::new();
    let mut i: usize = 2;
    while i < marks.len()
        invariant
            all_wf(marks@),
            marks@.len() >= 2,
            2 <= i <= marks@.len(),
            rest@ == marks@.subrange(2, i as int),
        decreases marks@.len() - i,
    {
        proof {
            assert(marks@.subrange(2, i + 1) =~= marks@.subrange(2, i as int).push(
                marks@[i as int],
            ));
        }
        rest.push(marks[i]);
        i = i + 1;
    }
    proof {
        assert(rest@ =~= marks@.skip(2));
        assert(all_wf(rest@));
    }
    sidelines_and_50(fifty, (segments[0], segments[1]), &rest)
}

/// The shape-driven strategy policy: reference segments present means the
/// first is the midline and the next two are the sidelines (any other
/// segment count is insufficient); no reference segments means the
/// hash-mark strategy and its marker-count fallbacks.
pub open spec fn default_spec(
    marks: Seq<Mercator>,
    segments: Seq<MercatorSegment>,
    center_fit: bool,
) -> Result<Survey, Error> {
    if segments.len() > 0 {
        if segments.len() == 3 {
            sidelines_spec(segments[0], segments[1], segments[2], marks)
        } else {
            Err(Error::SurveyInsufficient)
        }
    } else {
        hash_mark_spec(marks, center_fit)
    }
}

/// Estimate a site by the default shape-driven policy of
/// [`default_spec`].
pub fn default(marks: &Vec<Mercator>, segments: &Vec<MercatorSegment>, center_fit: bool) -> (r:
    Result<Survey, Error>)
    requires
        all_wf(marks@),
        all_wf_segments(segments@),
        marks@.len() + 5 <= REGRESSION_LIMIT,
    ensures
        r == default_spec(marks@, segments@, center_fit),
        r is Ok ==> r.unwrap().wf(),
{
    if segments.len() > 0 {
        if segments.len() == 3 {
            sidelines_and_50(segments[0], (segments[1], segments[2]), marks)
        } else {
            Err(Error::SurveyInsufficient)
        }
    } else {
        hash_mark(marks, center_fit)
    }
}

} // verus!
