//! Boundary clipping: an ordered polyline of planar segments, loaded once
//! and treated as read-only, and the clip of a survey's orientation line to
//! that polyline.

use crate::geometry::{Mercator, MercatorSegment};
use crate::survey::{all_wf_segments, Survey};
use crate::Error;
use vstd::prelude::*;

verus! {

/// One entry of a boundary input: either a vertex of the polyline or a
/// comment entry, which loading skips before any pairing.
#[derive(Debug, Clone, Copy)]
pub enum BoundaryEntry {
    Comment,
    Vertex(Mercator),
}

/// Every vertex entry carries a well-formed point.
pub open spec fn entries_wf(entries: Seq<BoundaryEntry>) -> bool {
    forall|i: int|
        0 <= i < entries.len() ==> match #[trigger] entries[i] {
            BoundaryEntry::Comment => true,
            BoundaryEntry::Vertex(p) => p.wf(),
        }
}

/// The usable vertices of a boundary input, in order: every vertex entry,
/// with the comment entries skipped.
pub open spec fn vertices_spec(entries: Seq<BoundaryEntry>) -> Seq<Mercator>
    decreases entries.len(),
{
    if entries.len() == 0 {
        Seq::empty()
    } else {
        let rest = vertices_spec(entries.drop_last());
        match entries.last() {
            BoundaryEntry::Comment => rest,
            BoundaryEntry::Vertex(p) => rest.push(p),
        }
    }
}

/// The ordered boundary polyline: consecutive usable vertices paired into
/// segments, created at load time and read-only thereafter.
#[derive(Debug)]
pub struct Boundary(pub Vec<MercatorSegment>);

/// The crossings of `survey`'s orientation line with the given boundary
/// segments that land strictly west of the field point, in boundary
/// order.
pub open spec fn west_hits(segments: Seq<MercatorSegment>, survey: Survey) -> Seq<Mercator>
    decreases segments.len(),
{
    if segments.len() == 0 {
        Seq::empty()
    } else {
        let rest = west_hits(segments.drop_last(), survey);
        match segments.last().intersection_spec(survey.line) {
            None => rest,
            Some(p) => if p.x < survey.field.x {
                rest.push(p)
            } else {
                rest
            },
        }
    }
}

/// The crossings that land at or east of the field point, in boundary
/// order.
pub open spec fn east_hits(segments: Seq<MercatorSegment>, survey: Survey) -> Seq<Mercator>
    decreases segments.len(),
{
    if segments.len() == 0 {
        Seq::empty()
    } else {
        let rest = east_hits(segments.drop_last(), survey);
        match segments.last().intersection_spec(survey.line) {
            None => rest,
            Some(p) => if p.x >= survey.field.x {
                rest.push(p)
            } else {
                rest
            },
        }
    }
}

/// The candidate with the smallest squared distance to `field`; among
/// equally near candidates, the earliest.
pub open spec fn best_candidate(candidates: Seq<Mercator>, field: Mercator) -> Option<Mercator>
    decreases candidates.len(),
{
    if candidates.len() == 0 {
        None
    } else {
        let last = candidates.last();
        match best_candidate(candidates.drop_last(), field) {
            None => Some(last),
            Some(b) => if field.distance_squared_spec(last) < field.distance_squared_spec(b) {
                Some(last)
            } else {
                Some(b)
            },
        }
    }
}

impl Boundary {
    /// Every segment of the polyline is well-formed.
    pub open spec fn wf(self) -> bool {
        all_wf_segments(self.0@)
    }

    /// Load a boundary polyline from an ordered list of input entries:
    /// comment entries are skipped, and each remaining pair of consecutive
    /// vertices becomes one segment. Fewer than two usable vertices report
    /// `BoundaryInsufficient`.
    pub fn load(entries: &Vec<BoundaryEntry>) -> (r: Result<Boundary, Error>)
        requires
            entries_wf(entries@),
        ensures
            r is Err <==> vertices_spec(entries@).len() < 2,
            r is Err ==> r == Err::<Boundary, Error>(Error::BoundaryInsufficient),
            r matches Ok(b) ==> {
                let kept = vertices_spec(entries@);
                &&& b.0@.len() == kept.len() - 1
                &&& forall|i: int|
                    0 <= i < b.0@.len() ==> #[trigger] b.0@[i] == (MercatorSegment {
                        a: kept[i],
                        b: kept[i + 1],
                    })
                &&& b.wf()
            },
    {
        let n = entries.len();
        let mut verts: Vec<Mercator> = Vec::new();
        let mut i: usize = 0;
        while i < n
            invariant
                n == entries@.len(),
                entries_wf(entries@),
                i <= n,
                verts@ == vertices_spec(entries@.take(i as int)),
                crate::survey::all_wf(verts@),
            decreases n - i,
        {
            proof {
                assert(entries@.take(i + 1).drop_last() =~= entries@.take(i as int));
                assert(entries@.take(i + 1).last() == entries@[i as int]);
            }
            match entries[i] {
                BoundaryEntry::Comment => {},
                BoundaryEntry::Vertex(p) => {
                    verts.push(p);
                },
            }
            i = i + 1;
        }
        proof {
            assert(entries@.take(n as int) =~= entries@);
        }
        if verts.len() < 2 {
            return Err(Error::BoundaryInsufficient);
        }
        let m = verts.len();
        let mut segments: Vec<MercatorSegment> = Vec::new();
        let mut j: usize = 0;
        while j + 1 < m
            invariant
                m == verts@.len(),
                m >= 2,
                crate::survey::all_wf(verts@),
                j <= m - 1,
                segments@.len() == j,
                forall|k: int|
                    0 <= k < j ==> #[trigger] segments@[k] == (MercatorSegment {
                        a: verts@[k],
                        b: verts@[k + 1],
                    }),
                all_wf_segments(segments@),
            decreases m - j,
        {
            segments.push(MercatorSegment { a: verts[j], b: verts[j + 1] });
            j = j + 1;
        }
        Ok(Boundary(segments))
    }

    /// Clip a survey's orientation line to the boundary.
    ///
    /// Every boundary segment is intersected with the orientation line;
    /// the surviving crossings are split into a west and an east partition
    /// around the field point's x, and from each non-empty partition the
    /// crossing nearest the field point (the earliest, when tied) is kept.
    /// The result joins the two kept crossings, west to east; if either
    /// partition is empty the orientation line does not cross the boundary
    /// on both sides and there is no result.
    pub fn limit(&self, survey: &Survey) -> (r: Option<MercatorSegment>)
        requires
            self.wf(),
            survey.wf(),
        ensures
            r is Some <==> (best_candidate(west_hits(self.0@, *survey), survey.field) is Some
                && best_candidate(east_hits(self.0@, *survey), survey.field) is Some),
            r matches Some(seg) ==> {
                &&& seg.a == best_candidate(west_hits(self.0@, *survey), survey.field).unwrap()
                &&& seg.b == best_candidate(east_hits(self.0@, *survey), survey.field).unwrap()
                &&& seg.wf()
            },
    {
        let n = self.0.len();
        let mut best_west: Option<Mercator> = None;
        let mut best_west_d2: u128 = 0;
        let mut best_east: Option<Mercator> = None;
        let mut best_east_d2: u128 = 0;
        let mut i: usize = 0;
        while i < n
            invariant
                n == self.0@.len(),
                self.wf(),
                survey.wf(),
                i <= n,
                best_west == best_candidate(west_hits(self.0@.take(i as int), *survey), survey.field),
                best_east == best_candidate(east_hits(self.0@.take(i as int), *survey), survey.field),
                best_west matches Some(b) ==> b.wf() && best_west_d2
                    == survey.field.distance_squared_spec(b),
                best_east matches Some(b) ==> b.wf() && best_east_d2
                    == survey.field.distance_squared_spec(b),
            decreases n - i,
        {
            proof {
                assert(self.0@.take(i + 1).drop_last() =~= self.0@.take(i as int));
                assert(self.0@.take(i + 1).last() == self.0@[i as int]);
            }
            let seg = self.0[i];
            match seg.intersection(survey.line) {
                None => {
                    proof {
                        assert(west_hits(self.0@.take(i + 1), *survey) == west_hits(
                            self.0@.take(i as int),
                            *survey,
                        ));
                        assert(east_hits(self.0@.take(i + 1), *survey) == east_hits(
                            self.0@.take(i as int),
                            *survey,
                        ));
                    }
                },
                Some(p) => {
                    let d2 = survey.field.distance_squared(p);
                    if p.x < survey.field.x {
                        proof {
                            let prev = west_hits(self.0@.take(i as int), *survey);
                            assert(west_hits(self.0@.take(i + 1), *survey) == prev.push(p));
                            assert(prev.push(p).drop_last() =~= prev);
                            assert(prev.push(p).last() == p);
                            assert(east_hits(self.0@.take(i + 1), *survey) == east_hits(
                                self.0@.take(i as int),
                                *survey,
                            ));
                        }
                        match best_west {
                            None => {
                                best_west = Some(p);
                                best_west_d2 = d2;
                            },
                            Some(_) => {
                                if d2 < best_west_d2 {
                                    best_west = Some(p);
                                    best_west_d2 = d2;
                                }
                            },
                        }
                    } else {
                        proof {
                            let prev = east_hits(self.0@.take(i as int), *survey);
                            assert(east_hits(self.0@.take(i + 1), *survey) == prev.push(p));
                            assert(prev.push(p).drop_last() =~= prev);
                            assert(prev.push(p).last() == p);
                            assert(west_hits(self.0@.take(i + 1), *survey) == west_hits(
                                self.0@.take(i as int),
                                *survey,
                            ));
                        }
                        match best_east {
                            None => {
                                best_east = Some(p);
                                best_east_d2 = d2;
                            },
                            Some(_) => {
                                if d2 < best_east_d2 {
                                    best_east = Some(p);
                                    best_east_d2 = d2;
                                }
                            },
                        }
                    }
                },
            }
            i = i + 1;
        }
        proof {
            assert(self.0@.take(n as int) =~= self.0@);
        }
        match (best_west, best_east) {
            (Some(a), Some(b)) => Some(MercatorSegment { a, b }),
            _ => None,
        }
    }
}

} // verus!
