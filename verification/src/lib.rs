//! Survey-geometry engine: estimates a sports field's center point and
//! orientation axis from ground-survey marker data, then clips the axis to a
//! geographic boundary polyline.
//!
//! All geometry is carried out in a planar (Mercator-like) coordinate space.
//! Coordinates, slopes and intercepts are fixed-point values: an `i64` holds
//! the planar quantity multiplied by [`numeric::SCALE`] (so one unit of
//! resolution is `1e-9` of a planar unit, about six millimetres on the
//! ground). All arithmetic on these values is exact integer arithmetic with
//! explicitly specified truncating divisions, so every comparison in this
//! crate is exact rather than subject to rounding drift.
//!
//! The geographic-to-planar projection itself (`asinh`, `tan` and friends)
//! is not part of this crate's logic: callers project geographic coordinates
//! to planar fixed-point values before handing them in.

use vstd::prelude::*;

pub mod boundary;
pub mod geometry;
pub mod numeric;
pub mod survey;
pub mod team;
pub mod text;

verus! {

/// Terminal failures of the survey-geometry engine. Each failure aborts the
/// computation for the single site being processed; no default or partial
/// result is ever substituted.
#[derive(Debug, Clone, Copy, PartialEq, Eq, Structural)]
pub enum Error {
    /// A latitude at or within machine tolerance of a pole was handed to the
    /// projection layer, where the planar transform is singular.
    ProjectionSingularity,
    /// A boundary polyline had fewer than two usable vertices.
    BoundaryInsufficient,
    /// A survey strategy's required inputs were absent or unusable, for
    /// example a missing sideline intersection or a vertical reference line
    /// that the slope-intercept representation cannot carry.
    SurveyInsufficient,
    /// The least-squares denominator was zero: every sample shared one x.
    RegressionDegenerate,
    /// The orientation line failed to cross the boundary on both sides.
    BoundaryLimitFailed,
}

} // verus!
