//! Kinds of parametric curves offered to the curve evaluator.
use vstd::prelude::*;

verus! {

/// How the knot spacing of a Catmull-Rom spline is chosen.
#[derive(Clone, Copy, Debug, PartialEq, Eq, Structural)]
pub enum CatmullRomParmType {
    /// Knots one unit apart.
    Uniform,
    /// Knots spaced by the distance between control points.
    ChordLength,
    /// Knots spaced by the square root of that distance.
    Centripetal,
}

/// The family of curve drawn through a list of control points.
#[derive(Clone, Copy, Debug, PartialEq, Eq, Structural)]
pub enum CurveType {
    /// A single Bezier curve over all control points.
    Bezier,
    /// A Catmull-Rom spline with the given knot spacing.
    CatmullRom(CatmullRomParmType),
}

} // verus!
