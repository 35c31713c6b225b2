//! Classification types for the geometric layer.
//!
//! The geometric shapes themselves live with the caller's scalar
//! arithmetic; what is pinned down here is each classification as a
//! decision on the outcome of the caller's comparisons, so that every
//! branch of the classification is stated exactly.

use vstd::prelude::*;

verus! {

/// Where a point lies relative to an ellipse.
#[derive(PartialEq, Eq, Structural, Clone, Copy, Debug)]
pub enum PointPosition {
    /// The point lies on the ellipse.
    OnEllipse,
    /// The point lies strictly inside the ellipse.
    InsideEllipse,
    /// The point lies strictly outside the ellipse.
    OutsideEllipse,
}

/// Where a point lies relative to a directed line.
#[derive(PartialEq, Eq, Structural, Clone, Copy, Debug)]
pub enum PointLineRelationship {
    /// The point lies on the line.
    OnLine,
    /// The point lies above the line.
    AboveLine,
    /// The point lies below the line.
    BelowLine,
}

/// A triangle classified by its largest angle.
#[derive(PartialEq, Eq, Structural, Clone, Copy, Debug)]
pub enum TriangleType {
    /// Every angle is smaller than a right angle.
    Acute,
    /// Some angle is exactly a right angle.
    Right,
    /// Some angle is larger than a right angle.
    Obtuse,
}

/// Classifies a point against an ellipse from the caller's comparison
/// of the normalized squared distance with one: equal means on the
/// ellipse, smaller means inside, anything else outside.
pub fn classify_point_position(equals_one: bool, below_one: bool) -> (p: PointPosition)
    ensures
        equals_one ==> p == PointPosition::OnEllipse,
        !equals_one && below_one ==> p == PointPosition::InsideEllipse,
        !equals_one && !below_one ==> p == PointPosition::OutsideEllipse,
{
    if equals_one {
        PointPosition::OnEllipse
    } else if below_one {
        PointPosition::InsideEllipse
    } else {
        PointPosition::OutsideEllipse
    }
}

/// Classifies a point against a line from the caller's evaluation of
/// the line form: a zero value is on the line, a positive value above
/// it, anything else below it.
pub fn classify_point_line(is_zero: bool, is_positive: bool) -> (r: PointLineRelationship)
    ensures
        is_zero ==> r == PointLineRelationship::OnLine,
        !is_zero && is_positive ==> r == PointLineRelationship::AboveLine,
        !is_zero && !is_positive ==> r == PointLineRelationship::BelowLine,
{
    if is_zero {
        PointLineRelationship::OnLine
    } else if is_positive {
        PointLineRelationship::AboveLine
    } else {
        PointLineRelationship::BelowLine
    }
}

/// Classifies a triangle from the caller's comparison of each angle
/// with a right angle: all three strictly smaller is acute, otherwise
/// any exact right angle makes it right, and anything else is obtuse.
pub fn classify_triangle_type(
    a_below_right: bool,
    b_below_right: bool,
    c_below_right: bool,
    a_is_right: bool,
    b_is_right: bool,
    c_is_right: bool,
) -> (t: TriangleType)
    ensures
        a_below_right && b_below_right && c_below_right ==> t == TriangleType::Acute,
        !(a_below_right && b_below_right && c_below_right) && (a_is_right || b_is_right
            || c_is_right) ==> t == TriangleType::Right,
        !(a_below_right && b_below_right && c_below_right) && !(a_is_right || b_is_right
            || c_is_right) ==> t == TriangleType::Obtuse,
{
    if a_below_right && b_below_right && c_below_right {
        TriangleType::Acute
    } else if a_is_right || b_is_right || c_is_right {
        TriangleType::Right
    } else {
        TriangleType::Obtuse
    }
}

} // verus!
