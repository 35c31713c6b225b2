use rs_math::geometry::PointLineRelationship;
use rs_math::geometry::PointPosition;
use rs_math::geometry::TriangleType;
use rs_math::geometry::classify_point_line;
use rs_math::geometry::classify_point_position;
use rs_math::geometry::classify_triangle_type;

#[test]
fn test_classify_point_position() {
    // distance_squared == 1.0 lies on the ellipse
    let d = 1.0f64;
    assert_eq!(classify_point_position(d == 1.0, d < 1.0), PointPosition::OnEllipse);
    let d = 0.25f64;
    assert_eq!(classify_point_position(d == 1.0, d < 1.0), PointPosition::InsideEllipse);
    let d = 4.0f64;
    assert_eq!(classify_point_position(d == 1.0, d < 1.0), PointPosition::OutsideEllipse);
}

#[test]
fn test_classify_point_line() {
    // result of a*x + b*y + c
    let r = 0.0f64;
    assert_eq!(classify_point_line(r == 0.0, r > 0.0), PointLineRelationship::OnLine);
    let r = 2.5f64;
    assert_eq!(classify_point_line(r == 0.0, r > 0.0), PointLineRelationship::AboveLine);
    let r = -2.5f64;
    assert_eq!(classify_point_line(r == 0.0, r > 0.0), PointLineRelationship::BelowLine);
}

#[test]
fn test_classify_triangle_type() {
    let (a, b, c) = (60.0f64, 60.0f64, 60.0f64);
    assert_eq!(
        classify_triangle_type(a < 90.0, b < 90.0, c < 90.0, a == 90.0, b == 90.0, c == 90.0),
        TriangleType::Acute
    );
    let (a, b, c) = (90.0f64, 45.0f64, 45.0f64);
    assert_eq!(
        classify_triangle_type(a < 90.0, b < 90.0, c < 90.0, a == 90.0, b == 90.0, c == 90.0),
        TriangleType::Right
    );
    let (a, b, c) = (120.0f64, 30.0f64, 30.0f64);
    assert_eq!(
        classify_triangle_type(a < 90.0, b < 90.0, c < 90.0, a == 90.0, b == 90.0, c == 90.0),
        TriangleType::Obtuse
    );
}
