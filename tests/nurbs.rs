use capstan::{Curve, CurveError, KnotVec, ScalarT, VectorT};

/// A single-precision scalar.
#[derive(Clone, Copy, Debug, PartialEq)]
struct F(f32);

impl ScalarT for F {
    fn le(&self, other: &Self) -> bool {
        self.0 <= other.0
    }

    fn lt(&self, other: &Self) -> bool {
        self.0 < other.0
    }

    fn add(self, other: Self) -> Self {
        F(self.0 + other.0)
    }

    fn sub(self, other: Self) -> Self {
        F(self.0 - other.0)
    }

    fn mul(self, other: Self) -> Self {
        F(self.0 * other.0)
    }

    fn div(self, other: Self) -> Self {
        F(self.0 / other.0)
    }

    fn one() -> Self {
        F(1.0)
    }
}

/// A point in the plane.
#[derive(Clone, Copy, Debug, PartialEq)]
struct V2 {
    x: f32,
    y: f32,
}

impl VectorT for V2 {
    type Field = F;

    fn add(self, other: Self) -> Self {
        V2 { x: self.x + other.x, y: self.y + other.y }
    }

    fn scale(self, s: F) -> Self {
        V2 { x: self.x * s.0, y: self.y * s.0 }
    }
}

type TC = Curve<F, V2>;

fn v2(x: f32, y: f32) -> V2 {
    V2 { x, y }
}

fn knots(values: &[f32]) -> KnotVec<F> {
    KnotVec::new(values.iter().map(|&v| F(v)).collect()).unwrap()
}

fn weights(values: &[f32]) -> Vec<F> {
    values.iter().map(|&v| F(v)).collect()
}

/// Relative comparison of two scalars with machine epsilon as tolerance.
fn close(a: f32, b: f32, eps: f32) -> bool {
    if a == b {
        return true;
    }
    let diff = (a - b).abs();
    if diff <= eps {
        return true;
    }
    diff <= a.abs().max(b.abs()) * eps
}

fn assert_close(expected: V2, actual: V2) {
    assert!(
        close(expected.x, actual.x, f32::EPSILON) && close(expected.y, actual.y, f32::EPSILON),
        "expected {:?}, got {:?}",
        expected,
        actual
    );
}

fn assert_near(expected: V2, actual: V2, tol: f32) {
    assert!(
        (expected.x - actual.x).abs() <= tol && (expected.y - actual.y).abs() <= tol,
        "expected {:?}, got {:?}",
        expected,
        actual
    );
}

// ---------------------------------------------------------------------------
// knot vectors

#[test]
fn knotvec_new() {
    let knots = knots(&[0.0, 0.0, 0.5, 1.0, 1.0]);
    assert_eq!(knots.len(), 5);
    assert_eq!(knots.is_empty(), false);
    assert_eq!(knots[0], F(0.0));
    assert_eq!(knots[1], F(0.0));
    assert_eq!(knots[2], F(0.5));
    assert_eq!(knots[3], F(1.0));
    assert_eq!(knots[4], F(1.0));
    assert_eq!(knots.min_u(), F(0.0));
    assert_eq!(knots.max_u(), F(1.0));
}

#[test]
fn is_clamped() {
    let knots1 = knots(&[0.0, 0.0, 0.0, 1.0, 1.0, 1.0]);
    assert!(knots1.is_clamped(2));
    assert!(!knots1.is_clamped(3));

    let knots2 = knots(&[0.0, 0.0, 0.0, 1.0, 1.0]);
    assert!(knots2.is_clamped(1));
    assert!(!knots2.is_clamped(2));
    assert!(!knots2.is_clamped(100));
}

#[test]
fn is_clamped_checks_the_end_run() {
    let kv = knots(&[0.0, 0.0, 0.0, 0.5, 1.0, 1.0]);
    assert!(!kv.is_clamped(2));
    assert!(kv.is_clamped(1));
}

#[test]
fn is_clamped_checks_the_start_run() {
    let kv = knots(&[0.0, 0.0, 0.5, 0.5, 0.6, 1.0, 1.0, 1.0, 1.0]);
    assert!(!kv.is_clamped(3));
    let kv = knots(&[0.0, 0.0, 0.0, 0.5, 0.6, 1.0, 1.0, 1.0, 1.0]);
    assert!(kv.is_clamped(3));
}

#[test]
fn clamp() {
    let knots = knots(&[0.0, 0.0, 1.0, 1.0]);
    assert_eq!(knots.clamp(F(-1.0)), F(0.0));
    assert_eq!(knots.clamp(F(0.5)), F(0.5));
    assert_eq!(knots.clamp(F(1.2)), F(1.0));
}

#[test]
fn clamp_twice_is_clamp_once() {
    let kv = knots(&[-2.0, 0.0, 1.0, 3.0]);
    for &u in &[-5.0, -2.0, 0.5, 3.0, 7.0] {
        let once = kv.clamp(F(u));
        assert_eq!(kv.clamp(once), once);
    }
}

#[test]
fn less_than_two_knots() {
    assert_eq!(KnotVec::new(vec![F(0.0)]), None);
}

#[test]
fn no_knots() {
    assert_eq!(KnotVec::<F>::new(vec![]), None);
}

#[test]
fn badly_ordered_knots() {
    assert_eq!(KnotVec::new(vec![F(1.0), F(0.0)]), None);
}

#[test]
fn badly_ordered_inner_knots() {
    assert_eq!(KnotVec::new(weights(&[0.0, 0.5, 0.4, 1.0])), None);
}

#[test]
fn degenerate_knots() {
    assert_eq!(KnotVec::new(vec![F(0.0), F(0.0), F(0.0)]), None);
}

#[test]
fn find_span() {
    let knots = knots(&[0.0, 0.0, 1.0, 2.0, 3.0, 4.0, 4.0, 5.0, 5.0]);
    assert_eq!(knots.find_span(F(0.0)), 1);
    assert_eq!(knots.find_span(F(3.001)), 4);
    assert_eq!(knots.find_span(F(4.0)), 6);
    assert_eq!(knots.find_span(F(5.0)), 6);
}

#[test]
fn find_span_contains_parameter() {
    let kv = knots(&[0.0, 0.0, 0.5, 0.5, 0.7, 1.0, 2.0, 2.0]);
    let mut u = 0.0f32;
    while u < 2.0 {
        let i = kv.find_span(F(u));
        assert!(kv[i].0 <= u && u < kv[i + 1].0, "u={} i={}", u, i);
        u += 0.01;
    }
    let i = kv.find_span(F(2.0));
    assert!(kv[i].0 < 2.0 && kv[i + 1].0 == 2.0);
    assert_eq!(i, 5);
}

// ---------------------------------------------------------------------------
// curves

#[test]
fn invalid_degree() {
    let result = TC::new(0, vec![], vec![], knots(&[0.0, 1.0]));
    assert_eq!(result, Err(CurveError::InvalidDegree));
}

#[test]
fn insufficient_control_points() {
    let result = TC::new(1, vec![v2(0.0, 0.0)], vec![F(1.0)], knots(&[0.0, 0.0, 1.0, 1.0]));
    assert_eq!(
        result,
        Err(CurveError::InsufficientControlPoints { degree: 1, number_supplied: 1 })
    )
}

#[test]
fn insufficient_control_points_for_cubic() {
    let result = TC::new(
        3,
        vec![v2(0.0, 0.0), v2(1.0, 1.0)],
        weights(&[1.0, 1.0]),
        knots(&[0.0, 0.0, 0.0, 1.0, 1.0, 1.0]),
    );
    assert_eq!(
        result,
        Err(CurveError::InsufficientControlPoints { degree: 3, number_supplied: 2 })
    )
}

#[test]
fn weights_and_cps_lengths_must_be_equal() {
    let result = TC::new(1, vec![v2(0.0, 0.0), v2(42.0, 56.0)], vec![F(1.0)], knots(&[0.0, 1.0]));
    assert_eq!(result, Err(CurveError::MismatchedWeightsAndControlPoints));
}

#[test]
fn invalid_knot_count() {
    let result = TC::new(
        1,
        vec![v2(0.0, 0.0), v2(42.0, 56.0)],
        weights(&[1.0, 1.0]),
        knots(&[0.0, 1.0]),
    );
    assert_eq!(
        result,
        Err(CurveError::InvalidKnotCount { required_knot_len: 4, receieved_knot_len: 2 })
    );
}

#[test]
fn invalid_knot_count_for_cubic() {
    let result = TC::new(
        3,
        vec![v2(0.0, 0.0), v2(1.0, 1.0), v2(2.0, 0.0), v2(3.0, 1.0)],
        weights(&[1.0, 1.0, 1.0, 1.0]),
        knots(&[0.0, 0.0, 1.0, 1.0]),
    );
    assert_eq!(
        result,
        Err(CurveError::InvalidKnotCount { required_knot_len: 8, receieved_knot_len: 4 })
    );
}

#[test]
fn knot_vector_not_clamped() {
    let result = TC::new(
        2,
        vec![v2(0.0, 0.0), v2(1.0, 2.0), v2(3.0, 4.0)],
        weights(&[1.0, 1.0, 1.0]),
        knots(&[0.0, 0.0, 0.5, 0.5, 0.9, 1.0]),
    );
    assert_eq!(result, Err(CurveError::KnotVectorNotClamped));
}

#[test]
fn curve_new() {
    let nurbs = TC::new(
        1,
        vec![v2(0.0, 0.0), v2(42.0, 56.0)],
        weights(&[1.0, 1.0]),
        knots(&[0.0, 0.0, 1.0, 1.0]),
    )
    .unwrap();
    assert_eq!(nurbs.knots().min_u(), F(0.0));
    assert_eq!(nurbs.knots().max_u(), F(1.0));
    assert_eq!(nurbs.control_points(), &vec![v2(0.0, 0.0), v2(42.0, 56.0)]);
}

#[test]
fn uniform_scale() {
    let mut nurbs = TC::new(
        1,
        vec![v2(0.0, 0.0), v2(42.0, 56.0)],
        weights(&[1.0, 1.0]),
        knots(&[0.0, 0.0, 1.0, 1.0]),
    )
    .unwrap();
    nurbs.uniform_scale(F(2.0));

    let expected = TC::new(
        1,
        vec![v2(0.0, 0.0), v2(2.0 * 42.0, 2.0 * 56.0)],
        weights(&[1.0, 1.0]),
        knots(&[0.0, 0.0, 1.0, 1.0]),
    )
    .unwrap();

    assert_eq!(nurbs, expected);
}

#[test]
fn uniform_scale_round_trip() {
    let points = vec![v2(0.0, 0.0), v2(42.0, 56.0), v2(-3.5, 7.25)];
    let mut nurbs = TC::new(
        2,
        points.clone(),
        weights(&[1.0, 0.5, 1.0]),
        knots(&[0.0, 0.0, 0.0, 1.0, 1.0, 1.0]),
    )
    .unwrap();
    let s = F(4.0);
    nurbs.uniform_scale(s);
    assert_eq!(nurbs.control_points()[1], v2(168.0, 224.0));
    nurbs.uniform_scale(F::one().div(s));
    assert_eq!(nurbs.control_points(), &points);
}

fn cubic_bezier() -> TC {
    TC::new(
        3,
        vec![v2(-10.0, 10.0), v2(10.0, 10.0), v2(-10.0, -10.0), v2(10.0, -10.0)],
        weights(&[1.0, 1.0, 1.0, 1.0]),
        knots(&[0.0, 0.0, 0.0, 0.0, 1.0, 1.0, 1.0, 1.0]),
    )
    .unwrap()
}

#[test]
fn de_boor_non_rational_uniform_bezier() {
    let test_curve = cubic_bezier();

    // tests for in-range parameter
    assert_close(v2(-10.0, 10.0), test_curve.de_boor(F(0.0)));
    assert_close(v2(-2.16, 7.92), test_curve.de_boor(F(0.2)));
    assert_close(v2(0.0, 0.0), test_curve.de_boor(F(0.5)));
    assert_close(v2(10.0, -10.0), test_curve.de_boor(F(1.0)));

    // tests with parameter out-of-range (clipped to parameter range)
    assert_close(v2(-10.0, 10.0), test_curve.de_boor(F(-1.0)));
    assert_close(v2(10.0, -10.0), test_curve.de_boor(F(2.0)));
}

#[test]
fn de_boor_weighted_ends_are_end_points() {
    let curve = TC::new(
        3,
        vec![v2(-10.0, 10.0), v2(10.0, 10.0), v2(-10.0, -10.0), v2(3.0, -7.0)],
        weights(&[2.0, 0.5, 3.0, 0.25]),
        knots(&[0.0, 0.0, 0.0, 0.0, 1.0, 1.0, 1.0, 1.0]),
    )
    .unwrap();
    assert_close(v2(-10.0, 10.0), curve.de_boor(curve.knots().min_u()));
    assert_close(v2(3.0, -7.0), curve.de_boor(curve.knots().max_u()));
}

#[test]
fn de_boor_weights_pull_towards_heavy_point() {
    let plain = TC::new(
        2,
        vec![v2(0.0, 0.0), v2(1.0, 1.0), v2(2.0, 0.0)],
        weights(&[1.0, 1.0, 1.0]),
        knots(&[0.0, 0.0, 0.0, 1.0, 1.0, 1.0]),
    )
    .unwrap();
    let heavy = TC::new(
        2,
        vec![v2(0.0, 0.0), v2(1.0, 1.0), v2(2.0, 0.0)],
        weights(&[1.0, 3.0, 1.0]),
        knots(&[0.0, 0.0, 0.0, 1.0, 1.0, 1.0]),
    )
    .unwrap();
    // quadratic Bezier at its midpoint: (1, 0.5) plain, (1, 0.75) with weight 3
    assert_close(v2(1.0, 0.5), plain.de_boor(F(0.5)));
    assert_close(v2(1.0, 0.75), heavy.de_boor(F(0.5)));
}

fn unit_circle() -> TC {
    let r = f32::sqrt(2.0) / 2.0;
    TC::new(
        2,
        vec![
            v2(1.0, 0.0),
            v2(1.0, 1.0),
            v2(0.0, 1.0),
            v2(-1.0, 1.0),
            v2(-1.0, 0.0),
            v2(-1.0, -1.0),
            v2(0.0, -1.0),
            v2(1.0, -1.0),
            v2(1.0, 0.0),
        ],
        weights(&[1.0, r, 1.0, r, 1.0, r, 1.0, r, 1.0]),
        knots(&[0.0, 0.0, 0.0, 0.25, 0.25, 0.5, 0.5, 0.75, 0.75, 1.0, 1.0, 1.0]),
    )
    .unwrap()
}

#[test]
fn de_boor_rational_circle() {
    let circle = unit_circle();
    assert_near(v2(1.0, 0.0), circle.de_boor(F(0.0)), 1e-6);
    assert_near(v2(0.0, 1.0), circle.de_boor(F(0.25)), 1e-6);
    assert_near(v2(-1.0, 0.0), circle.de_boor(F(0.5)), 1e-6);
    assert_near(v2(0.0, -1.0), circle.de_boor(F(0.75)), 1e-6);
    assert_near(v2(1.0, 0.0), circle.de_boor(F(1.0)), 1e-6);
    assert_eq!(circle.de_boor(F(0.5)).x, -1.0);
}

#[test]
fn de_boor_rational_circle_stays_on_circle() {
    let circle = unit_circle();
    let mut u = 0.0f32;
    while u <= 1.0 {
        let p = circle.de_boor(F(u));
        let radius = (p.x * p.x + p.y * p.y).sqrt();
        assert!((radius - 1.0).abs() < 1e-5, "u={} radius={}", u, radius);
        u += 0.03125;
    }
}
