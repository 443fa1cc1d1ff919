use fanctl::curve::{Curve, CurvePoint, PointDraft, PointField};

/// A quantity in billionths.
fn q(v: f64) -> i64 {
    (v * 1e9).round() as i64
}

fn point(temp: f64, duty: f64) -> CurvePoint {
    CurvePoint::new(q(temp), q(duty))
}

fn curve() -> Curve {
    Curve::new(vec![
        point(30.0, 0.0),
        point(45.0, 40.0),
        point(60.0, 75.0),
        point(75.0, 100.0),
    ])
}

#[test]
fn clamps_below_first() {
    assert_eq!(curve().evaluate(q(10.0)), q(0.0));
    assert_eq!(curve().evaluate(q(30.0)), q(0.0));
}

#[test]
fn clamps_above_last() {
    assert_eq!(curve().evaluate(q(90.0)), q(100.0));
    assert_eq!(curve().evaluate(q(75.0)), q(100.0));
}

#[test]
fn interpolates_midpoint() {
    // 37.5 is halfway between 30 (0%) and 45 (40%) -> 20%.
    assert_eq!(curve().evaluate(q(37.5)), q(20.0));
}

#[test]
fn interpolates_across_segment() {
    // 52.5 is the midpoint of 45 (40%) and 60 (75%) -> 57.5%.
    assert_eq!(curve().evaluate(q(52.5)), q(57.5));
}

#[test]
fn empty_curve_returns_default() {
    assert_eq!(Curve::default().evaluate(q(50.0)), q(50.0));
    assert!(Curve::default().is_empty());
    assert!(!curve().is_empty());
}

#[test]
fn sorts_input_points() {
    let c = Curve::new(vec![point(75.0, 100.0), point(30.0, 0.0)]);
    assert_eq!(c.points[0].temp, q(30.0));
    assert_eq!(c.points[1].temp, q(75.0));
}

#[test]
fn equal_temperatures_keep_their_order() {
    let c = Curve::new(vec![point(50.0, 10.0), point(20.0, 0.0), point(50.0, 90.0)]);
    let duties: Vec<i64> = c.points.iter().map(|p| p.duty).collect();
    assert_eq!(duties, vec![q(0.0), q(10.0), q(90.0)]);
}

#[test]
fn a_curve_passes_through_its_points() {
    let c = curve();
    assert_eq!(c.evaluate(q(45.0)), q(40.0));
    assert_eq!(c.evaluate(q(60.0)), q(75.0));
}

#[test]
fn a_rising_curve_never_falls() {
    let c = curve();
    let mut last = 0;
    for t in 0..1000 {
        let d = c.evaluate(q(t as f64 / 10.0));
        assert!(last <= d && d <= q(100.0));
        last = d;
    }
}

#[test]
fn duties_out_of_range_are_clamped() {
    let c = Curve::new(vec![point(0.0, -50.0), point(100.0, 250.0)]);
    assert_eq!(c.evaluate(q(0.0)), 0);
    assert_eq!(c.evaluate(q(100.0)), q(100.0));
    assert_eq!(c.evaluate(q(50.0)), q(100.0));
}

#[test]
fn parses_curve_points() {
    // `curve: [[30, 0], [75, 100]]`
    let a = CurvePoint::from_pair(Some(q(30.0)), Some(q(0.0))).unwrap();
    let b = CurvePoint::from_pair(Some(q(75.0)), Some(q(100.0))).unwrap();
    assert_eq!(vec![a, b], vec![point(30.0, 0.0), point(75.0, 100.0)]);
    let e = CurvePoint::from_pair(Some(1), None).unwrap_err();
    assert_eq!(e, "expected a [temp, duty] pair");
}

#[test]
fn a_point_is_read_field_by_field() {
    let mut d = PointDraft::new();
    assert_eq!(PointField::of("temp"), Some(PointField::Temp));
    assert_eq!(PointField::of("duty"), Some(PointField::Duty));
    assert_eq!(PointField::of("speed"), None);
    d.set(PointField::Duty, q(40.0));
    assert_eq!(d.finish(), Err(PointField::Temp));
    let mut d = PointDraft::new();
    d.set(PointField::Temp, q(45.0));
    assert_eq!(d.finish(), Err(PointField::Duty));
    d.set(PointField::Duty, q(40.0));
    assert_eq!(d.finish(), Ok(point(45.0, 40.0)));
}

#[test]
fn points_of_one_temperature_are_clamped_too() {
    // Points set by hand, out of order: the segment at 50 °C has no length.
    let c = Curve {
        points: vec![
            CurvePoint::new(q(30.0), q(0.0)),
            CurvePoint::new(q(20.0), q(10.0)),
            CurvePoint::new(q(50.0), q(180.0)),
            CurvePoint::new(q(50.0), q(200.0)),
            CurvePoint::new(q(75.0), q(100.0)),
        ],
    };
    assert_eq!(c.evaluate(q(50.0)), q(100.0));
    let c = Curve {
        points: vec![
            CurvePoint::new(q(30.0), q(0.0)),
            CurvePoint::new(q(60.0), q(0.0)),
            CurvePoint::new(q(20.0), q(0.0)),
            CurvePoint::new(q(20.0), q(0.0)),
            CurvePoint::new(q(65.0), q(0.0)),
            CurvePoint::new(q(65.0), q(-5.0)),
            CurvePoint::new(q(75.0), q(100.0)),
        ],
    };
    assert_eq!(c.evaluate(q(65.0)), q(0.0));
}
