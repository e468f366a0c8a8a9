use guidance::graph::TangentialPoint;
use guidance::traversal::{ProximityLine, Ratio};

/// Metres, as the map gives them, to the library's millimetres.
fn traversal_mm(metres: f64) -> i32 {
    (metres * 1000.0).round() as i32
}

fn traversal_point(x: f64, y: f64, z: f64) -> TangentialPoint {
    TangentialPoint::new(traversal_mm(x), traversal_mm(y), traversal_mm(z))
}

/// The value of a ratio; the intercept comes out in millimetres.
fn traversal_value(ratio: Ratio) -> f64 {
    ratio.numerator as f64 / ratio.denominator as f64
}

#[test]
fn new_proximity_line() {
    let prev_point = traversal_point(0.0, 1.2, 0.0);
    let next_point = traversal_point(2.0, 1.0, 0.0);

    let proximity_line = ProximityLine::new(&prev_point, &next_point);
    let m = traversal_value(proximity_line.m);
    let b = traversal_value(proximity_line.b) / 1000.0;

    assert!(m > 9.9 && m < 10.1 && b > -17.19 && b < -17.17);
}

#[test]
fn new_proximity_line_exact_values() {
    let prev_point = TangentialPoint::new(0, 1200, 0);
    let next_point = TangentialPoint::new(2000, 1000, 0);

    let line = ProximityLine::new(&prev_point, &next_point);

    assert_eq!(line.m, Ratio { numerator: -2000, denominator: -200 });
    // dx * (100 * 2000 - 9 * 2000) + dy * (100 * 1000 - 9 * -200)
    assert_eq!(line.b, Ratio { numerator: 343_640_000, denominator: -20_000 });
    assert_eq!(traversal_value(line.b), -17182.0);
}

#[test]
fn horizontal_proximity_line() {
    let prev_point = traversal_point(0.0, 1.0, 0.0);
    let next_point = traversal_point(0.0, 3.0, 0.0);

    let proximity_line = ProximityLine::new(&prev_point, &next_point);

    assert_eq!(traversal_value(proximity_line.m), 0.0);
    assert_eq!(proximity_line.m.numerator, 0);
    assert_ne!(proximity_line.m.denominator, 0);
    // the line lies 9 hundredths of the way before the waypoint: y = 2.82 m
    assert_eq!(traversal_value(proximity_line.b), 2820.0);
}

#[test]
fn vertical_proximity_line() {
    let prev_point = traversal_point(0.0, 1.0, 0.0);
    let next_point = traversal_point(2.0, 1.0, 0.0);

    let proximity_line = ProximityLine::new(&prev_point, &next_point);

    assert_eq!(traversal_value(proximity_line.m), f64::NEG_INFINITY);
    assert_eq!(proximity_line.m.denominator, 0);
    assert_eq!(proximity_line.b.denominator, 0);
}

#[test]
fn proximity_line_ignores_the_height() {
    let low = ProximityLine::new(&TangentialPoint::new(0, 1200, 0), &TangentialPoint::new(2000, 1000, 0));
    let high = ProximityLine::new(
        &TangentialPoint::new(0, 1200, 5000),
        &TangentialPoint::new(2000, 1000, -700),
    );
    assert_eq!(low, high);
}

#[test]
fn proximity_line_goes_through_the_offset_point() {
    let robot = TangentialPoint::new(-3158, -6779, -280);
    let next = TangentialPoint::new(-8656, -2073, -339);
    let line = ProximityLine::new(&robot, &next);
    let dx = (next.x - robot.x) as i128;
    let dy = (next.y - robot.y) as i128;
    // the offset point in hundredths of a millimetre
    let px = 100 * next.x as i128 - 9 * dx;
    let py = 100 * next.y as i128 - 9 * dy;
    assert_eq!(line.m.denominator * py, line.m.numerator * px + line.b.numerator);
    // at right angles to the way of the robot
    assert_eq!(line.m.denominator * dx + line.m.numerator * dy, 0);
    assert_eq!(line.b.denominator, 100 * line.m.denominator);
}

#[test]
fn proximity_line_at_the_ends_of_the_frame() {
    let robot = TangentialPoint::new(i32::MIN, i32::MAX, 0);
    let next = TangentialPoint::new(i32::MAX, i32::MIN, 0);
    let line = ProximityLine::new(&robot, &next);
    let span = u32::MAX as i128;
    assert_eq!(line.m, Ratio { numerator: -span, denominator: -span });
    assert_eq!(line.b.denominator, -100 * span);
}

#[test]
fn proximity_line_of_coinciding_points() {
    let here = TangentialPoint::new(7, 7, 7);
    let line = ProximityLine::new(&here, &here);
    assert_eq!(line.m, Ratio { numerator: 0, denominator: 0 });
    assert_eq!(line.b, Ratio { numerator: 0, denominator: 0 });
}
