use guidance::graph::point::integer_sqrt;
use guidance::graph::{GPSPointDeg, Point, TangentialPoint};

/// Metres, as the map gives them, to the library's millimetres.
fn geometry_mm(metres: f64) -> i32 {
    (metres * 1000.0).round() as i32
}

#[test]
fn distance() {
    let origin = TangentialPoint::new(geometry_mm(0.0), geometry_mm(0.0), geometry_mm(0.0));
    let point = TangentialPoint::new(geometry_mm(1.0), geometry_mm(1.0), geometry_mm(1.0));

    let distance = origin.distance(&point);

    // sqrt(3) m is 1732.05.. mm
    assert_eq!(distance, (3.0_f64.sqrt() * 1000.0).floor() as u64);
    assert_eq!(distance, 1732);
}

#[test]
fn tangential_sub() {
    let origin = TangentialPoint::new(geometry_mm(0.0), geometry_mm(0.0), geometry_mm(0.0));
    let point = TangentialPoint::new(geometry_mm(1.0), geometry_mm(2.0), geometry_mm(3.0));

    assert_eq!(
        point - origin,
        TangentialPoint::new(geometry_mm(1.0), geometry_mm(2.0), geometry_mm(3.0))
    )
}

#[test]
fn tangential_sub_gives_the_displacement() {
    let a = TangentialPoint::new(5, -7, 11);
    let b = TangentialPoint::new(-3, 2, 4);
    assert_eq!(a - b, TangentialPoint::new(8, -9, 7));
    assert_eq!(b - a, TangentialPoint::new(-8, 9, -7));
}

#[test]
fn tangential_mul_scales_each_coordinate() {
    let a = TangentialPoint::new(5, -7, 11);
    assert_eq!(a * 3, TangentialPoint::new(15, -21, 33));
    assert_eq!(a * -1, TangentialPoint::new(-5, 7, -11));
    assert_eq!(a * 0, TangentialPoint::new(0, 0, 0));
}

#[test]
fn tangential_point_getters() {
    let a = TangentialPoint::new(1, -2, 3);
    assert_eq!((a.x(), a.y(), a.z()), (1, -2, 3));
}

#[test]
fn distance_is_symmetric_and_zero_on_itself() {
    let a = TangentialPoint::new(120, -4500, 77);
    let b = TangentialPoint::new(-8656, -2073, -339);
    assert_eq!(a.distance(&b), b.distance(&a));
    assert_eq!(a.distance(&a), 0);
    assert_eq!(a.squared_distance(&a), 0);
}

#[test]
fn distance_of_a_pythagorean_triple_is_exact() {
    let a = TangentialPoint::new(0, 0, 0);
    let b = TangentialPoint::new(3000, 4000, 12000);
    assert_eq!(a.squared_distance(&b), 169_000_000);
    assert_eq!(a.distance(&b), 13000);
}

#[test]
fn distance_between_the_far_corners_of_the_frame() {
    let a = TangentialPoint::new(i32::MIN, i32::MIN, i32::MIN);
    let b = TangentialPoint::new(i32::MAX, i32::MAX, i32::MAX);
    let gap = u32::MAX as u128;
    assert_eq!(a.squared_distance(&b), 3 * gap * gap);
    // sqrt(3) * (2^32 - 1), rounded down
    assert_eq!(a.distance(&b), 7_439_101_571);
}

#[test]
fn integer_sqrt_rounds_down() {
    assert_eq!(integer_sqrt(0), 0);
    assert_eq!(integer_sqrt(1), 1);
    assert_eq!(integer_sqrt(2), 1);
    assert_eq!(integer_sqrt(3), 1);
    assert_eq!(integer_sqrt(4), 2);
    assert_eq!(integer_sqrt(99), 9);
    assert_eq!(integer_sqrt(100), 10);
    assert_eq!(integer_sqrt(3_000_000), 1732);
    assert_eq!(integer_sqrt(u128::MAX), u64::MAX);
    let big = u64::MAX as u128;
    assert_eq!(integer_sqrt(big * big), u64::MAX);
    assert_eq!(integer_sqrt(big * big - 1), u64::MAX - 1);
}

#[test]
fn gps_points_are_equal_by_latitude_and_longitude_only() {
    let a = GPSPointDeg { lat: 346147979, long: -1124509615, height: 1582300 };
    let same_place_higher = GPSPointDeg { lat: 346147979, long: -1124509615, height: 9 };
    let other_lat = GPSPointDeg { lat: 346147980, long: -1124509615, height: 1582300 };
    let other_long = GPSPointDeg { lat: 346147979, long: -1124509614, height: 1582300 };
    assert!(a == same_place_higher);
    assert!(a != other_lat);
    assert!(a != other_long);
}

#[test]
fn points_compare_place_and_tangential_position() {
    let gps = GPSPointDeg { lat: 1, long: 2, height: 3 };
    let a = Point { gps, tangential: TangentialPoint::new(1, 2, 3) };
    let b = Point { gps, tangential: TangentialPoint::new(1, 2, 4) };
    assert_eq!(a, a.clone());
    assert_ne!(a, b);
}
