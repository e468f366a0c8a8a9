//! Points: geodetic positions as surveyed, positions in the local tangential
//! frame, and the Euclidean distance between two of the latter.

use vstd::prelude::*;
use vstd::std_specs::cmp::PartialEqSpecImpl;
use vstd::std_specs::ops::{MulSpecImpl, SubSpecImpl};

verus! {

/// A geodetic position. Latitude and longitude are in units of 1e-7 degree,
/// the height above the ellipsoid is in millimetres.
///
/// Two positions are equal when latitude and longitude agree; the height is
/// not part of a position's identity.
#[derive(Debug, Clone, Copy)]
pub struct GPSPointDeg {
    pub lat: i32,
    pub long: i32,
    pub height: i32,
}

impl GPSPointDeg {
    /// Same latitude and longitude.
    pub open spec fn same_place(&self, other: &Self) -> bool {
        self.lat == other.lat && self.long == other.long
    }
}

impl PartialEq for GPSPointDeg {
    fn eq(&self, other: &Self) -> (equal: bool) {
        self.lat == other.lat && self.long == other.long
    }
}

impl PartialEqSpecImpl for GPSPointDeg {
    open spec fn obeys_eq_spec() -> bool {
        true
    }

    open spec fn eq_spec(&self, other: &Self) -> bool {
        self.lat == other.lat && self.long == other.long
    }
}

/// `r` is the integer square root of `n`: the largest number whose square
/// does not exceed `n`.
pub open spec fn is_floor_sqrt(n: nat, r: nat) -> bool {
    r * r <= n < (r + 1) * (r + 1)
}

/// The integer square root of `n`.
pub open spec fn floor_sqrt(n: nat) -> nat {
    choose|r: nat| is_floor_sqrt(n, r)
}

proof fn lemma_square_monotonic(a: nat, b: nat)
    requires
        a <= b,
    ensures
        a * a <= b * b,
{
    assert(a * a <= b * b) by (nonlinear_arith)
        requires
            a <= b,
    ;
}

/// A number has one integer square root only, so any `r` that fits is
/// `floor_sqrt(n)`.
pub proof fn lemma_floor_sqrt_unique(n: nat, r: nat)
    requires
        is_floor_sqrt(n, r),
    ensures
        floor_sqrt(n) == r,
{
    let s = floor_sqrt(n);
    assert(is_floor_sqrt(n, s));
    if s < r {
        lemma_square_monotonic(s + 1, r);
    } else if r < s {
        lemma_square_monotonic(r + 1, s);
    }
}

/// The integer square root, by bisection.
pub fn integer_sqrt(n: u128) -> (r: u64)
    ensures
        is_floor_sqrt(n as nat, r as nat),
        r == floor_sqrt(n as nat),
{
    let mut lo: u128 = 0;
    let mut hi: u128 = 0x1_0000_0000_0000_0000;
    assert(n < hi * hi) by (nonlinear_arith)
        requires
            n <= u128::MAX,
            hi == 0x1_0000_0000_0000_0000,
    ;
    while hi - lo > 1
        invariant
            lo < hi <= 0x1_0000_0000_0000_0000,
            lo * lo <= n < hi * hi,
        decreases hi - lo,
    {
        let mid: u128 = lo + (hi - lo) / 2;
        assert(mid * mid <= 0xFFFF_FFFF_FFFF_FFFF * 0xFFFF_FFFF_FFFF_FFFF) by (nonlinear_arith)
            requires
                0 <= mid <= 0xFFFF_FFFF_FFFF_FFFF,
        ;
        if mid * mid <= n {
            lo = mid;
        } else {
            hi = mid;
        }
    }
    proof {
        lemma_floor_sqrt_unique(n as nat, lo as nat);
    }
    lo as u64
}

/// The square of the difference of two coordinates.
pub open spec fn squared_gap(a: int, b: int) -> nat {
    ((a - b) * (a - b)) as nat
}

fn coordinate_gap_squared(a: i32, b: i32) -> (s: u128)
    ensures
        s == squared_gap(a as int, b as int),
        s <= 0xFFFF_FFFE_0000_0001,
{
    let gap: i128 = a as i128 - b as i128;
    assert(0 <= gap * gap <= 0xFFFF_FFFF * 0xFFFF_FFFF) by (nonlinear_arith)
        requires
            -0xFFFF_FFFF <= gap <= 0xFFFF_FFFF,
    ;
    (gap * gap) as u128
}

/// A position in the local tangential frame, in millimetres from the frame's
/// origin.
#[derive(Debug, Clone, Copy, PartialEq, Eq, Structural)]
pub struct TangentialPoint {
    pub x: i32,
    pub y: i32,
    pub z: i32,
}

impl TangentialPoint {
    /// The point with the given coordinates.
    pub fn new(x: i32, y: i32, z: i32) -> (point: Self)
        ensures
            point == (TangentialPoint { x, y, z }),
    {
        TangentialPoint { x, y, z }
    }

    /// The first coordinate.
    pub fn x(&self) -> (x: i32)
        ensures
            x == self.x,
    {
        self.x
    }

    /// The second coordinate.
    pub fn y(&self) -> (y: i32)
        ensures
            y == self.y,
    {
        self.y
    }

    /// The third coordinate.
    pub fn z(&self) -> (z: i32)
        ensures
            z == self.z,
    {
        self.z
    }

    /// The square of the Euclidean distance between two points.
    pub open spec fn distance_squared(&self, other: &Self) -> nat {
        squared_gap(self.x as int, other.x as int) + squared_gap(self.y as int, other.y as int)
            + squared_gap(self.z as int, other.z as int)
    }

    /// The Euclidean distance between two points, rounded down to whole
    /// millimetres.
    pub open spec fn spec_distance(&self, other: &Self) -> nat {
        floor_sqrt(self.distance_squared(other))
    }

    /// The square of the Euclidean distance to `other`. It is exact, so
    /// distances are best compared by their squares.
    pub fn squared_distance(&self, other: &Self) -> (d: u128)
        ensures
            d == self.distance_squared(other),
            d <= 3 * 0xFFFF_FFFE_0000_0001,
    {
        coordinate_gap_squared(self.x, other.x) + coordinate_gap_squared(self.y, other.y)
            + coordinate_gap_squared(self.z, other.z)
    }

    /// The Euclidean distance to `other`, rounded down to whole millimetres.
    /// No two points of the frame are 2^33 millimetres apart.
    pub fn distance(&self, other: &Self) -> (d: u64)
        ensures
            d == self.spec_distance(other),
            is_floor_sqrt(self.distance_squared(other), d as nat),
            d < 0x2_0000_0000,
    {
        let squared = self.squared_distance(other);
        let d = integer_sqrt(squared);
        assert(d < 0x2_0000_0000) by (nonlinear_arith)
            requires
                d * d <= squared,
                squared <= 3 * 0xFFFF_FFFE_0000_0001,
        ;
        d
    }
}

/// Vector subtraction: the displacement that leads from `other` to `self`.
/// It is defined where each component of the displacement fits in an `i32`.
impl core::ops::Sub for TangentialPoint {
    type Output = TangentialPoint;

    fn sub(self, other: Self) -> (displacement: TangentialPoint) {
        TangentialPoint { x: self.x - other.x, y: self.y - other.y, z: self.z - other.z }
    }
}

impl SubSpecImpl for TangentialPoint {
    open spec fn obeys_sub_spec() -> bool {
        true
    }

    open spec fn sub_req(self, other: Self) -> bool {
        &&& i32::MIN <= self.x - other.x <= i32::MAX
        &&& i32::MIN <= self.y - other.y <= i32::MAX
        &&& i32::MIN <= self.z - other.z <= i32::MAX
    }

    open spec fn sub_spec(self, other: Self) -> TangentialPoint {
        TangentialPoint {
            x: (self.x - other.x) as i32,
            y: (self.y - other.y) as i32,
            z: (self.z - other.z) as i32,
        }
    }
}

/// Scalar multiplication. It is defined where each component of the product
/// fits in an `i32`.
impl core::ops::Mul<i32> for TangentialPoint {
    type Output = TangentialPoint;

    fn mul(self, factor: i32) -> (scaled: TangentialPoint) {
        TangentialPoint { x: self.x * factor, y: self.y * factor, z: self.z * factor }
    }
}

impl MulSpecImpl<i32> for TangentialPoint {
    open spec fn obeys_mul_spec() -> bool {
        true
    }

    open spec fn mul_req(self, factor: i32) -> bool {
        &&& i32::MIN <= self.x * factor <= i32::MAX
        &&& i32::MIN <= self.y * factor <= i32::MAX
        &&& i32::MIN <= self.z * factor <= i32::MAX
    }

    open spec fn mul_spec(self, factor: i32) -> TangentialPoint {
        TangentialPoint {
            x: (self.x * factor) as i32,
            y: (self.y * factor) as i32,
            z: (self.z * factor) as i32,
        }
    }
}

/// A surveyed point: where it lies on the ellipsoid and where that is in the
/// tangential frame. The second is worked out once, when the map is loaded.
#[derive(Debug, Clone, Copy, PartialEq)]
pub struct Point {
    pub gps: GPSPointDeg,
    pub tangential: TangentialPoint,
}

} // verus!
