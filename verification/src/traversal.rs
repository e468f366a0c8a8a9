//! The traversal trigger: the line that the robot has to cross to count as
//! arrived at the waypoint it is heading for.
//!
//! The line lies in the horizontal plane of the tangential frame; heights
//! play no part. It stands at right angles to the way from the robot to the
//! waypoint, a little before the waypoint.

use vstd::prelude::*;

use crate::graph::point::TangentialPoint;

verus! {

/// How far before the waypoint the line is placed, in hundredths of the way
/// from the robot to the waypoint.
pub const OFFSET_PERCENT: i128 = 9;

/// A fraction of two integers. With a denominator of zero and a numerator
/// other than zero it stands for an infinite value, of the numerator's sign.
#[derive(Debug, Clone, Copy, PartialEq, Eq, Structural)]
pub struct Ratio {
    pub numerator: i128,
    pub denominator: i128,
}

/// The line `y = m * x + b`, with `x` and `y` in millimetres.
#[derive(Debug, Clone, Copy, PartialEq, Eq, Structural)]
pub struct ProximityLine {
    /// The slope.
    pub m: Ratio,
    /// The intercept: where the line meets the y axis.
    pub b: Ratio,
}

/// The point through which the line is laid, in hundredths of a millimetre:
/// the waypoint moved back towards the robot by `OFFSET_PERCENT` hundredths
/// of the way. `from` and `to` are one coordinate of the robot and of the
/// waypoint.
pub open spec fn offset_coordinate(from: int, to: int) -> int {
    100 * to - OFFSET_PERCENT * (to - from)
}

impl ProximityLine {
    /// Slope and intercept are written as [`ProximityLine::new`] writes them:
    /// the denominator of the intercept is a hundred times that of the
    /// slope.
    pub open spec fn wf(&self) -> bool {
        self.b.denominator == 100 * self.m.denominator
    }

    /// The line is vertical: its slope is infinite.
    pub open spec fn is_vertical(&self) -> bool {
        self.m.denominator == 0 && self.m.numerator != 0
    }

    /// The line is horizontal: its slope is zero.
    pub open spec fn is_horizontal(&self) -> bool {
        self.m.denominator != 0 && self.m.numerator == 0
    }

    /// The line runs at right angles to the direction `(dx, dy)`.
    pub open spec fn is_perpendicular_to(&self, dx: int, dy: int) -> bool {
        self.m.denominator * dx + self.m.numerator * dy == 0
    }

    /// The point with the coordinates `x` and `y`, given in hundredths of a
    /// millimetre, lies on the line. For a well-formed line this is
    /// `y / 100 == m * (x / 100) + b` multiplied by the denominator of the
    /// intercept.
    pub open spec fn passes_through(&self, x: int, y: int) -> bool {
        self.m.denominator * y == self.m.numerator * x + self.b.numerator
    }

    /// The line that marks arrival at `next_point` for a robot at
    /// `robot_loc`.
    ///
    /// With `(dx, dy)` the way from the robot to the waypoint in the plane,
    /// the slope is `-dx / dy`, and the line goes through the waypoint moved
    /// back by 9 hundredths of that way. So the line is vertical where the
    /// robot travels along the x axis, and horizontal where it travels along
    /// the y axis. Where robot and waypoint coincide in the plane, slope and
    /// intercept are both `0 / 0`.
    pub fn new(robot_loc: &TangentialPoint, next_point: &TangentialPoint) -> (line: Self)
        ensures
            line.wf(),
            line.m.numerator == -(next_point.x - robot_loc.x),
            line.m.denominator == next_point.y - robot_loc.y,
            line.b.numerator == (next_point.x - robot_loc.x) * offset_coordinate(
                robot_loc.x as int,
                next_point.x as int,
            ) + (next_point.y - robot_loc.y) * offset_coordinate(
                robot_loc.y as int,
                next_point.y as int,
            ),
            line.b.denominator == 100 * (next_point.y - robot_loc.y),
            line.is_perpendicular_to(
                next_point.x - robot_loc.x,
                next_point.y - robot_loc.y,
            ),
            line.passes_through(
                offset_coordinate(robot_loc.x as int, next_point.x as int),
                offset_coordinate(robot_loc.y as int, next_point.y as int),
            ),
            line.is_vertical() <==> next_point.y == robot_loc.y && next_point.x != robot_loc.x,
            line.is_horizontal() <==> next_point.x == robot_loc.x && next_point.y != robot_loc.y,
    {
        // The way from the robot to the waypoint.
        let dx: i128 = next_point.x as i128 - robot_loc.x as i128;
        let dy: i128 = next_point.y as i128 - robot_loc.y as i128;
        // A point of the line, in hundredths of a millimetre.
        let px: i128 = 100 * (next_point.x as i128) - OFFSET_PERCENT * dx;
        let py: i128 = 100 * (next_point.y as i128) - OFFSET_PERCENT * dy;
        assert(-0x1_0000_0000 * 0x100_0000_0000 <= dx * px <= 0x1_0000_0000 * 0x100_0000_0000)
            by (nonlinear_arith)
            requires
                -0x1_0000_0000 <= dx <= 0x1_0000_0000,
                -0x100_0000_0000 <= px <= 0x100_0000_0000,
        ;
        assert(-0x1_0000_0000 * 0x100_0000_0000 <= dy * py <= 0x1_0000_0000 * 0x100_0000_0000)
            by (nonlinear_arith)
            requires
                -0x1_0000_0000 <= dy <= 0x1_0000_0000,
                -0x100_0000_0000 <= py <= 0x100_0000_0000,
        ;
        let line = ProximityLine {
            m: Ratio { numerator: -dx, denominator: dy },
            b: Ratio { numerator: dx * px + dy * py, denominator: 100 * dy },
        };
        assert(line.is_perpendicular_to(dx as int, dy as int)) by (nonlinear_arith)
            requires
                line.m.denominator == dy,
                line.m.numerator == -dx,
        ;
        assert(line.passes_through(px as int, py as int)) by (nonlinear_arith)
            requires
                line.m.denominator == dy,
                line.m.numerator == -dx,
                line.b.numerator == dx * px + dy * py,
        ;
        line
    }
}

} // verus!
