//! Navigation core of a ground robot: a graph of surveyed waypoints and
//! footpaths in a local flat frame, shortest routes over it, localisation of
//! the robot on the path network, and the line whose crossing marks arrival
//! at the next waypoint.
//!
//! All quantities are fixed-point integers: tangential coordinates, edge
//! lengths and distances are millimetres; latitude and longitude are in units
//! of 1e-7 degree.

pub mod error;
pub mod graph;
pub mod path_planning;
pub mod states;
pub mod traversal;
