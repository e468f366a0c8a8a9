//! The states of the guidance process.

use vstd::prelude::*;

verus! {

/// What the guidance process is doing.
#[derive(Debug, Clone, Copy, PartialEq, Eq, Structural)]
pub enum States {
    /// Waiting for the other subsystems, or for a destination.
    Wait,
    /// Locating the robot on the map and choosing a route.
    PlanPath,
    /// Following the chosen route.
    Traverse,
    /// Stopping for good.
    Shutdown,
}

} // verus!
