//! What can go wrong in the navigation core, and which state the guidance
//! process moves to when it does.

use vstd::prelude::*;

use crate::states::States;

verus! {

/// What can go wrong while a graph is built or asked.
#[derive(PartialEq, Debug)]
pub enum Error {
    /// Another subsystem is not ready yet.
    WaitingSubSystem,
    /// No route leads from the start vertex to the end vertex.
    PathPlanningPathDoesNotExist,
    /// The position is farther than the acceptance radius from every edge.
    PathPlanningNotOnMap,
    /// An edge of the graph is in no cell of the connection matrix: the
    /// graph contradicts itself.
    PathPlanningEdgeIndexNotInConnectionMatrix,
    /// An end of the named edge lies on no vertex.
    DanglingEdge(String),
    /// The named edge joins two vertices that an earlier edge joins already.
    ConflictingEdge(String),
}

impl Error {
    /// The caller can carry on after this error: with another destination,
    /// or after locating the robot again. The other errors show a broken map
    /// or a broken graph, and nothing can be done about them at run time.
    pub open spec fn is_recoverable(&self) -> bool {
        self is WaitingSubSystem || self is PathPlanningPathDoesNotExist || self
            is PathPlanningNotOnMap
    }

    /// The state in which the guidance process carries on after a
    /// recoverable error.
    pub open spec fn next_state(&self) -> States {
        if self is PathPlanningNotOnMap {
            States::PlanPath
        } else {
            States::Wait
        }
    }

    /// Decides how the guidance process goes on after this error. After a
    /// recoverable one it returns the next state: it waits while a subsystem
    /// is missing or while no route exists, for another destination, and it
    /// plans again when the robot was not found on the map. Any other error
    /// is handed back unchanged.
    pub fn handle(&self) -> (outcome: Result<States, Error>)
        ensures
            self.is_recoverable() ==> outcome == Ok::<States, Error>(self.next_state()),
            !self.is_recoverable() ==> outcome is Err && outcome->Err_0.same_as(self),
    {
        match self {
            Error::WaitingSubSystem => Ok(States::Wait),
            Error::PathPlanningPathDoesNotExist => Ok(States::Wait),
            Error::PathPlanningNotOnMap => Ok(States::PlanPath),
            Error::PathPlanningEdgeIndexNotInConnectionMatrix => Err(
                Error::PathPlanningEdgeIndexNotInConnectionMatrix,
            ),
            Error::DanglingEdge(name) => Err(Error::DanglingEdge(name.clone())),
            Error::ConflictingEdge(name) => Err(Error::ConflictingEdge(name.clone())),
        }
    }

    /// Two errors of the same kind, naming the same edge where they name one.
    pub open spec fn same_as(&self, other: &Error) -> bool {
        match (*self, *other) {
            (Error::WaitingSubSystem, Error::WaitingSubSystem) => true,
            (Error::PathPlanningPathDoesNotExist, Error::PathPlanningPathDoesNotExist) => true,
            (Error::PathPlanningNotOnMap, Error::PathPlanningNotOnMap) => true,
            (
                Error::PathPlanningEdgeIndexNotInConnectionMatrix,
                Error::PathPlanningEdgeIndexNotInConnectionMatrix,
            ) => true,
            (Error::DanglingEdge(a), Error::DanglingEdge(b)) => a@ == b@,
            (Error::ConflictingEdge(a), Error::ConflictingEdge(b)) => a@ == b@,
            _ => false,
        }
    }
}

} // verus!
