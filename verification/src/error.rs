//! Why a request to the planner is turned down.
use vstd::prelude::*;

verus! {

/// An argument that the planner does not accept.
#[derive(Clone, Copy, Debug, PartialEq, Eq, Structural)]
pub enum PlanError {
    /// An obstacle radius below zero.
    NegativeRadius,
    /// An obstacle radius above the workspace limit.
    RadiusTooLarge,
    /// A coordinate outside the workspace.
    OutOfWorkspace,
    /// A segment count of zero, or one above the supported maximum.
    InvalidSegmentCount,
    /// More obstacles than the planner sums over.
    TooManyObstacles,
}

} // verus!
