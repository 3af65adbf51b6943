//! The role a CLI invocation plays in one loop iteration.
use vstd::prelude::*;

verus! {

/// The role a CLI invocation plays in one loop iteration.
#[derive(Debug, Clone, Copy, PartialEq, Eq, Structural)]
pub enum Role {
    /// Decompose the goal and propose an engine assignment.
    Plan,
    /// Execute a single subtask.
    Execute,
    /// Confirm the goal is satisfied.
    Judge,
}

} // verus!
