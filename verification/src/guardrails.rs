//! The run-halting limits: an iteration cap, a cost budget and the
//! blocked-too-long timeout of an open transmission.
//!
//! Cost is measured in a fractional unit; whether the used cost has reached the
//! budget is decided by the caller and handed in as `cost_over_budget`.
use vstd::prelude::*;
use crate::state::HaltReason;

verus! {

/// A guardrail decision: continue, or halt with a reason.
#[derive(Debug, Clone, Copy, PartialEq, Eq, Structural)]
pub enum Verdict {
    Continue,
    Halt(HaltReason),
}

/// The verdict of the iteration and cost limits, iterations checked first.
pub open spec fn check_spec(
    max_iterations: Option<u32>,
    iterations_used: u32,
    cost_over_budget: bool,
) -> Verdict {
    if max_iterations is Some && iterations_used >= max_iterations->0 {
        Verdict::Halt(HaltReason::Iterations)
    } else if cost_over_budget {
        Verdict::Halt(HaltReason::Cost)
    } else {
        Verdict::Continue
    }
}

/// Evaluates the iteration and cost guardrails at the top of a loop iteration.
/// An unset iteration cap means "run until goal-met".
pub fn check(max_iterations: Option<u32>, iterations_used: u32, cost_over_budget: bool) -> (v:
    Verdict)
    ensures
        v == check_spec(max_iterations, iterations_used, cost_over_budget),
{
    if let Some(max) = max_iterations {
        if iterations_used >= max {
            return Verdict::Halt(HaltReason::Iterations);
        }
    }
    if cost_over_budget {
        return Verdict::Halt(HaltReason::Cost);
    }
    Verdict::Continue
}

/// Evaluates the blocked-too-long guardrail for an open transmission that has
/// gone unanswered for `blocked_secs`.
pub fn check_blocked(blocked_timeout_secs: u32, blocked_secs: u64) -> (v: Verdict)
    ensures
        v == (if blocked_secs >= blocked_timeout_secs {
            Verdict::Halt(HaltReason::BlockedTimeout)
        } else {
            Verdict::Continue
        }),
{
    if blocked_secs >= blocked_timeout_secs as u64 {
        return Verdict::Halt(HaltReason::BlockedTimeout);
    }
    Verdict::Continue
}

/// The default blocked-transmission timeout: thirty minutes.
pub const DEFAULT_BLOCKED_TIMEOUT_SECS: u32 = 1800;

} // verus!
