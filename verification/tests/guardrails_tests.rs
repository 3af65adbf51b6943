use wagner_host::guardrails::{check, check_blocked, Verdict};
use wagner_host::state::HaltReason;

/// The guardrail inputs: an optional iteration cap, iterations used, an
/// optional cost budget, and the cost used so far.
fn verdict(max_iter: Option<u32>, used: u32, budget: Option<f64>, cost_used: f64) -> Verdict {
    let over = budget.map_or(false, |b| cost_used >= b);
    check(max_iter, used, over)
}

#[test]
fn continues_under_all_limits() {
    assert_eq!(verdict(Some(50), 3, Some(1000.0), 10.0), Verdict::Continue);
}

#[test]
fn halts_on_max_iterations() {
    assert_eq!(verdict(Some(50), 50, None, 0.0), Verdict::Halt(HaltReason::Iterations));
}

#[test]
fn no_iteration_cap_never_halts_on_iterations() {
    assert_eq!(verdict(None, 1_000_000, None, 0.0), Verdict::Continue);
    assert_eq!(verdict(None, 1_000_000, Some(10.0), 10.0), Verdict::Halt(HaltReason::Cost));
}

#[test]
fn halts_on_cost_budget() {
    assert_eq!(verdict(Some(50), 1, Some(100.0), 100.0), Verdict::Halt(HaltReason::Cost));
}

#[test]
fn no_cost_budget_means_no_cost_halt() {
    assert_eq!(verdict(Some(50), 1, None, 1e9), Verdict::Continue);
}

#[test]
fn iterations_checked_before_cost() {
    assert_eq!(verdict(Some(10), 10, Some(5.0), 99.0), Verdict::Halt(HaltReason::Iterations));
}

#[test]
fn blocked_timeout_trips_at_threshold() {
    assert_eq!(check_blocked(1800, 1800), Verdict::Halt(HaltReason::BlockedTimeout));
    assert_eq!(check_blocked(1800, 1799), Verdict::Continue);
}
