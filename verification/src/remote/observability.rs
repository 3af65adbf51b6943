//! Remote observability names: the metric and span names emit sites and
//! dashboards agree on.
use vstd::prelude::*;

verus! {

pub const M_REMOTE_SESSIONS_ACTIVE: &'static str = "wagner_remote_sessions_active";
pub const M_REMOTE_ATTACH_SECONDS: &'static str = "wagner_remote_attach_seconds";
pub const M_DISCOVERY_RESOLVE_TOTAL: &'static str = "wagner_discovery_resolve_total";
pub const M_REMOTE_ACTION_TOTAL: &'static str = "wagner_remote_action_total";
pub const M_DEVCTX_REFUSED_TOTAL: &'static str = "wagner_devctx_refused_total";
pub const SPAN_REMOTE_ATTACH: &'static str = "remote.attach";
pub const SPAN_REMOTE_CONTROL: &'static str = "remote.control";
pub const SPAN_DEVCTX_CMD: &'static str = "devctx.cmd";
pub const SPAN_DEVCTX_FILE: &'static str = "devctx.file";

/// The labelled outcome of a remote action.
#[derive(Debug, Clone, Copy, PartialEq, Eq, Structural)]
pub enum ActionOutcome {
    Success,
    Refused,
    Error,
}

impl ActionOutcome {
    pub fn label(&self) -> (r: &'static str)
        ensures
            r@ == (match self {
                ActionOutcome::Success => "ok"@,
                ActionOutcome::Refused => "refused"@,
                ActionOutcome::Error => "error"@,
            }),
    {
        match self {
            ActionOutcome::Success => "ok",
            ActionOutcome::Refused => "refused",
            ActionOutcome::Error => "error",
        }
    }
}

} // verus!
