//! Remote sessions: edge-only arming, ephemeral attach/session lifecycle, the
//! gate-reuse control seam, dev-context primitives and connection policy.
use vstd::prelude::*;

pub mod arm;
pub mod control;
pub mod devcontext;
pub mod endpoint;
pub mod observability;
pub mod session;

verus! {

/// Remote audit events. They carry metadata only, never run output.
#[derive(Debug, Clone, PartialEq, Eq)]
pub enum RemoteAuditEvent {
    Armed { operator_id: String, node_id: String, ticket_id: String },
    Disarmed,
    Attached { operator_id: String, client_id: String },
    Detached { client_id: String, reason: String },
}

impl RemoteAuditEvent {
    pub open spec fn kind_spec(&self) -> Seq<char> {
        match self {
            RemoteAuditEvent::Armed { .. } => "remote.armed"@,
            RemoteAuditEvent::Disarmed => "remote.disarmed"@,
            RemoteAuditEvent::Attached { .. } => "remote.attached"@,
            RemoteAuditEvent::Detached { .. } => "remote.detached"@,
        }
    }

    /// The event-kind tag.
    pub fn kind(&self) -> (r: &'static str)
        ensures
            r@ == self.kind_spec(),
    {
        match self {
            RemoteAuditEvent::Armed { .. } => "remote.armed",
            RemoteAuditEvent::Disarmed => "remote.disarmed",
            RemoteAuditEvent::Attached { .. } => "remote.attached",
            RemoteAuditEvent::Detached { .. } => "remote.detached",
        }
    }

    /// The operator the event concerns, when it names one.
    pub fn operator_id(&self) -> (r: Option<&str>)
        ensures
            match self {
                RemoteAuditEvent::Armed { operator_id, .. } => r matches Some(s) && s@
                    == operator_id@,
                RemoteAuditEvent::Attached { operator_id, .. } => r matches Some(s) && s@
                    == operator_id@,
                _ => r is None,
            },
    {
        match self {
            RemoteAuditEvent::Armed { operator_id, .. } => Some(operator_id.as_str()),
            RemoteAuditEvent::Attached { operator_id, .. } => Some(operator_id.as_str()),
            _ => None,
        }
    }
}

} // verus!
