//! Arming: the edge-only host action that advertises the endpoint. `arm`
//! consumes a [`LocalOperator`], whose only constructor is
//! [`LocalOperator::from_host`]; no function arms from a remote message.
use vstd::prelude::*;
use super::RemoteAuditEvent;

verus! {

/// An operator identity established on the host.
#[derive(Debug, Clone)]
pub struct LocalOperator {
    id: String,
}

impl LocalOperator {
    pub closed spec fn id_spec(&self) -> Seq<char> {
        self.id@
    }

    /// Build a local operator identity (host-side only).
    pub fn from_host(id: &str) -> (r: Self)
        ensures
            r.id_spec() == id@,
    {
        LocalOperator { id: id.to_owned() }
    }

    pub fn id(&self) -> (r: &str)
        ensures
            r@ == self.id_spec(),
    {
        self.id.as_str()
    }
}

/// The host's arming state — armed advertises an endpoint; disarmed does not.
#[derive(Debug, Clone, PartialEq, Eq)]
pub struct ArmState {
    pub armed: bool,
    pub operator_id: String,
    pub node_id: String,
    pub ticket_id: String,
    pub expires_at_ms: u64,
}

impl ArmState {
    /// The not-armed state.
    pub fn disarmed() -> (r: Self)
        ensures
            !r.armed,
            r.operator_id@.len() == 0,
            r.node_id@.len() == 0,
            r.ticket_id@.len() == 0,
            r.expires_at_ms == 0,
    {
        ArmState {
            armed: false,
            operator_id: String::new(),
            node_id: String::new(),
            ticket_id: String::new(),
            expires_at_ms: 0,
        }
    }
}

/// Arm (or re-arm) the host: a fresh ticket and expiry, and one `Armed` event.
pub fn arm(
    operator: &LocalOperator,
    node_id: &str,
    ticket_id: &str,
    now_ms: u64,
    ttl_ms: u64,
) -> (r: (ArmState, RemoteAuditEvent))
    requires
        now_ms + ttl_ms <= u64::MAX,
    ensures
        r.0.armed,
        r.0.operator_id@ == operator.id_spec(),
        r.0.node_id@ == node_id@,
        r.0.ticket_id@ == ticket_id@,
        r.0.expires_at_ms == now_ms + ttl_ms,
        r.1 matches RemoteAuditEvent::Armed { operator_id, node_id: n, ticket_id: t }
            && operator_id@ == operator.id_spec() && n@ == node_id@ && t@ == ticket_id@,
{
    let state = ArmState {
        armed: true,
        operator_id: operator.id().to_owned(),
        node_id: node_id.to_owned(),
        ticket_id: ticket_id.to_owned(),
        expires_at_ms: now_ms + ttl_ms,
    };
    let event = RemoteAuditEvent::Armed {
        operator_id: operator.id().to_owned(),
        node_id: node_id.to_owned(),
        ticket_id: ticket_id.to_owned(),
    };
    (state, event)
}

/// Disarm the host; a re-attach then requires re-arming.
pub fn disarm() -> (r: RemoteAuditEvent)
    ensures
        r is Disarmed,
{
    RemoteAuditEvent::Disarmed
}

} // verus!
