//! Attach / session lifecycle: a remote client attaches only when the host is
//! armed, the arming ticket is live, and the verified requester owns the host.
use vstd::prelude::*;
use super::arm::ArmState;
use crate::text::{chars_of, seq_eq};

verus! {

/// The transient-reattach window: a drop shorter than this re-attaches
/// without re-arming (exclusive bound).
pub const REATTACH_WINDOW_MS: u64 = 30_000;

/// A remote operator whose identity has been verified.
#[derive(Debug, Clone)]
pub struct VerifiedRemote {
    operator_id: String,
    client_id: String,
}

impl VerifiedRemote {
    pub closed spec fn operator_spec(&self) -> Seq<char> {
        self.operator_id@
    }

    pub closed spec fn client_spec(&self) -> Seq<char> {
        self.client_id@
    }

    pub fn new(operator_id: &str, client_id: &str) -> (r: Self)
        ensures
            r.operator_spec() == operator_id@,
            r.client_spec() == client_id@,
    {
        VerifiedRemote { operator_id: operator_id.to_owned(), client_id: client_id.to_owned() }
    }

    pub fn operator_id(&self) -> (r: &str)
        ensures
            r@ == self.operator_spec(),
    {
        self.operator_id.as_str()
    }

    pub fn client_id(&self) -> (r: &str)
        ensures
            r@ == self.client_spec(),
    {
        self.client_id.as_str()
    }
}

/// Why an attach was refused.
#[derive(Debug, Clone, Copy, PartialEq, Eq, Structural)]
pub enum AttachRefusal {
    /// The host is not armed.
    NotArmed,
    /// The verified requester is not the host owner.
    NotOwner,
    /// The arming ticket has lapsed.
    Expired,
}

/// An established remote session.
#[derive(Debug, Clone, PartialEq, Eq)]
pub struct Session {
    operator_id: String,
    client_id: String,
    attached_at_ms: u64,
}

impl Session {
    pub closed spec fn operator_spec(&self) -> Seq<char> {
        self.operator_id@
    }

    pub closed spec fn client_spec(&self) -> Seq<char> {
        self.client_id@
    }

    pub closed spec fn attached_spec(&self) -> u64 {
        self.attached_at_ms
    }

    pub fn operator_id(&self) -> (r: &str)
        ensures
            r@ == self.operator_spec(),
    {
        self.operator_id.as_str()
    }

    pub fn client_id(&self) -> (r: &str)
        ensures
            r@ == self.client_spec(),
    {
        self.client_id.as_str()
    }

    pub fn attached_at_ms(&self) -> (r: u64)
        ensures
            r == self.attached_spec(),
    {
        self.attached_at_ms
    }
}

/// Attempt to attach a verified remote to an armed host at `now_ms`. Refusals
/// are checked in order: not armed, expired ticket, not the owner.
pub fn attach(arm_state: &ArmState, who: &VerifiedRemote, now_ms: u64) -> (r: Result<Session, AttachRefusal>)
    ensures
        !arm_state.armed ==> r == Err::<Session, AttachRefusal>(AttachRefusal::NotArmed),
        arm_state.armed && now_ms >= arm_state.expires_at_ms ==> r == Err::<Session, AttachRefusal>(
            AttachRefusal::Expired,
        ),
        arm_state.armed && now_ms < arm_state.expires_at_ms && who.operator_spec()
            != arm_state.operator_id@ ==> r == Err::<Session, AttachRefusal>(AttachRefusal::NotOwner),
        r is Ok <==> (arm_state.armed && now_ms < arm_state.expires_at_ms && who.operator_spec()
            == arm_state.operator_id@),
        r matches Ok(s) ==> s.operator_spec() == who.operator_spec() && s.client_spec()
            == who.client_spec() && s.attached_spec() == now_ms,
{
    if !arm_state.armed {
        return Err(AttachRefusal::NotArmed);
    }
    if now_ms >= arm_state.expires_at_ms {
        return Err(AttachRefusal::Expired);
    }
    let who_op = chars_of(who.operator_id());
    let owner = chars_of(arm_state.operator_id.as_str());
    if !seq_eq(&who_op, &owner) {
        return Err(AttachRefusal::NotOwner);
    }
    Ok(
        Session {
            operator_id: who.operator_id().to_owned(),
            client_id: who.client_id().to_owned(),
            attached_at_ms: now_ms,
        },
    )
}

/// How a session ended.
#[derive(Debug, Clone, Copy, PartialEq, Eq, Structural)]
pub enum DropKind {
    /// The operator deliberately closed the session — re-arm required.
    Deliberate,
    /// The connection dropped transiently while still armed.
    Transient,
}

/// Whether a dropped session may re-attach without re-arming: only a
/// transient drop within the exclusive reattach window.
pub fn can_reattach(kind: DropKind, elapsed_ms: u64) -> (r: bool)
    ensures
        r == (kind == DropKind::Transient && elapsed_ms < REATTACH_WINDOW_MS),
{
    match kind {
        DropKind::Transient => elapsed_ms < REATTACH_WINDOW_MS,
        DropKind::Deliberate => false,
    }
}

} // verus!
