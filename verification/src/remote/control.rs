//! The single run-control seam. Both the local IPC layer and the remote
//! control channel route actions here. The origin is recorded for audit but
//! never enters the permission decision: a remote action is gated exactly as a local
//! one.
use vstd::prelude::*;
use crate::text::{append_str, chars_of, spec_usize_decimal, string_of, usize_decimal};
use crate::transmissions::{decision_for, Decision};

verus! {

/// Where a control action originated. Audited, never used for the decision.
#[derive(Debug, Clone)]
pub enum ControlOrigin {
    /// The local desktop IPC layer.
    Local,
    /// A verified remote operator over the attached control channel.
    Remote { client_id: String, operator_id: String },
}

impl ControlOrigin {
    pub open spec fn label_spec(&self) -> Seq<char> {
        match self {
            ControlOrigin::Local => "local"@,
            ControlOrigin::Remote { client_id, operator_id } => "remote:"@ + operator_id@ + "/"@
                + client_id@,
        }
    }

    /// Audit label for the control event metadata.
    pub fn label(&self) -> (r: String)
        ensures
            r@ == self.label_spec(),
    {
        match self {
            ControlOrigin::Local => "local".to_owned(),
            ControlOrigin::Remote { client_id, operator_id } => {
                let mut v = chars_of("remote:");
                append_str(&mut v, operator_id.as_str());
                append_str(&mut v, "/");
                append_str(&mut v, client_id.as_str());
                string_of(&v)
            },
        }
    }
}

/// A run-control intent: answer an open permission, steer the run, or launch
/// a skill. Identical whether it came from local IPC or a remote channel.
#[derive(Debug, Clone)]
pub enum ControlAction {
    AnswerPermission { transmission_id: String, answer: String },
    Steer { text: String },
    RunSkill { skill_id: String },
}

/// What the seam decided and did.
#[derive(Debug, Clone, PartialEq, Eq)]
pub struct ControlOutcome {
    /// Whether the action was applied (e.g. the transmission was open).
    pub accepted: bool,
    /// The permission decision, for permission answers only.
    pub gate_decision: Option<Decision>,
    /// Human-readable note for logs.
    pub note: String,
}

/// The permission decision an action carries: for a permission answer, the decision
/// its answer maps to; none otherwise.
pub open spec fn gate_decision_spec(action: ControlAction) -> Option<Decision> {
    match action {
        ControlAction::AnswerPermission { answer, .. } => Some(decision_for(answer@)),
        _ => None,
    }
}

/// Whether the action was applied: a permission answer only when it was
/// delivered to an open transmission; steer and run-skill always.
pub open spec fn accepted_spec(action: ControlAction, delivered: bool) -> bool {
    match action {
        ControlAction::AnswerPermission { .. } => delivered,
        _ => true,
    }
}

pub open spec fn decision_name(d: Decision) -> Seq<char> {
    match d {
        Decision::Allow => "Allow"@,
        Decision::Deny => "Deny"@,
    }
}

pub open spec fn note_spec(origin: ControlOrigin, action: ControlAction, delivered: bool) -> Seq<char> {
    match action {
        ControlAction::AnswerPermission { transmission_id, answer } => if delivered {
            origin.label_spec() + " answered "@ + transmission_id@ + " ("@ + decision_name(
                decision_for(answer@),
            ) + ")"@
        } else {
            origin.label_spec() + " answered "@ + transmission_id@ + " — no open transmission"@
        },
        ControlAction::Steer { text } => origin.label_spec() + " steer: "@ + spec_usize_decimal(
            vstd::utf8::encode_utf8(text@).len() as usize,
        ) + " chars"@,
        ControlAction::RunSkill { skill_id } => origin.label_spec() + " run_skill: "@ + skill_id@,
    }
}

/// The permission decision for an action; for a permission answer, derived from the
/// answer alone.
pub fn gate_decision_for(action: &ControlAction) -> (r: Option<Decision>)
    ensures
        r == gate_decision_spec(*action),
{
    match action {
        ControlAction::AnswerPermission { answer, .. } => Some(Decision::from_answer(answer.as_str())),
        _ => None,
    }
}

/// The outcome of routing `action` from `origin`, given whether a permission
/// answer reached an open transmission (`delivered`; ignored otherwise).
pub fn control_outcome(origin: &ControlOrigin, action: &ControlAction, delivered: bool) -> (r: ControlOutcome)
    ensures
        r.accepted == accepted_spec(*action, delivered),
        r.gate_decision == gate_decision_spec(*action),
        r.note@ == note_spec(*origin, *action, delivered),
{
    let label = origin.label();
    let mut note = chars_of(label.as_str());
    match action {
        ControlAction::AnswerPermission { transmission_id, answer } => {
            let decision = Decision::from_answer(answer.as_str());
            append_str(&mut note, " answered ");
            append_str(&mut note, transmission_id.as_str());
            if delivered {
                append_str(&mut note, " (");
                match decision {
                    Decision::Allow => append_str(&mut note, "Allow"),
                    Decision::Deny => append_str(&mut note, "Deny"),
                }
                append_str(&mut note, ")");
            } else {
                append_str(&mut note, " — no open transmission");
            }
            ControlOutcome { accepted: delivered, gate_decision: Some(decision), note: string_of(&note) }
        },
        ControlAction::Steer { text } => {
            let n = usize_decimal(text.as_str().len());
            append_str(&mut note, " steer: ");
            append_str(&mut note, n.as_str());
            append_str(&mut note, " chars");
            ControlOutcome { accepted: true, gate_decision: None, note: string_of(&note) }
        },
        ControlAction::RunSkill { skill_id } => {
            append_str(&mut note, " run_skill: ");
            append_str(&mut note, skill_id.as_str());
            ControlOutcome { accepted: true, gate_decision: None, note: string_of(&note) }
        },
    }
}

} // verus!
