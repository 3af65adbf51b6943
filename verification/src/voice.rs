//! Voice: what a transcript asks for, which run it is aimed at, and which run
//! facts are spoken aloud.
//!
//! A transcript is a spoken cancel only when the whole utterance is a cancel
//! phrase ("stop", "never mind", ...): "stop wasting tokens" is a goal, never an
//! abort. Anything else is free-form: it steers the focused run, or starts a
//! run when none is focused.
use vstd::prelude::*;
use crate::bus::RunCommand;
use crate::state::RunStatus;
use crate::text::{chars_of, lowercase, spec_lowercase, str_eq, string_of, trim, trim_seq, trim_str};

verus! {

/// What a transcript asks for, before routing.
#[derive(Debug, Clone, Copy, PartialEq, Eq, Structural)]
pub enum SpokenIntent {
    Cancel,
    FreeForm,
}

/// Trailing punctuation that does not change an utterance's meaning.
pub open spec fn is_end_punct(c: char) -> bool {
    c == '.' || c == '!' || c == '?' || c == ','
}

/// `s` without trailing punctuation.
pub open spec fn strip_end_punct(s: Seq<char>) -> Seq<char>
    decreases s.len(),
{
    if s.len() > 0 && is_end_punct(s.last()) {
        strip_end_punct(s.drop_last())
    } else {
        s
    }
}

/// An utterance as compared with the cancel phrases: trimmed, lowercased,
/// without trailing punctuation, trimmed again.
pub open spec fn normalized_utterance(t: Seq<char>) -> Seq<char> {
    trim_seq(strip_end_punct(spec_lowercase(trim_seq(t))))
}

/// The phrases that cancel when they are the whole utterance.
pub open spec fn is_cancel_phrase(p: Seq<char>) -> bool {
    p == "stop"@ || p == "cancel"@ || p == "abort"@ || p == "never mind"@ || p == "nevermind"@
}

/// The intent of a transcript.
pub open spec fn classify_spoken_spec(t: Seq<char>) -> SpokenIntent {
    if is_cancel_phrase(normalized_utterance(t)) {
        SpokenIntent::Cancel
    } else {
        SpokenIntent::FreeForm
    }
}

/// Classifies a transcript (see `classify_spoken_spec`).
pub fn classify_spoken(transcript: &str) -> (r: SpokenIntent)
    ensures
        r == classify_spoken_spec(transcript@),
{
    let t = trim_str(transcript);
    let low = lowercase(t.as_str());
    let v = chars_of(low.as_str());
    let mut j = v.len();
    assert(v@.subrange(0, v.len() as int) =~= v@);
    while j > 0 && (v[j - 1] == '.' || v[j - 1] == '!' || v[j - 1] == '?' || v[j - 1] == ',')
        invariant
            j <= v.len(),
            strip_end_punct(v@) == strip_end_punct(v@.subrange(0, j as int)),
        decreases j,
    {
        assert(v@.subrange(0, j as int).drop_last() =~= v@.subrange(0, j - 1));
        j = j - 1;
    }
    let mut head: Vec<char> = Vec::new();
    let mut i: usize = 0;
    while i < j
        invariant
            0 <= i <= j <= v.len(),
            head@ == v@.subrange(0, i as int),
        decreases j - i,
    {
        head.push(v[i]);
        assert(v@.subrange(0, i + 1) == v@.subrange(0, i as int).push(v@[i as int]));
        i = i + 1;
    }
    let n = string_of(&trim(&head));
    let p = n.as_str();
    if str_eq(p, "stop") || str_eq(p, "cancel") || str_eq(p, "abort") || str_eq(p, "never mind")
        || str_eq(p, "nevermind") {
        SpokenIntent::Cancel
    } else {
        SpokenIntent::FreeForm
    }
}

/// What a transcript routes to.
#[derive(Debug, Clone, PartialEq, Eq)]
pub enum IntakeAction {
    /// A spoken cancel: abort the focused run.
    Cancel,
    /// No focused run: start a new run with this goal.
    StartRun { goal: String },
    /// A focused run: steer it with this text.
    Steer { run_id: String, text: String },
}

/// Routes a transcript given the focused run, if any: a spoken cancel cancels
/// whatever the focus; free-form text, trimmed, steers the focused run or
/// starts a new one.
pub fn route_transcript(transcript: &str, focused_run: Option<&str>) -> (r: IntakeAction)
    ensures
        classify_spoken_spec(transcript@) == SpokenIntent::Cancel ==> r == IntakeAction::Cancel,
        classify_spoken_spec(transcript@) == SpokenIntent::FreeForm ==> match focused_run {
            Some(id) => r matches IntakeAction::Steer { run_id, text } && run_id@ == id@ && text@
                == trim_seq(transcript@),
            None => r matches IntakeAction::StartRun { goal } && goal@ == trim_seq(transcript@),
        },
{
    if classify_spoken(transcript) == SpokenIntent::Cancel {
        return IntakeAction::Cancel;
    }
    let text = trim_str(transcript);
    match focused_run {
        Some(run_id) => IntakeAction::Steer { run_id: run_id.to_owned(), text },
        None => IntakeAction::StartRun { goal: text },
    }
}

impl IntakeAction {
    /// The run command for the free-form actions; a cancel is dispatched by the
    /// caller as an abort of the focused run.
    pub fn to_command(&self) -> (r: Option<RunCommand>)
        ensures
            match self {
                IntakeAction::Cancel => r is None,
                IntakeAction::StartRun { goal } => r matches Some(RunCommand::Start { goal: g })
                    && g@ == goal@,
                IntakeAction::Steer { run_id, text } => r matches Some(
                    RunCommand::Steer { run_id: i, text: t },
                ) && i@ == run_id@ && t@ == text@,
            },
    {
        match self {
            IntakeAction::Cancel => None,
            IntakeAction::StartRun { goal } => Some(RunCommand::Start { goal: goal.clone() }),
            IntakeAction::Steer { run_id, text } => Some(
                RunCommand::Steer { run_id: run_id.clone(), text: text.clone() },
            ),
        }
    }
}

/// The run a free-form utterance steers and a spoken cancel aborts: the one
/// live (running or paused) run, cleared when that run ends.
#[derive(Debug, Clone, PartialEq, Eq)]
pub struct IntakeFocus {
    pub focused_run: Option<String>,
}

/// The focus after a run snapshot: a live run becomes the focus; a terminal
/// snapshot of the focused run clears it; otherwise it is unchanged.
pub open spec fn focus_after_snapshot(
    focused: Option<Seq<char>>,
    run_id: Seq<char>,
    status: RunStatus,
) -> Option<Seq<char>> {
    if status == RunStatus::Running || status == RunStatus::Paused {
        Some(run_id)
    } else if focused == Some(run_id) {
        None
    } else {
        focused
    }
}

impl IntakeFocus {
    pub open spec fn focus(&self) -> Option<Seq<char>> {
        match self.focused_run {
            Some(r) => Some(r@),
            None => None,
        }
    }

    pub fn new() -> (r: Self)
        ensures
            r.focus() is None,
    {
        IntakeFocus { focused_run: None }
    }

    /// Folds a run snapshot into the focus.
    pub fn on_snapshot(&mut self, run_id: &str, status: RunStatus)
        ensures
            final(self).focus() == focus_after_snapshot(old(self).focus(), run_id@, status),
    {
        if status == RunStatus::Running || status == RunStatus::Paused {
            self.focused_run = Some(run_id.to_owned());
        } else {
            let clear = match &self.focused_run {
                Some(f) => str_eq(f.as_str(), run_id),
                None => false,
            };
            if clear {
                self.focused_run = None;
            }
        }
    }

    /// Folds a finished run into the focus: finishing the focused run clears it.
    pub fn on_finished(&mut self, run_id: &str)
        ensures
            final(self).focus() == (if old(self).focus() == Some(run_id@) {
                None
            } else {
                old(self).focus()
            }),
    {
        let clear = match &self.focused_run {
            Some(f) => str_eq(f.as_str(), run_id),
            None => false,
        };
        if clear {
            self.focused_run = None;
        }
    }

    /// Routes a transcript against the current focus.
    pub fn route(&self, transcript: &str) -> (r: IntakeAction)
        ensures
            classify_spoken_spec(transcript@) == SpokenIntent::Cancel ==> r == IntakeAction::Cancel,
            classify_spoken_spec(transcript@) == SpokenIntent::FreeForm ==> match self.focus() {
                Some(id) => r matches IntakeAction::Steer { run_id, text } && run_id@ == id && text@
                    == trim_seq(transcript@),
                None => r matches IntakeAction::StartRun { goal } && goal@ == trim_seq(transcript@),
            },
    {
        match &self.focused_run {
            Some(f) => route_transcript(transcript, Some(f.as_str())),
            None => route_transcript(transcript, None),
        }
    }

    /// The abort a spoken cancel dispatches: the focused run (`None` aborts the
    /// single live session).
    pub fn cancel_command(&self) -> (r: RunCommand)
        ensures
            r matches RunCommand::Abort { run_id } && match (run_id, self.focus()) {
                (Some(a), Some(b)) => a@ == b,
                (None, None) => true,
                _ => false,
            },
    {
        match &self.focused_run {
            Some(f) => RunCommand::Abort { run_id: Some(f.clone()) },
            None => RunCommand::Abort { run_id: None },
        }
    }
}

/// A run fact, as far as speaking it goes.
#[derive(Debug, Clone, Copy, PartialEq, Eq, Structural)]
pub enum RunFact {
    Finished { ok: bool },
    Transmission,
    Other,
}

/// The spoken text for a run fact, or `None` to stay silent: a finished run is
/// "Run complete." or "Run stopped.", an open transmission is "Waiting for your
/// approval.", everything else is silent.
pub fn speakable_text(fact: RunFact) -> (r: Option<String>)
    ensures
        match fact {
            RunFact::Finished { ok: true } => r matches Some(s) && s@ == "Run complete."@,
            RunFact::Finished { ok: false } => r matches Some(s) && s@ == "Run stopped."@,
            RunFact::Transmission => r matches Some(s) && s@ == "Waiting for your approval."@,
            RunFact::Other => r is None,
        },
{
    match fact {
        RunFact::Finished { ok: true } => Some("Run complete.".to_owned()),
        RunFact::Finished { ok: false } => Some("Run stopped.".to_owned()),
        RunFact::Transmission => Some("Waiting for your approval.".to_owned()),
        RunFact::Other => None,
    }
}

} // verus!
