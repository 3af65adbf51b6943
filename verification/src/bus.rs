//! The event-bus contracts: namespaced commands and events, participant
//! identity, plugin manifests, and the bus's own rules — which subscription
//! sees which envelope, and the per-stream sequence numbers it stamps.
use vstd::prelude::*;
use crate::text::{chars_of, find, find_seq, slice, starts_with, starts_with_seq, str_eq, string_of};

verus! {

/// The stability tier of a contract type; new types start `Experimental`.
#[derive(Debug, Clone, Copy, PartialEq, Eq, Structural)]
pub enum StabilityTier {
    Stable,
    Experimental,
    Internal,
}

impl Default for StabilityTier {
    fn default() -> (r: Self)
        ensures
            r == StabilityTier::Experimental,
    {
        StabilityTier::Experimental
    }
}

/// Per-type contract metadata: the schema-version id and the stability tier.
pub trait Contract {
    /// Schema-version id, e.g. `envelope.v1`.
    fn schema() -> &'static str;
    /// Stability tier governing the additive-only rule.
    fn tier() -> StabilityTier;
}

/// The catalog file stem of a schema-version id: the part before the first `.`.
pub open spec fn schema_name_spec(schema: Seq<char>) -> Seq<char> {
    match find_seq(schema, "."@) {
        Some(i) => schema.take(i),
        None => schema,
    }
}

/// The catalog file stem of a schema-version id.
pub fn schema_name(schema: &str) -> (r: String)
    ensures
        r@ == schema_name_spec(schema@),
{
    let s = chars_of(schema);
    let dot = chars_of(".");
    match find(&s, &dot) {
        Some(i) => {
            let head = slice(&s, 0, i);
            assert(head@ == s@.take(i as int));
            string_of(&head)
        },
        None => schema.to_owned(),
    }
}

// ---- commands -------------------------------------------------------------------

/// Run-namespace intents.
#[derive(Debug, Clone, PartialEq, Eq)]
pub enum RunCommand {
    /// `run.start`: begin a run for a goal.
    Start { goal: String },
    /// `run.steer`: inject a steering instruction into a live run.
    Steer { run_id: String, text: String },
    /// `run.abort`: abort a run (`None` is the single live session).
    Abort { run_id: Option<String> },
}

/// Goal-namespace intents.
#[derive(Debug, Clone, PartialEq, Eq)]
pub enum GoalCommand {
    /// `goal.add`: add a goal to the backlog.
    Add { title: String },
}

/// Vault-namespace intents.
#[derive(Debug, Clone, PartialEq, Eq)]
pub enum VaultCommand {
    /// `vault.update_note`: write new contents to a note.
    UpdateNote { path: String, body: String },
}

/// Voice-namespace intents.
#[derive(Debug, Clone, PartialEq, Eq)]
pub enum VoiceCommand {
    /// `voice.speak`: synthesize speech for text.
    Speak { text: String },
}

/// UI-namespace intents.
#[derive(Debug, Clone, PartialEq, Eq)]
pub enum UiCommand {
    /// `ui.focus_surface`: move focus to a workspace surface.
    FocusSurface { surface: String },
}

// ---- events ---------------------------------------------------------------------

/// Run-namespace facts.
#[derive(Debug, Clone, PartialEq, Eq)]
pub enum RunEvent {
    /// `run.finished`: a run reached a terminal state.
    Finished { run_id: String, ok: bool },
}

/// Goal-namespace facts.
#[derive(Debug, Clone, PartialEq, Eq)]
pub enum GoalEvent {
    /// `goal.added`: a goal entered the backlog.
    Added { goal_id: String, title: String },
}

/// Vault-namespace facts.
#[derive(Debug, Clone, PartialEq, Eq)]
pub enum VaultEvent {
    /// `vault.note_updated`: a note's contents changed.
    NoteUpdated { path: String, rev: u64 },
}

/// Voice-namespace facts.
#[derive(Debug, Clone, PartialEq, Eq)]
pub enum VoiceEvent {
    /// `voice.utterance_transcribed`: speech-to-text produced text for an utterance.
    UtteranceTranscribed { text: String },
}

/// UI-namespace facts.
#[derive(Debug, Clone, PartialEq, Eq)]
pub enum UiEvent {
    /// `ui.surface_focused`: a workspace surface gained focus.
    SurfaceFocused { surface: String },
}

// ---- envelopes and participants ---------------------------------------------------

/// An RFC 3339 timestamp, carried as a string.
#[derive(Debug, Clone, PartialEq, Eq)]
pub struct Timestamp(pub String);

/// The ordering scope of an event.
#[derive(Debug, Clone, PartialEq, Eq)]
pub enum StreamId {
    Run(String),
    Agent(String),
    Workspace(String),
}

impl StreamId {
    /// The stream's kind and inner id.
    pub open spec fn key(&self) -> (int, Seq<char>) {
        match self {
            StreamId::Run(v) => (0, v@),
            StreamId::Agent(v) => (1, v@),
            StreamId::Workspace(v) => (2, v@),
        }
    }

    /// The inner id of the stream.
    pub fn value(&self) -> (r: &String)
        ensures
            r@ == self.key().1,
    {
        match self {
            StreamId::Run(v) | StreamId::Agent(v) | StreamId::Workspace(v) => v,
        }
    }

    /// A copy naming the same stream.
    pub fn copy(&self) -> (r: StreamId)
        ensures
            r.key() == self.key(),
    {
        match self {
            StreamId::Run(v) => StreamId::Run(v.clone()),
            StreamId::Agent(v) => StreamId::Agent(v.clone()),
            StreamId::Workspace(v) => StreamId::Workspace(v.clone()),
        }
    }

    /// Whether two stream ids name the same stream.
    pub fn same_stream(&self, other: &StreamId) -> (r: bool)
        ensures
            r == (self.key() == other.key()),
    {
        match (self, other) {
            (StreamId::Run(a), StreamId::Run(b)) => *a == *b,
            (StreamId::Agent(a), StreamId::Agent(b)) => *a == *b,
            (StreamId::Workspace(a), StreamId::Workspace(b)) => *a == *b,
            _ => false,
        }
    }
}

/// The multi-tenant filter seam: a user and a workspace.
#[derive(Debug, Clone, PartialEq, Eq)]
pub struct Scope {
    pub user: String,
    pub workspace: String,
}

/// A peer identity in its canonical string form.
#[derive(Debug, Clone, PartialEq, Eq)]
pub struct NodeId(pub String);

/// The kind of participant.
#[derive(Debug, Clone, Copy, PartialEq, Eq, Structural)]
pub enum ParticipantKind {
    GoalLoop,
    Agent,
    Connector,
    Scheduler,
    Ui,
    System,
}

/// A topic or namespace, with an optional filter.
#[derive(Debug, Clone, PartialEq, Eq)]
pub struct Subscription {
    pub topic: String,
    pub filter: Option<String>,
}

/// The error a participant's lifecycle returns.
#[derive(Debug, Clone, PartialEq, Eq)]
pub enum AgentError {
    Other(String),
}

/// Why a subscriber did not receive an envelope.
#[derive(Debug, Clone, Copy, PartialEq, Eq, Structural)]
pub enum RecvError {
    /// The consumer fell behind; this many envelopes were dropped.
    Lagged(u64),
    /// The bus is gone.
    Closed,
}

/// Why command intake refused a command.
#[derive(Debug, Clone, PartialEq, Eq)]
pub enum DispatchError {
    /// The command failed schema validation.
    Invalid(String),
    /// The authorizer denied the command.
    Denied(String),
    /// The bounded command intake is full.
    Backpressure,
    /// No consumer drains the command intake.
    NoConsumer,
}

/// The default authorization policy: every command is accepted.
#[derive(Debug, Clone, Copy, PartialEq, Eq)]
pub struct AllowAll;

// ---- plugin manifests -------------------------------------------------------------

/// The namespaces a plugin may emit or subscribe to.
#[derive(Debug, Clone, Copy, PartialEq, Eq, Structural)]
pub enum Namespace {
    Run,
    Goal,
    Vault,
    Voice,
    Ui,
    Ext,
}

/// The closed capability vocabulary a plugin may request.
#[derive(Debug, Clone, Copy, PartialEq, Eq, Structural)]
pub enum Capability {
    Network,
    ProcessSpawn,
    VaultRead,
    VaultWrite,
    FsRead,
    FsWrite,
    SecretsRead,
}

impl Capability {
    /// The capability's wire name.
    pub open spec fn wire_name_spec(&self) -> Seq<char> {
        match self {
            Capability::Network => "network"@,
            Capability::ProcessSpawn => "process.spawn"@,
            Capability::VaultRead => "vault.read"@,
            Capability::VaultWrite => "vault.write"@,
            Capability::FsRead => "fs.read"@,
            Capability::FsWrite => "fs.write"@,
            Capability::SecretsRead => "secrets.read"@,
        }
    }

    /// The capability's wire name.
    pub fn wire_name(&self) -> (r: &'static str)
        ensures
            r@ == self.wire_name_spec(),
    {
        match self {
            Capability::Network => "network",
            Capability::ProcessSpawn => "process.spawn",
            Capability::VaultRead => "vault.read",
            Capability::VaultWrite => "vault.write",
            Capability::FsRead => "fs.read",
            Capability::FsWrite => "fs.write",
            Capability::SecretsRead => "secrets.read",
        }
    }
}

/// A reference to a JSON Schema a plugin registers.
#[derive(Debug, Clone, PartialEq, Eq)]
pub struct SchemaRef {
    pub name: String,
    pub version: u32,
}

/// What a plugin provides, emits, subscribes to, registers and requests.
#[derive(Debug, Clone, PartialEq, Eq)]
pub struct PluginManifest {
    pub participants_provided: Vec<String>,
    pub emits: Vec<Namespace>,
    pub subscribes: Vec<Namespace>,
    pub registered_schemas: Vec<SchemaRef>,
    pub capabilities: Vec<Capability>,
    pub stability: StabilityTier,
}

// ---- subscription matching ---------------------------------------------------------

/// What an envelope's payload is, for matching: a core namespace, or an
/// extension fact in a plugin namespace with a name.
#[derive(Debug, Clone, PartialEq, Eq)]
pub enum PayloadKind {
    Core(Namespace),
    Ext { ns: String, name: String },
}

/// The topic of a core namespace.
pub open spec fn namespace_topic(ns: Namespace) -> Seq<char> {
    match ns {
        Namespace::Run => "run"@,
        Namespace::Goal => "goal"@,
        Namespace::Vault => "vault"@,
        Namespace::Voice => "voice"@,
        Namespace::Ui => "ui"@,
        Namespace::Ext => "ext"@,
    }
}

/// An ext filter matches a name when absent, `*`, or equal to it.
pub open spec fn filter_name_spec(filter: Option<String>, name: Seq<char>) -> bool {
    match filter {
        None => true,
        Some(f) => f@ == "*"@ || f@ == name,
    }
}

/// Whether a subscription sees an envelope on `stream` with this payload:
/// `*` sees everything; `stream` sees the stream whose id equals the filter;
/// `ext.<ns>` sees extension facts of that namespace whose name passes the
/// filter; any other topic sees the core namespace of that name.
pub open spec fn matches_spec(sub: Subscription, stream: StreamId, kind: PayloadKind) -> bool {
    let topic = sub.topic@;
    if topic == "*"@ {
        true
    } else if topic == "stream"@ {
        sub.filter matches Some(f) && f@ == stream.key().1
    } else if starts_with_seq(topic, "ext."@) {
        match kind {
            PayloadKind::Ext { ns, name } => ns@ == topic.skip(4) && filter_name_spec(
                sub.filter,
                name@,
            ),
            PayloadKind::Core(_) => false,
        }
    } else {
        match kind {
            PayloadKind::Core(ns) => topic == namespace_topic(ns),
            PayloadKind::Ext { .. } => topic == "ext"@,
        }
    }
}

fn namespace_topic_exec(ns: Namespace) -> (r: &'static str)
    ensures
        r@ == namespace_topic(ns),
{
    match ns {
        Namespace::Run => "run",
        Namespace::Goal => "goal",
        Namespace::Vault => "vault",
        Namespace::Voice => "voice",
        Namespace::Ui => "ui",
        Namespace::Ext => "ext",
    }
}

/// Whether a subscription sees an envelope (see `matches_spec`).
pub fn subscription_matches(sub: &Subscription, stream: &StreamId, kind: &PayloadKind) -> (r: bool)
    ensures
        r == matches_spec(*sub, *stream, *kind),
{
    let topic = sub.topic.as_str();
    if str_eq(topic, "*") {
        return true;
    }
    if str_eq(topic, "stream") {
        return match &sub.filter {
            Some(f) => *f == *stream.value(),
            None => false,
        };
    }
    let t = chars_of(topic);
    let prefix = chars_of("ext.");
    proof {
        reveal_strlit("ext.");
    }
    if starts_with(&t, &prefix) {
        let rest = slice(&t, 4, t.len());
        assert(rest@ == topic@.skip(4));
        return match kind {
            PayloadKind::Ext { ns, name } => {
                let ns_ok = str_eq(ns.as_str(), string_of(&rest).as_str());
                let name_ok = match &sub.filter {
                    None => true,
                    Some(f) => str_eq(f.as_str(), "*") || *f == *name,
                };
                ns_ok && name_ok
            },
            PayloadKind::Core(_) => false,
        };
    }
    match kind {
        PayloadKind::Core(ns) => str_eq(topic, namespace_topic_exec(*ns)),
        PayloadKind::Ext { .. } => str_eq(topic, "ext"),
    }
}

// ---- per-stream sequence numbers ------------------------------------------------------

/// The next sequence number of each stream seen so far.
pub struct StreamSeqs {
    pub next: Vec<(StreamId, u64)>,
}

impl StreamSeqs {
    /// No two entries are for the same stream.
    pub open spec fn wf(&self) -> bool {
        forall|i: int, j: int|
            0 <= i < j < self.next@.len() ==> (#[trigger] self.next@[i]).0.key() != (
            #[trigger] self.next@[j]).0.key()
    }

    /// The next sequence number of a stream: 0 for a stream not seen yet.
    pub open spec fn next_of(&self, key: (int, Seq<char>)) -> u64 {
        if exists|i: int| 0 <= i < self.next@.len() && (#[trigger] self.next@[i]).0.key() == key {
            self.next@[choose|i: int|
                0 <= i < self.next@.len() && (#[trigger] self.next@[i]).0.key() == key].1
        } else {
            0
        }
    }

    pub fn new() -> (r: Self)
        ensures
            r.wf(),
            forall|key: (int, Seq<char>)| r.next_of(key) == 0,
    {
        StreamSeqs { next: Vec::new() }
    }

    /// Stamps the next sequence number of `stream` (0-based, one more than the
    /// last one stamped on it) and advances it; other streams are unaffected.
    pub fn stamp(&mut self, stream: &StreamId) -> (seq: u64)
        requires
            old(self).wf(),
            old(self).next_of(stream.key()) < u64::MAX,
        ensures
            final(self).wf(),
            seq == old(self).next_of(stream.key()),
            final(self).next_of(stream.key()) == seq + 1,
            forall|key: (int, Seq<char>)|
                key != stream.key() ==> final(self).next_of(key) == old(self).next_of(key),
    {
        let mut i: usize = 0;
        while i < self.next.len()
            invariant
                0 <= i <= self.next@.len(),
                self.next@ == old(self).next@,
                old(self).wf(),
                old(self).next_of(stream.key()) < u64::MAX,
                forall|k: int| 0 <= k < i ==> (#[trigger] self.next@[k]).0.key() != stream.key(),
            decreases self.next.len() - i,
        {
            if self.next[i].0.same_stream(stream) {
                let seq = self.next[i].1;
                proof {
                    assert(self.next_of(stream.key()) == seq) by {
                        let c = choose|c: int|
                            0 <= c < self.next@.len() && (#[trigger] self.next@[c]).0.key()
                                == stream.key();
                        assert(c == i);
                    }
                }
                let ghost before = self.next@;
                let sid = self.next[i].0.copy();
                self.next.set(i, (sid, seq + 1));
                proof {
                    assert forall|key: (int, Seq<char>)| key != stream.key() implies self.next_of(key)
                        == old(self).next_of(key) by {
                        if exists|c: int| 0 <= c < before.len() && (#[trigger] before[c]).0.key() == key {
                            let c = choose|c: int| 0 <= c < before.len() && (#[trigger] before[c]).0.key() == key;
                            assert(self.next@[c] == before[c]);
                            let d = choose|d: int| 0 <= d < self.next@.len() && (#[trigger] self.next@[d]).0.key() == key;
                            assert(d == c);
                        } else {
                            assert forall|d: int| 0 <= d < self.next@.len() implies (#[trigger] self.next@[d]).0.key() != key by {
                                if d != i {
                                    assert(self.next@[d] == before[d]);
                                }
                            }
                        }
                    }
                    assert(self.next_of(stream.key()) == seq + 1) by {
                        let d = choose|d: int| 0 <= d < self.next@.len() && (#[trigger] self.next@[d]).0.key() == stream.key();
                        assert(self.next@[i as int].0.key() == stream.key());
                        assert(d == i);
                    }
                }
                return seq;
            }
            i = i + 1;
        }
        let ghost before = self.next@;
        self.next.push((stream.copy(), 1));
        proof {
            assert(self.next@[before.len() as int].0.key() == stream.key());
            assert forall|key: (int, Seq<char>)| key != stream.key() implies self.next_of(key)
                == old(self).next_of(key) by {
                if exists|c: int| 0 <= c < before.len() && (#[trigger] before[c]).0.key() == key {
                    let c = choose|c: int| 0 <= c < before.len() && (#[trigger] before[c]).0.key() == key;
                    assert(self.next@[c] == before[c]);
                    let d = choose|d: int| 0 <= d < self.next@.len() && (#[trigger] self.next@[d]).0.key() == key;
                    assert(d == c);
                } else {
                    assert forall|d: int| 0 <= d < self.next@.len() implies (#[trigger] self.next@[d]).0.key() != key by {
                        if d < before.len() {
                            assert(self.next@[d] == before[d]);
                        }
                    }
                }
            }
            assert(self.next_of(stream.key()) == 1) by {
                let d = choose|d: int| 0 <= d < self.next@.len() && (#[trigger] self.next@[d]).0.key() == stream.key();
                assert(d == before.len());
            }
        }
        0
    }
}

} // verus!
