//! The hired-agent roster: named agents, each bound to an execution engine.
//! The lead (the first agent whose engine can plan and judge) runs the plan and
//! judge passes; every agent can be assigned subtasks by id.
use vstd::prelude::*;
use crate::events::Faction;
use crate::text::str_eq;

verus! {

/// The execution backend an agent runs on.
#[derive(Debug, Clone, PartialEq, Eq)]
pub enum Engine {
    /// The architect CLI: plans, judges and executes under the engineer's session.
    Architect,
    Codex,
    /// An OpenAI-compatible chat endpoint: `POST {base_url}/chat/completions`.
    Endpoint { base_url: String, model: String },
}

impl Engine {
    /// Architect agents are Architects; Codex and endpoint agents are Forgers.
    pub open spec fn faction_spec(&self) -> Faction {
        match self {
            Engine::Architect => Faction::Architects,
            _ => Faction::Forgers,
        }
    }

    /// Planning and judging are for the architect engine only; other engines only execute.
    pub open spec fn can_lead_spec(&self) -> bool {
        self is Architect
    }

    /// The floor faction an engine maps to.
    pub fn faction(&self) -> (f: Faction)
        ensures
            f == self.faction_spec(),
    {
        match self {
            Engine::Architect => Faction::Architects,
            Engine::Codex | Engine::Endpoint { .. } => Faction::Forgers,
        }
    }

    /// Whether this engine can run the plan and judge passes.
    pub fn can_lead(&self) -> (b: bool)
        ensures
            b == self.can_lead_spec(),
    {
        matches!(self, Engine::Architect)
    }
}

/// One hired agent.
#[derive(Debug, Clone, PartialEq)]
pub struct Agent {
    /// Stable, unique handle the planner assigns work to.
    pub id: String,
    /// Display name shown on the floor.
    pub name: String,
    /// Free-text role.
    pub role: String,
    pub engine: Engine,
    /// Standing instructions prepended to every prompt this agent is given.
    pub skill_prompt: Option<String>,
    /// The catalog identity this agent was seeded from, if any.
    pub identity_ref: Option<String>,
}

/// The deployed roster for a run.
#[derive(Debug, Clone, PartialEq)]
pub struct Roster {
    pub agents: Vec<Agent>,
}

/// Why a roster is unusable.
#[derive(Debug, Clone, PartialEq, Eq)]
pub enum RosterError {
    Empty,
    DuplicateId(String),
    NoLead,
}

/// Agent `j` repeats the id of an earlier agent.
pub open spec fn repeats_earlier_id(agents: Seq<Agent>, j: int) -> bool {
    exists|i: int| 0 <= i < j && (#[trigger] agents[i].id@) == agents[j].id@
}

/// No agent among the first `n` repeats an earlier id.
pub open spec fn ids_distinct_upto(agents: Seq<Agent>, n: int) -> bool {
    forall|j: int| 0 <= j < n ==> !repeats_earlier_id(agents, j)
}

/// Some agent can lead.
pub open spec fn has_lead(agents: Seq<Agent>) -> bool {
    exists|i: int| 0 <= i < agents.len() && (#[trigger] agents[i].engine).can_lead_spec()
}

/// Index `i` is the first agent that can lead.
pub open spec fn is_first_lead(agents: Seq<Agent>, i: int) -> bool {
    &&& 0 <= i < agents.len()
    &&& agents[i].engine.can_lead_spec()
    &&& forall|k: int| 0 <= k < i ==> !(#[trigger] agents[k].engine).can_lead_spec()
}

/// Index `i` is the first agent with id `id`.
pub open spec fn is_first_with_id(agents: Seq<Agent>, id: Seq<char>, i: int) -> bool {
    &&& 0 <= i < agents.len()
    &&& agents[i].id@ == id
    &&& forall|k: int| 0 <= k < i ==> (#[trigger] agents[k].id@) != id
}

impl Roster {
    /// Checks the roster: non-empty, unique ids (the first repeated id is
    /// reported), and at least one agent that can lead.
    pub fn validate(&self) -> (r: Result<(), RosterError>)
        ensures
            (r is Err && r->Err_0 == RosterError::Empty) <==> self.agents@.len() == 0,
            r matches Err(RosterError::DuplicateId(id)) ==> exists|j: int|
                0 <= j < self.agents@.len() && ids_distinct_upto(self.agents@, j)
                    && repeats_earlier_id(self.agents@, j) && id@ == #[trigger] self.agents@[j].id@,
            (self.agents@.len() > 0 && !ids_distinct_upto(self.agents@, self.agents@.len() as int))
                ==> r matches Err(RosterError::DuplicateId(_)),
            (r is Err && r->Err_0 == RosterError::NoLead) <==> (self.agents@.len() > 0
                && ids_distinct_upto(self.agents@, self.agents@.len() as int) && !has_lead(
                self.agents@,
            )),
            r is Ok <==> (self.agents@.len() > 0 && ids_distinct_upto(
                self.agents@,
                self.agents@.len() as int,
            ) && has_lead(self.agents@)),
    {
        let n = self.agents.len();
        if n == 0 {
            return Err(RosterError::Empty);
        }
        let mut j: usize = 0;
        while j < n
            invariant
                n == self.agents@.len(),
                0 <= j <= n,
                ids_distinct_upto(self.agents@, j as int),
            decreases n - j,
        {
            let mut i: usize = 0;
            while i < j
                invariant
                    n == self.agents@.len(),
                    0 <= i <= j < n,
                    ids_distinct_upto(self.agents@, j as int),
                    forall|k: int| 0 <= k < i ==> (#[trigger] self.agents@[k].id@) != self.agents@[j as int].id@,
                decreases j - i,
            {
                if self.agents[i].id == self.agents[j].id {
                    assert(repeats_earlier_id(self.agents@, j as int));
                    return Err(RosterError::DuplicateId(self.agents[j].id.clone()));
                }
                i = i + 1;
            }
            assert(!repeats_earlier_id(self.agents@, j as int));
            assert forall|jj: int| 0 <= jj < j + 1 implies !repeats_earlier_id(self.agents@, jj) by {
                if jj < j {
                    assert(ids_distinct_upto(self.agents@, j as int));
                }
            }
            j = j + 1;
        }
        let mut k: usize = 0;
        while k < n
            invariant
                n == self.agents@.len(),
                0 <= k <= n,
                ids_distinct_upto(self.agents@, n as int),
                forall|m: int| 0 <= m < k ==> !(#[trigger] self.agents@[m].engine).can_lead_spec(),
            decreases n - k,
        {
            if self.agents[k].engine.can_lead() {
                return Ok(());
            }
            k = k + 1;
        }
        Err(RosterError::NoLead)
    }

    /// The first agent with the given id.
    pub fn get(&self, id: &str) -> (r: Option<&Agent>)
        ensures
            r is None <==> forall|k: int| 0 <= k < self.agents@.len() ==> (#[trigger] self.agents@[k].id@) != id@,
            r matches Some(a) ==> exists|i: int| is_first_with_id(self.agents@, id@, i) && *a == self.agents@[i],
    {
        let mut i: usize = 0;
        while i < self.agents.len()
            invariant
                0 <= i <= self.agents@.len(),
                forall|k: int| 0 <= k < i ==> (#[trigger] self.agents@[k].id@) != id@,
            decreases self.agents.len() - i,
        {
            if str_eq(self.agents[i].id.as_str(), id) {
                assert(is_first_with_id(self.agents@, id@, i as int));
                return Some(&self.agents[i]);
            }
            i = i + 1;
        }
        None
    }

    /// The ids of all agents, in roster order.
    pub fn ids(&self) -> (r: Vec<String>)
        ensures
            r@.len() == self.agents@.len(),
            forall|k: int| 0 <= k < r@.len() ==> (#[trigger] r@[k])@ == self.agents@[k].id@,
    {
        let mut r: Vec<String> = Vec::new();
        let mut i: usize = 0;
        while i < self.agents.len()
            invariant
                0 <= i <= self.agents@.len(),
                r@.len() == i,
                forall|k: int| 0 <= k < i ==> (#[trigger] r@[k])@ == self.agents@[k].id@,
            decreases self.agents.len() - i,
        {
            r.push(self.agents[i].id.clone());
            i = i + 1;
        }
        r
    }

    /// The agent that runs the plan and judge passes: the first that can lead.
    pub fn lead(&self) -> (r: Option<&Agent>)
        ensures
            r is None <==> !has_lead(self.agents@),
            r matches Some(a) ==> exists|i: int| is_first_lead(self.agents@, i) && *a == self.agents@[i],
    {
        let mut i: usize = 0;
        while i < self.agents.len()
            invariant
                0 <= i <= self.agents@.len(),
                forall|k: int| 0 <= k < i ==> !(#[trigger] self.agents@[k].engine).can_lead_spec(),
            decreases self.agents.len() - i,
        {
            if self.agents[i].engine.can_lead() {
                assert(is_first_lead(self.agents@, i as int));
                return Some(&self.agents[i]);
            }
            i = i + 1;
        }
        None
    }

    /// The starter roster: an architect ("cipher") and a Codex forger ("vex").
    pub fn default_roster() -> (r: Roster)
        ensures
            r.agents@.len() == 2,
            r.agents@[0].id@ == "cipher"@,
            r.agents@[0].name@ == "Cipher"@,
            r.agents@[0].role@ == "Architect \u{2014} planning, tests, judgement"@,
            r.agents@[0].engine is Architect,
            r.agents@[0].skill_prompt is None,
            r.agents@[0].identity_ref is None,
            r.agents@[1].id@ == "vex"@,
            r.agents@[1].name@ == "Vex"@,
            r.agents@[1].role@ == "Forger \u{2014} scoped implementation"@,
            r.agents@[1].engine is Codex,
            r.agents@[1].skill_prompt is None,
            r.agents@[1].identity_ref is None,
    {
        let mut agents: Vec<Agent> = Vec::new();
        agents.push(
            Agent {
                id: "cipher".to_owned(),
                name: "Cipher".to_owned(),
                role: "Architect \u{2014} planning, tests, judgement".to_owned(),
                engine: Engine::Architect,
                skill_prompt: None,
                identity_ref: None,
            },
        );
        agents.push(
            Agent {
                id: "vex".to_owned(),
                name: "Vex".to_owned(),
                role: "Forger \u{2014} scoped implementation".to_owned(),
                engine: Engine::Codex,
                skill_prompt: None,
                identity_ref: None,
            },
        );
        Roster { agents }
    }
}

/// The starter roster is valid, and its lead is the architect.
pub proof fn lemma_default_roster_is_valid(r: Roster)
    requires
        r.agents@.len() == 2,
        r.agents@[0].id@ == "cipher"@,
        r.agents@[0].engine is Architect,
        r.agents@[1].id@ == "vex"@,
        r.agents@[1].engine is Codex,
    ensures
        ids_distinct_upto(r.agents@, 2),
        has_lead(r.agents@),
        is_first_lead(r.agents@, 0),
{
    reveal_strlit("cipher");
    reveal_strlit("vex");
    assert(r.agents@[0].id@[0] != r.agents@[1].id@[0]);
    assert(r.agents@[0].engine.can_lead_spec());
    assert forall|j: int| 0 <= j < 2 implies !repeats_earlier_id(r.agents@, j) by {
        if j == 1 {
            assert(r.agents@[0].id@ != r.agents@[1].id@);
        }
    }
}

} // verus!
