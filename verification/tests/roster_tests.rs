use wagner_host::events::Faction;
use wagner_host::roster::{Agent, Engine, Roster, RosterError};

fn agent(id: &str, engine: Engine) -> Agent {
    Agent {
        id: id.into(),
        name: id.into(),
        role: "x".into(),
        engine,
        skill_prompt: None,
        identity_ref: None,
    }
}

#[test]
fn default_roster_is_valid_with_a_lead_and_a_forger() {
    let r = Roster::default_roster();
    r.validate().expect("default roster must validate");
    assert!(r.agents.iter().any(|a| a.engine == Engine::Architect));
    assert!(r.agents.iter().any(|a| a.engine == Engine::Codex));
    assert_eq!(r.lead().unwrap().engine, Engine::Architect);
}

#[test]
fn empty_roster_is_rejected() {
    assert_eq!(Roster { agents: vec![] }.validate(), Err(RosterError::Empty));
}

#[test]
fn duplicate_ids_are_rejected() {
    let r = Roster { agents: vec![agent("a", Engine::Architect), agent("a", Engine::Codex)] };
    assert_eq!(r.validate(), Err(RosterError::DuplicateId("a".into())));
}

#[test]
fn a_roster_with_no_architect_cannot_lead() {
    let r = Roster { agents: vec![agent("only", Engine::Codex)] };
    assert_eq!(r.validate(), Err(RosterError::NoLead));
}

#[test]
fn lookup_and_ids() {
    let r = Roster::default_roster();
    assert_eq!(r.get("vex").unwrap().engine, Engine::Codex);
    assert!(r.get("nobody").is_none());
    assert_eq!(r.ids(), vec!["cipher".to_string(), "vex".to_string()]);
}

#[test]
fn engine_maps_to_faction() {
    assert_eq!(Engine::Architect.faction(), Faction::Architects);
    assert_eq!(Engine::Codex.faction(), Faction::Forgers);
    assert!(Engine::Architect.can_lead());
    assert!(!Engine::Codex.can_lead());
}

#[test]
fn endpoint_engine_is_a_forger_that_cannot_lead() {
    let e = Engine::Endpoint {
        base_url: "http://localhost:11434/v1".into(),
        model: "qwen2.5-coder".into(),
    };
    assert_eq!(e.faction(), Faction::Forgers);
    assert!(!e.can_lead(), "local models execute, never plan/judge");
}

#[test]
fn a_roster_of_only_endpoints_cannot_lead() {
    let r = Roster {
        agents: vec![agent(
            "local",
            Engine::Endpoint { base_url: "http://localhost:11434/v1".into(), model: "m".into() },
        )],
    };
    assert_eq!(r.validate(), Err(RosterError::NoLead));
}

#[test]
fn the_first_repeated_id_is_the_one_reported() {
    let r = Roster {
        agents: vec![
            agent("a", Engine::Architect),
            agent("b", Engine::Codex),
            agent("b", Engine::Codex),
            agent("a", Engine::Codex),
        ],
    };
    assert_eq!(r.validate(), Err(RosterError::DuplicateId("b".into())));
}

#[test]
fn the_lead_is_the_first_architect_agent() {
    let r = Roster {
        agents: vec![agent("f", Engine::Codex), agent("l1", Engine::Architect), agent("l2", Engine::Architect)],
    };
    assert_eq!(r.lead().unwrap().id, "l1");
}
