use vstd::prelude::*;

pub mod judge;
pub mod text;
pub mod json_scan;
pub mod workflow;
pub mod engine;
pub mod workflow_exec;
pub mod scheduler;
pub mod transmissions;
pub mod remote;
pub mod state;
pub mod events;
pub mod tray;
pub mod guardrails;
pub mod goal_loop;
pub mod roster;
pub mod oracle;
pub mod identity;
pub mod memory;
pub mod cli;
pub mod bus;
pub mod voice;
pub mod http;
pub mod participants;
pub mod names;
pub mod registry;
pub mod json_value;
pub mod schema_refs;
pub mod schema;
pub mod signals;
