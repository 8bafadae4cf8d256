//! Durable, sandboxed, auditable execution of multi-step agent work.

pub mod text;
pub mod number;
pub mod json;
pub mod members;
pub mod run;
pub mod store;
pub mod history;
pub mod path;
pub mod sandbox;
pub mod containment;
pub mod audit;
pub mod evidence;
pub mod gate;
pub mod plan_text;
pub mod plan;
pub mod model;
pub mod exec;
pub mod session;
pub mod recovery;
pub mod replay;
pub mod agent;
pub mod planner;
pub mod repair;
pub mod faithful;
pub mod eval;
pub mod settings;
pub mod cli;
pub mod tool_command;
pub mod report;
