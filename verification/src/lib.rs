//! Verified core of a local-first workspace that keeps structured project
//! state (TODOs, working history, agent instructions) in Markdown files.

pub mod text;
pub mod models;
pub mod markdown;
pub mod todos;
pub mod history;
pub mod project_state;
pub mod review_queue;
pub mod agent_instructions;
pub mod startup;
pub mod subagent_settings;
pub mod registry;
pub mod git_sync;
pub mod codex_monitor;
pub mod migration;
pub mod migration_run;
pub mod observer;
pub mod round_trip;
pub mod properties;
