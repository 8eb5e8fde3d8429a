//! Deterministic core of a code review bot.

pub mod agent_loop;
pub mod agent_loop_laws;
pub mod cli;
pub mod compaction;
pub mod compaction_laws;
pub mod conversation;
pub mod diff;
pub mod diff_laws;
pub mod gates;
pub mod gates_laws;
pub mod glob;
pub mod groups;
pub mod groups_laws;
pub mod json;
pub mod ledger;
pub mod orchestrator;
pub mod orchestrator_laws;
pub mod output;
pub mod output_laws;
pub mod packs;
pub mod paths;
pub mod paths_laws;
pub mod preview;
pub mod report_laws;
pub mod rules;
pub mod rules_laws;
pub mod sarif;
pub mod sorting;
pub mod text;
pub mod text_laws;
pub mod units;
pub mod units_laws;
