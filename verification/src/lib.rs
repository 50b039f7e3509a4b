//! Verified core of the Tiber repository-local task board: the event-sourced
//! ticket board, the discovery workflow projection, the shared CI-recovery
//! incident state machine, and the text rules used to validate inputs and
//! recognise task-closing automation.
pub mod automation;
pub mod calendar;
pub mod board;
pub mod board_validation;
pub mod ci_commands;
pub mod ci_input;
pub mod ci_laws;
pub mod ci_recovery;
pub mod ci_state;
pub mod ci_types;
pub mod cli;
pub mod completion_checks;
pub mod final_review;
pub mod fingerprint;
pub mod git_output;
pub mod graph;
pub mod lock_file;
pub mod order;
pub mod project_config;
pub mod refs;
pub mod retry;
pub mod review_input;
pub mod scaffold;
pub mod status_table;
pub mod review_scope;
pub mod table;
pub mod task_closing;
pub mod task_commands;
pub mod task_creation;
pub mod task_details;
pub mod task_ids;
pub mod task_lifecycle;
pub mod task_links;
pub mod task_projection;
pub mod task_refs;
pub mod task_search;
pub mod task_text;
pub mod text;
pub mod tickets;
pub mod workflow;
pub mod worktree_scope;
