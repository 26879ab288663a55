//! Watch-and-run core: gitignore-style pattern matching, change filtering,
//! and a debounce/dispatch command queue, with verified contracts.

pub mod args;
pub mod command_queue;
pub mod errors;
pub mod execution_report;
pub mod exit_code;
pub mod filter;
pub mod git;
pub mod key_input;
pub mod laws;
pub mod strutil;
pub mod term_events;
