//! Deterministic orchestration: the decisions of a loop that runs, verifies and
//! merges tasks, made from plain values and proved.
//!
//! Each module holds one kind of decision. Reading files, asking git or other
//! programs, and the clock are the caller's; what is read comes in as values,
//! and what is to be done goes out as values.

pub mod adversarial;
pub mod ci;
pub mod circuit;
pub mod claim;
pub mod commands;
pub mod consensus;
pub mod diffrisk_record;
pub mod editgate;
pub mod escalate;
pub mod gate_exec;
pub mod gatelog;
pub mod json;
pub mod learning_signal;
pub mod lessons;
pub mod lock;
pub mod maintree;
pub mod model;
pub mod oracle;
pub mod policy;
pub mod pr;
pub mod progress;
pub mod records;
pub mod run_state;
pub mod state;
pub mod stats;
pub mod text;
pub mod verdict;
