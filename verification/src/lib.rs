//! An in-process key-value store with per-entry time-to-live and a tagged
//! binary container for persistence.

pub mod command;
pub mod entry;
pub mod executor;
pub mod output;
pub mod persist;
pub mod repl;
pub mod store;
pub mod time;
