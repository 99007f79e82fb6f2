//! A graph-based task store with versioned persistence and snapshot undo history.

pub mod database;
pub mod database_file;
pub mod dirty_indicator;
pub mod disk_model;
pub mod errors;
pub mod filter;
pub mod graph;
pub mod keybinds;
pub mod modal;
pub mod task;
pub mod undo;
