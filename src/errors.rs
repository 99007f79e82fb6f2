//! Error types of the task store.

use vstd::prelude::*;

verus! {

/// Errors of operations that are handed a task id.
#[derive(Debug, PartialEq, Eq)]
pub enum DatabaseError {
    /// No task with this id is in the database.
    UnknownTaskId(String),
}

/// Errors that can occur when loading the task database.
#[derive(Debug, PartialEq, Eq)]
pub enum DatabaseReadError {
    /// A database was loaded with an unsupported database version.
    UnknownVersion(u8),
    /// A task depends on an id that no task of the file has.
    UnresolvedDependency(String),
    /// Two tasks of the file share this id.
    DuplicateTaskId(String),
}

} // verus!
