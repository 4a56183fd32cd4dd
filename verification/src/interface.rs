//! The public configuration for connecting to the engine.

use vstd::prelude::*;

verus! {

/// Configuration for executing SQL statements: where the catalog is
/// persisted and how statements are executed.
pub struct SQLExecConfig {
    /// Path of the storage file, or `None` for in-memory use only.
    pub storage_path: Option<String>,
    /// Whether to discard any stored catalog and start empty.
    pub reinit: bool,
    /// Whether to write the catalog back after executing a batch.
    pub write_back: bool,
    /// Whether to execute statements with the parallel table manager.
    pub parallel: bool,
}

impl SQLExecConfig {
    /// The default configuration: in-memory, write-back on, sequential.
    pub fn new() -> (r: Self)
        ensures
            r.storage_path is None,
            !r.reinit,
            r.write_back,
            !r.parallel,
    {
        SQLExecConfig { storage_path: None, reinit: false, write_back: true, parallel: false }
    }

    /// Sets the storage path.
    pub fn storage_path(self, storage_path: Option<String>) -> (r: Self)
        ensures
            r == (SQLExecConfig { storage_path, ..self }),
    {
        SQLExecConfig { storage_path, ..self }
    }

    /// Sets whether to reinitialize the storage.
    pub fn reinit(self, reinit: bool) -> (r: Self)
        ensures
            r == (SQLExecConfig { reinit, ..self }),
    {
        SQLExecConfig { reinit, ..self }
    }

    /// Sets whether to write the catalog back after each batch.
    pub fn write_back(self, write_back: bool) -> (r: Self)
        ensures
            r == (SQLExecConfig { write_back, ..self }),
    {
        SQLExecConfig { write_back, ..self }
    }

    /// Sets whether to execute statements in parallel.
    pub fn parallel(self, parallel: bool) -> (r: Self)
        ensures
            r == (SQLExecConfig { parallel, ..self }),
    {
        SQLExecConfig { parallel, ..self }
    }
}

} // verus!
