//! The errors of opening and persisting a store.
use vstd::prelude::*;

verus! {

/// Why a store could not be opened or its file written.
#[derive(Debug, Clone, Copy, PartialEq, Eq, Structural)]
pub enum DbError {
    /// A durable store was asked for without a path.
    MissingPathConfig,
    /// Another live handle holds the lock on the path.
    LockAcquisitionFailed,
    /// Reading or writing the snapshot file failed.
    IoFailure,
    /// The background sync thread could not be started.
    ThreadSpawnFailure,
}

impl DbError {
    /// A short description of the error.
    pub fn message(&self) -> (r: &'static str) {
        match self {
            DbError::MissingPathConfig => "not in memory but path empty",
            DbError::LockAcquisitionFailed => "could not acquire the lock on the db file",
            DbError::IoFailure => "could not read or write the db file",
            DbError::ThreadSpawnFailure => "could not start the sync thread",
        }
    }
}

} // verus!
