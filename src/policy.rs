//! The decisions of opening a store and of its background sync loop, as
//! functions from what happened to what comes next.
use crate::config::Config;
use crate::error::DbError;
use vstd::prelude::*;

verus! {

/// What happened in the course of opening a store.
#[derive(Debug, Clone, Copy, PartialEq, Eq, Structural)]
pub enum OpenEvent {
    /// Opening begins.
    Start,
    /// The lock on the path could not be taken.
    LockFailed,
    /// The lock on the path is held.
    LockAcquired,
    /// Reading the snapshot failed.
    ReadFailed,
    /// The snapshot was read; whether it decoded does not matter here.
    ReadDone,
    /// The durable store could not be started.
    StartFailed,
    /// The durable store runs.
    Started,
}

/// What to do next while opening a store.
#[derive(Debug, Clone, PartialEq, Eq)]
pub enum OpenStep {
    /// Use a store kept in memory only, as configured.
    InMemory,
    /// Give up on the file and use a store kept in memory, with a warning.
    FallBack(DbError),
    /// Take the lock on this path.
    AcquireLock(String),
    /// Read the snapshot under the lock.
    ReadSnapshot,
    /// Start the durable store.
    StartDurable,
    /// The durable store is open.
    Done,
    /// Opening fails with this error.
    Fail(DbError),
}

/// What a failure of kind `e` leads to under `config`.
pub open spec fn failure_step(config: Config, e: DbError) -> OpenStep {
    if config.spec_fall_back() {
        OpenStep::FallBack(e)
    } else {
        OpenStep::Fail(e)
    }
}

/// Whether `r` is the step that follows `event` under `config`.
pub open spec fn is_next_open_step(config: Config, event: OpenEvent, r: OpenStep) -> bool {
    match event {
        OpenEvent::Start => if config.spec_in_memory() {
            r == OpenStep::InMemory
        } else {
            match config.spec_path() {
                Some(p) => r matches OpenStep::AcquireLock(q) && q@ == p,
                None => r == OpenStep::Fail(DbError::MissingPathConfig),
            }
        },
        OpenEvent::LockFailed => r == failure_step(config, DbError::LockAcquisitionFailed),
        OpenEvent::LockAcquired => r == OpenStep::ReadSnapshot,
        OpenEvent::ReadFailed => r == failure_step(config, DbError::IoFailure),
        OpenEvent::ReadDone => r == OpenStep::StartDurable,
        OpenEvent::StartFailed => r == failure_step(config, DbError::ThreadSpawnFailure),
        OpenEvent::Started => r == OpenStep::Done,
    }
}

fn on_failure(config: &Config, e: DbError) -> (r: OpenStep)
    ensures
        r == failure_step(*config, e),
{
    if config.fall_back_in_memory() {
        OpenStep::FallBack(e)
    } else {
        OpenStep::Fail(e)
    }
}

/// The step that follows `event` while opening a store under `config`.
pub fn next_open_step(config: &Config, event: OpenEvent) -> (r: OpenStep)
    ensures
        is_next_open_step(*config, event, r),
{
    match event {
        OpenEvent::Start => {
            if config.in_memory() {
                OpenStep::InMemory
            } else {
                match config.path() {
                    Some(p) => OpenStep::AcquireLock(p),
                    None => OpenStep::Fail(DbError::MissingPathConfig),
                }
            }
        },
        OpenEvent::LockFailed => on_failure(config, DbError::LockAcquisitionFailed),
        OpenEvent::LockAcquired => OpenStep::ReadSnapshot,
        OpenEvent::ReadFailed => on_failure(config, DbError::IoFailure),
        OpenEvent::ReadDone => OpenStep::StartDurable,
        OpenEvent::StartFailed => on_failure(config, DbError::ThreadSpawnFailure),
        OpenEvent::Started => OpenStep::Done,
    }
}

/// What the background sync loop does after it wakes.
#[derive(Debug, Clone, Copy, PartialEq, Eq, Structural)]
pub enum SyncStep {
    /// Write a snapshot and sleep again; a failure is reported and the loop
    /// goes on.
    Flush,
    /// Write a last snapshot and stop.
    FinalFlush,
}

/// The step of the sync loop once it wakes, given whether shutdown was asked.
pub fn next_sync_step(shutdown_requested: bool) -> (r: SyncStep)
    ensures
        r == (if shutdown_requested { SyncStep::FinalFlush } else { SyncStep::Flush }),
{
    if shutdown_requested {
        SyncStep::FinalFlush
    } else {
        SyncStep::Flush
    }
}

} // verus!
