//! Choice of the frame synchronisation backend.
use vstd::prelude::*;

use crate::barrier::BarrierError;

verus! {

/// Which synchronisation backend the configuration asks for.
#[derive(Debug, Clone, Copy, PartialEq, Eq, Structural)]
pub enum SyncBackends {
    /// Use the collective backend where it is available, else run unsynchronised.
    Auto,
    /// Require the collective barrier backend.
    Mpi,
}

/// The backend that synchronises frames through a collective barrier of
/// the process group.
#[derive(Debug, Clone, Copy, PartialEq, Eq, Structural)]
pub struct MpiSync;

/// The rank of this process and the size of its group.
#[derive(Debug, Clone, Copy, PartialEq, Eq, Structural)]
pub struct MpiMeta {
    pub rank: i32,
    pub size: i32,
}

/// The plugin that joins a process to the collective environment.
#[derive(Debug, Clone, Copy, PartialEq, Eq, Structural)]
pub struct MpiPlugin;

/// How this process holds the collective environment.
#[derive(Debug, Clone, Copy, PartialEq, Eq, Structural)]
pub enum Attachment {
    /// This process initialised the environment and finalises it at exit.
    Owned,
    /// Someone else initialised it; this process only uses it.
    Attached,
}

pub open spec fn sync_choice(sync: SyncBackends, available: bool) -> Result<
    Option<MpiSync>,
    BarrierError,
> {
    if available {
        Ok(Some(MpiSync))
    } else {
        match sync {
            SyncBackends::Auto => Ok(None),
            SyncBackends::Mpi => Err(BarrierError::EnvironmentUnavailable),
        }
    }
}

/// Picks the backend for `sync`, given whether the collective environment
/// can be had: `Auto` falls back to no backend, an explicit request fails.
pub fn choose_sync(sync: SyncBackends, available: bool) -> (r: Result<Option<MpiSync>, BarrierError>)
    ensures
        r == sync_choice(sync, available),
{
    if available {
        Ok(Some(MpiSync))
    } else {
        match sync {
            SyncBackends::Auto => Ok(None),
            SyncBackends::Mpi => Err(BarrierError::EnvironmentUnavailable),
        }
    }
}

/// An environment that was already initialised is attached to, not an
/// error.
pub fn attachment(initialized_here: bool) -> (r: Attachment)
    ensures
        r == (if initialized_here {
            Attachment::Owned
        } else {
            Attachment::Attached
        }),
{
    if initialized_here {
        Attachment::Owned
    } else {
        Attachment::Attached
    }
}

} // verus!
