//! Optional synchronization of settings, history and profiles.

use vstd::prelude::*;

verus! {

/// Why a synchronization failed.
#[derive(Debug)]
pub struct SyncError {
    pub message: String,
}

/// Sync backend trait.
pub trait SyncBackend {
    /// Push local changes to the remote.
    fn push(&self, data: &[u8]) -> Result<(), SyncError>;

    /// Pull remote changes.
    fn pull(&self) -> Result<Vec<u8>, SyncError>;
}

/// Placeholder local-only "sync" that does nothing.
pub struct NoopSync;

impl SyncBackend for NoopSync {
    fn push(&self, data: &[u8]) -> (r: Result<(), SyncError>)
        ensures
            r.is_ok(),
    {
        Ok(())
    }

    fn pull(&self) -> (r: Result<Vec<u8>, SyncError>)
        ensures
            r matches Ok(v) && v@ == Seq::<u8>::empty(),
    {
        Ok(Vec::new())
    }
}

} // verus!
