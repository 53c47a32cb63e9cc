//! Waiting for the write lock.
use vstd::prelude::*;
use crate::error::OlmaError;

verus! {

/// While another process holds the lock, keep polling; any other failure
/// to take it ends the wait.
pub fn retries_lock(e: &OlmaError) -> (r: bool)
    ensures
        r == (*e is LockBusy),
{
    match e {
        OlmaError::LockBusy(_) => true,
        _ => false,
    }
}

} // verus!
