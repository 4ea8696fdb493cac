//! Where settings and tokens are kept.
use vstd::prelude::*;
use vstd::string::*;

use crate::text;

verus! {

/// Why something could not be read or kept.
#[derive(Debug)]
pub struct StorageError(pub String);

impl Clone for StorageError {
    fn clone(&self) -> (r: StorageError)
        ensures
            r.0@ == self.0@,
    {
        StorageError(self.0.clone())
    }
}

impl StorageError {
    /// The reason in words.
    pub fn text(&self) -> (r: String)
        ensures
            r@ == self.0@,
    {
        self.0.clone()
    }
}

/// What to do about a file lock.
#[derive(Debug)]
pub enum LockStep {
    /// The lock is held: go on.
    Held,
    /// Try again after this many milliseconds.
    Wait(u64),
    /// Give up.
    Failed(StorageError),
}

/// How long to wait before a lock is tried again, in milliseconds.
pub const LOCK_RETRY_MS: u64 = 50;

/// What to do after an attempt at the lock `name`, `elapsed` nanoseconds
/// after the first one, where `timeout` seconds are allowed.
pub fn lock_step(acquired: bool, elapsed: u128, timeout: u64, name: &str) -> (r: LockStep)
    ensures
        match r {
            LockStep::Held => acquired,
            LockStep::Wait(ms) => !acquired && elapsed < timeout * 1_000_000_000 && ms
                == LOCK_RETRY_MS,
            LockStep::Failed(e) => !acquired && elapsed >= timeout * 1_000_000_000 && e.0@
                == "lock timeout: "@ + name@,
        },
{
    if acquired {
        return LockStep::Held;
    }
    let limit: u128 = timeout as u128 * 1_000_000_000;
    if elapsed >= limit {
        LockStep::Failed(StorageError(text::joined("lock timeout: ", name)))
    } else {
        LockStep::Wait(LOCK_RETRY_MS)
    }
}

} // verus!
