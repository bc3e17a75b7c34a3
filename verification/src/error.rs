//! What acquiring a lock reports when it does not simply hand out access.
use vstd::prelude::*;

verus! {

/// A lock was acquired, but a writer panicked while it held the lock earlier.
///
/// The acquired access is inside, so a caller that does not care about the
/// panic can still use it.
pub struct PoisonError<G> {
    pub guard: G,
}

/// Why a non-blocking acquisition did not return plain access.
pub enum TryLockError<G> {
    /// The lock was acquired, and it is poisoned.
    Poisoned(PoisonError<G>),
    /// The lock could not be acquired without waiting.
    WouldBlock,
}

pub type LockResult<G> = Result<G, PoisonError<G>>;

pub type TryLockResult<G> = Result<G, TryLockError<G>>;

impl<G> PoisonError<G> {
    pub fn new(guard: G) -> (error: PoisonError<G>)
        ensures
            error.guard == guard,
    {
        PoisonError { guard }
    }

    /// Takes the access out of the error.
    pub fn into_inner(self) -> (guard: G)
        ensures
            guard == self.guard,
    {
        self.guard
    }

    /// Looks at the access inside the error.
    pub fn get_ref(&self) -> (guard: &G)
        ensures
            *guard == self.guard,
    {
        &self.guard
    }
}

} // verus!
