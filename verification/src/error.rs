//! The ways in which a guest call can abort.

use vstd::prelude::*;

verus! {

/// Why a guest operation gave up. The guest has no way to recover from any of
/// these inside the call; the caller sees the trap and decides what to do.
#[derive(Clone, Copy, Debug, PartialEq, Eq, Structural)]
pub enum Trap {
    /// The bytes handed in do not have the shape of the expected record.
    DecodeError,
    /// The allocator cannot satisfy the size that was asked for.
    AllocationFailure,
    /// A pointer and length reach outside the memory the allocator owns.
    OutOfBounds,
    /// A counter is at its largest value and cannot be incremented.
    CounterOverflow,
}

/// Why the host could not complete an exchange with a guest.
#[derive(Clone, Copy, Debug, PartialEq, Eq, Structural)]
pub enum HostError {
    /// The module could not be instantiated.
    InstantiationError,
    /// The instance exposes no memory.
    MissingMemory,
    /// The instance has no export of that name that takes these arguments.
    MissingExport,
    /// The guest call trapped, for the reason given.
    Trapped(Trap),
    /// The guest call was aborted and the runtime gave no reason that the
    /// guest's operations know.
    Aborted,
    /// A read or write reached outside the guest's memory.
    OutOfBounds,
    /// The bytes read back do not have the shape of the expected record.
    DecodeError,
    /// The value is too long for its length to be passed to the guest.
    TooLarge,
    /// The instance answered with something that the request did not ask
    /// for.
    Protocol,
}

} // verus!
