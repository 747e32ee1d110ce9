//! The one error that every storage operation reports.

use vstd::prelude::*;

verus! {

/// Why a storage operation failed. All operations share this type; the variant
/// tags the cause. Nothing is retried before it is reported.
#[derive(Debug, Clone, PartialEq, Eq)]
pub enum SessionError {
    /// No connection could be acquired from the pool. Holds the pool's message.
    Acquire(String),
    /// The backend, or the link to it, failed the command: the network, the
    /// protocol, a timeout or an error that the backend reported. Holds the
    /// client's message.
    Command(String),
    /// The backend answered with a type that the operation cannot read.
    Decode,
}

} // verus!
