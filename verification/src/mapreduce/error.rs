//! What can go wrong between the manager and its workers.

use vstd::prelude::*;

verus! {

/// Why a job got no result.
#[derive(Debug, Clone, Copy, PartialEq, Eq, Structural)]
pub enum Error {
    /// The worker could not be reached, or the connection ended before its answer did.
    NoResponse,
    /// No worker is left to give a job to.
    NoAvailableWorker,
    /// Reading from the worker or writing to it failed.
    Io,
    /// A message could not be encoded or decoded.
    Codec,
}

} // verus!
