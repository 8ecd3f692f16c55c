//! The kinds of failure that the drivers tell apart.

use vstd::prelude::*;

verus! {

/// Why a driver operation did not go through.
#[derive(Debug, Clone, Copy, PartialEq, Eq, Structural)]
pub enum DriverError {
    /// The caller asked for something malformed or unsupported.
    InvalidInput,
    /// No adapter matched, or it went away.
    DeviceAbsent,
    /// A transfer ran out of time.
    Timeout,
    /// An endpoint halted.
    Stall,
    /// The adapter answered short or not as the protocol says.
    Protocol,
    /// The transport does not know what was asked for.
    NotFound,
    /// The transfer was cancelled or interrupted.
    Interrupted,
    /// The transport failed for good.
    Fatal,
}

} // verus!
