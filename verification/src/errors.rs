//! The error taxonomy of the bridge.

use vstd::prelude::*;

verus! {

/// Every failure the bridge can report.
///
/// - `Malformed`: a bad tag, a declared length beyond capacity, or a corrupt
///   payload; fatal to the connection, since framing integrity is lost.
/// - `CapacityExceeded`: a write would exceed a variable's maximum element
///   count; recoverable, the prior state is left untouched.
/// - `ConnectionLost`: I/O failure, peer closed, or partial write; fatal to
///   the connection.
/// - `MissingVariable` / `WrongType`: startup-only failures of variable
///   resolution.
#[derive(Clone, Copy, Debug, PartialEq, Eq, Structural)]
pub enum Error {
    Malformed,
    CapacityExceeded,
    ConnectionLost,
    MissingVariable,
    WrongType,
}

} // verus!
