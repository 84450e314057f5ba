//! Errors defined across the MPC implementation

use vstd::prelude::*;

verus! {

/// The errors that the fabric and the values on it report
#[derive(Clone, Copy, Debug, PartialEq, Eq, Structural)]
pub enum MpcError {
    /// The MAC check failed during an authenticated opening
    AuthenticationError,
    /// The transport disconnected, or a message could not be decoded
    NetworkError,
    /// The parties could not set the connection up
    SetupError,
}

} // verus!
