//! The errors the engine reports.

use vstd::prelude::*;

verus! {

/// Why an operation on a connection was refused.
#[derive(Clone, Copy, Debug, PartialEq, Eq, Structural)]
pub enum TcpError {
    /// The connection is in a state in which there is nothing to close.
    NotConnected,
}

impl TcpError {
    /// A short description of the error.
    pub fn message(&self) -> (s: &'static str)
        ensures
            s@ == "already closing"@,
    {
        "already closing"
    }
}

} // verus!
