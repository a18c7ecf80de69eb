use vstd::prelude::*;

verus! {

/// Errors seen by the callers of the protocol commands.
#[derive(Debug, Clone, Copy, PartialEq, Eq, Structural)]
pub enum I2pError {
    /// The reply was malformed, lacked a required field, or carried a status
    /// that does not mean success.
    InvalidValue,
    /// The name that was looked up has no known destination.
    DoesntExist,
    /// The transport failed while writing the command or reading the reply.
    TcpConnectionError,
}

} // verus!
