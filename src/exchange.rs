use vstd::prelude::*;

use crate::error::I2pError;

verus! {

/// A connection to the router's SAM gateway, carrying one line at a time.
pub trait Transport {
    /// Writes `line` as it stands; `false` when the transport failed.
    fn write_line(&mut self, line: &str) -> bool;

    /// Reads one reply line; `None` when the transport failed.
    fn read_line(&mut self) -> Option<String>;
}

/// One round trip: writes `msg` once, then reads one reply line.
///
/// A failure of either step is reported as `TcpConnectionError`, and a failed
/// write is never followed by a read.
pub fn exchange<S: Transport>(socket: &mut S, msg: &str) -> (r: Result<String, I2pError>)
    ensures
        r matches Err(e) ==> e == I2pError::TcpConnectionError,
{
    if !socket.write_line(msg) {
        return Err(I2pError::TcpConnectionError);
    }
    match socket.read_line() {
        Some(line) => Ok(line),
        None => Err(I2pError::TcpConnectionError),
    }
}

} // verus!
