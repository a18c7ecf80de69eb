//! A client for the SAM text protocol spoken by an I2P router: command lines
//! are built, one reply line is read per command, and the reply is parsed
//! into fields whose status codes map onto a small error taxonomy.
pub mod error;
pub mod message;
pub mod exchange;
pub mod cmd;
pub mod session;
