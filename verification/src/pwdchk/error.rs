//! What can go wrong in the password tools.
use vstd::prelude::*;

verus! {

/// The errors of the password tools. The variants that come from the outside world
/// (the file system, the web client) carry no payload here; the program that performs
/// that I/O keeps the underlying error.
#[derive(Debug, Clone, Copy, PartialEq, Eq, Structural)]
pub enum Error {
    IoError,
    NoColon,
    EmptyLogin,
    EmptyPassword,
    ReqwestError,
    ParseIntError,
    Timeout,
}

} // verus!
