//! A TCP scanner: which host and port pairs to try, and what an attempt found.
use vstd::prelude::*;

pub mod net;

verus! {

/// What a successful connection told about the service behind a port.
#[derive(Debug)]
pub enum IdentificationResult {
    /// The service greeted with this first line.
    WelcomeLine(String),
    /// The port is open but no greeting came.
    NoWelcomeLine,
    /// The host refused the connection.
    ConnectionRefused,
}

} // verus!
