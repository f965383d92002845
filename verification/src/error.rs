//! Errors of the driver: an I/O error kind with a message, and the error of
//! the `SerialPort` interface.

use vstd::prelude::*;

verus! {

/// The kinds of I/O error that the driver reports.
#[derive(Clone, Copy, Debug, PartialEq, Eq, Structural)]
pub enum ErrorKind {
    NotFound,
    InvalidInput,
    NotConnected,
    AddrNotAvailable,
    Unsupported,
    Other,
}

/// An I/O error: its kind and, unless the kind alone describes it, a message.
#[derive(Debug)]
pub struct Error {
    pub kind: ErrorKind,
    pub message: Option<String>,
}

} // verus!
