//! Errors of the serial port seam that carries MCTP over a UART.

use vstd::prelude::*;

verus! {

/// Why a serial operation failed.
#[derive(Debug, Clone, Copy, PartialEq, Eq, Structural)]
pub enum SerialError {
    Io,
    Timeout,
    Invalid,
}

} // verus!
