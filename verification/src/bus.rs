//! What a driver asks of a shared I2C bus.

use vstd::prelude::*;

verus! {

/// One operation on the bus, or a pause.
#[derive(Clone, Copy, PartialEq, Eq, Structural)]
pub enum BusOp {
    /// Write the register number, then read `len` bytes.
    Read { addr: u8, reg: u8, len: usize },
    /// Write the register number and a value. Failures do not matter.
    Write { addr: u8, reg: u8, value: u8 },
    /// Wait this many microseconds.
    DelayUs(u32),
}

/// The bytes of a reply: `None` when the transfer failed.
pub open spec fn reply_view(reply: Option<&[u8]>) -> Option<Seq<u8>> {
    match reply {
        Some(s) => Some(s@),
        None => None,
    }
}

} // verus!
