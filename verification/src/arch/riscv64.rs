//! The RISC-V `virt` platform: the 16550 UART log and console input, and
//! the virtio devices.
pub mod virtio;

use vstd::prelude::*;
use vstd::string::StringSliceAdditionalSpecFns;
use crate::arch::{serial_bytes, serial_text};

verus! {

/// The bytes the UART is given for `text`.
pub fn debug_write(text: &str) -> (bytes: Vec<u8>)
    ensures
        bytes@ == serial_text(text.spec_bytes()),
{
    serial_bytes(text.as_bytes())
}

/// The bytes the UART is given for a last message.
pub fn emergency_write(text: &str) -> (bytes: Vec<u8>)
    ensures
        bytes@ == serial_text(text.spec_bytes()),
{
    debug_write(text)
}

/// Whether the UART's line status says a received byte is waiting.
pub fn uart_data_ready(line_status: u8) -> (ready: bool)
    ensures
        ready == (line_status & 1 != 0),
{
    line_status & 1 != 0
}

/// Whether the UART's line status says it can take a byte.
pub fn uart_can_send(line_status: u8) -> (ready: bool)
    ensures
        ready == (line_status & 0x20 != 0),
{
    line_status & 0x20 != 0
}

} // verus!
