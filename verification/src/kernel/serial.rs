//! COM1, a 16550 serial port that is polled.
//!
//! After the firmware's console is gone this is the only way out for text.

use vstd::prelude::*;
use vstd::string::*;

use crate::kernel::port::{PortWrite, PortWrites};

verus! {

/// First port of COM1.
pub const COM1: u16 = 0x3F8;

/// Data register; the low byte of the divisor while the divisor latch is open.
pub const REG_DATA: u16 = 0;

/// Interrupt enable register; the high byte of the divisor while the latch is open.
pub const REG_IER: u16 = 1;

/// FIFO control register.
pub const REG_FCR: u16 = 2;

/// Line control register.
pub const REG_LCR: u16 = 3;

/// Modem control register.
pub const REG_MCR: u16 = 4;

/// Line status register.
pub const REG_LSR: u16 = 5;

/// The COM1 serial port.
pub struct Serial;

/// The bytes sent for some text bytes: every line feed is preceded by a carriage return.
pub open spec fn expanded(bytes: Seq<u8>) -> Seq<u8>
    decreases bytes.len(),
{
    if bytes.len() == 0 {
        Seq::empty()
    } else {
        expanded(bytes.drop_last()) + expanded_byte(bytes.last())
    }
}

/// The bytes sent for one byte.
pub open spec fn expanded_byte(byte: u8) -> Seq<u8> {
    if byte == 0x0A {
        seq![0x0Du8, 0x0Au8]
    } else {
        seq![byte]
    }
}

impl Serial {
    /// The writes that set COM1 to 115200 baud, eight bits, no parity, one stop bit, no interrupts.
    #[must_use]
    pub fn init() -> (writes: PortWrites)
        ensures
            writes.well_formed(),
            writes@ == seq![
                PortWrite { port: 0x3F9, value: 0x00 },
                PortWrite { port: 0x3FB, value: 0x80 },
                PortWrite { port: 0x3F8, value: 0x01 },
                PortWrite { port: 0x3F9, value: 0x00 },
                PortWrite { port: 0x3FB, value: 0x03 },
                PortWrite { port: 0x3FA, value: 0xC7 },
                PortWrite { port: 0x3FC, value: 0x03 },
            ],
    {
        let mut writes = PortWrites::new();
        writes.push(COM1 + REG_IER, 0x00);  // no interrupts
        writes.push(COM1 + REG_LCR, 0x80);  // open the divisor latch
        writes.push(COM1 + REG_DATA, 0x01);  // divisor 1: 115200 baud
        writes.push(COM1 + REG_IER, 0x00);
        writes.push(COM1 + REG_LCR, 0x03);  // eight bits, no parity, one stop bit
        writes.push(COM1 + REG_FCR, 0xC7);  // clear and enable the FIFO
        writes.push(COM1 + REG_MCR, 0x03);  // DTR and RTS
        writes
    }

    /// Whether the line status says that the next byte can be written.
    #[must_use]
    pub fn tx_ready(line_status: u8) -> (ready: bool)
        ensures
            ready == (line_status & 0x20 != 0),
    {
        line_status & 0x20 != 0
    }

    /// What to send for one byte: whether a carriage return goes in front, and the byte.
    #[must_use]
    pub fn write_byte(byte: u8) -> (sent: (bool, u8))
        ensures
            expanded_byte(byte) == (if sent.0 { seq![0x0Du8, sent.1] } else { seq![sent.1] }),
            sent == (byte == 10, byte),
    {
        (byte == 0x0A, byte)
    }

    /// The bytes to send for a text.
    #[must_use]
    pub fn write_str(text: &str) -> (sent: Vec<u8>)
        ensures
            sent@ == expanded(text.spec_bytes()),
    {
        let bytes: &[u8] = text.as_bytes();
        let mut sent: Vec<u8> = Vec::new();
        let mut i: usize = 0;
        while i < bytes.len()
            invariant
                i <= bytes@.len(),
                sent@ == expanded(bytes@.take(i as int)),
            decreases bytes@.len() - i,
        {
            let byte: u8 = bytes[i];
            if byte == 0x0A {
                sent.push(0x0D);
            }
            sent.push(byte);
            proof {
                let next = bytes@.take(i + 1);
                assert(next.drop_last() =~= bytes@.take(i as int));
                assert(sent@ =~= expanded(bytes@.take(i as int)) + expanded_byte(byte));
            }
            i = i + 1;
        }
        assert(bytes@.take(i as int) =~= bytes@);
        sent
    }
}

/// Without line feeds the bytes are sent as they are.
pub proof fn law_plain_text_is_unchanged(bytes: Seq<u8>)
    requires
        forall|i: int| 0 <= i < bytes.len() ==> #[trigger] bytes[i] != 0x0A,
    ensures
        expanded(bytes) == bytes,
    decreases bytes.len(),
{
    if bytes.len() > 0 {
        law_plain_text_is_unchanged(bytes.drop_last());
        assert(expanded(bytes) =~= bytes);
    }
}

} // verus!
