//! Polled 16550-compatible serial port.
//!
//! Output is polled and synchronous on purpose: the diagnostic plane has to
//! survive a fault handler and a panic.

use vstd::prelude::*;

verus! {

/// I/O port of the first PC-compatible serial port.
pub const COM1: u16 = 0x3F8;

/// Data register.
pub const REG_DATA: u16 = 0;

/// Line status register.
pub const REG_LINE_STATUS: u16 = 5;

/// Line status bit of an empty transmitter.
pub const LINE_STATUS_THR_EMPTY: u8 = 0x20;

/// Bound on the poll loop, so a port that never reports an empty transmitter
/// drops the byte instead of wedging the machine.
pub const POLL_LIMIT: u32 = 100_000;

/// A polled serial port.
#[derive(Clone, Copy, Debug, PartialEq, Eq, Structural)]
pub struct Uart {
    /// Its first register.
    pub base: u16,
}

/// Bytes that go over the line for a text: every newline is preceded by a
/// carriage return.
pub open spec fn expanded(text: Seq<u8>) -> Seq<u8>
    decreases text.len(),
{
    if text.len() == 0 {
        Seq::empty()
    } else if text.last() == 0x0A {
        expanded(text.drop_last()).push(0x0D).push(0x0A)
    } else {
        expanded(text.drop_last()).push(text.last())
    }
}

impl Uart {
    /// Binds to the port at `base`. Nothing is programmed yet.
    pub fn new(base: u16) -> (uart: Uart)
        ensures
            uart.base == base,
    {
        Uart { base }
    }

    /// The writes that program 115200 baud, eight data bits, no parity, one stop
    /// bit, with the queues enabled and interrupts off.
    pub fn init(&self) -> (writes: [(u16, u8); 7])
        requires
            self.base <= 0xFFF8,
        ensures
            writes@ == seq![
                ((self.base + 1) as u16, 0x00u8),
                ((self.base + 3) as u16, 0x80u8),
                (self.base, 0x01u8),
                ((self.base + 1) as u16, 0x00u8),
                ((self.base + 3) as u16, 0x03u8),
                ((self.base + 2) as u16, 0xC7u8),
                ((self.base + 4) as u16, 0x03u8),
            ],
    {
        let writes: [(u16, u8); 7] = [
            (self.base + 1, 0x00),
            (self.base + 3, 0x80),
            (self.base, 0x01),
            (self.base + 1, 0x00),
            (self.base + 3, 0x03),
            (self.base + 2, 0xC7),
            (self.base + 4, 0x03),
        ];
        assert(writes@ =~= seq![
            ((self.base + 1) as u16, 0x00u8),
            ((self.base + 3) as u16, 0x80u8),
            (self.base, 0x01u8),
            ((self.base + 1) as u16, 0x00u8),
            ((self.base + 3) as u16, 0x03u8),
            ((self.base + 2) as u16, 0xC7u8),
            ((self.base + 4) as u16, 0x03u8),
        ]);
        writes
    }

    /// The bytes to send for a text.
    pub fn write_str(&self, text: &[u8]) -> (bytes: Vec<u8>)
        ensures
            bytes@ == expanded(text@),
    {
        let mut bytes: Vec<u8> = Vec::new();
        assert(text@.take(0) =~= Seq::<u8>::empty());
        for i in 0..text.len()
            invariant
                bytes@ == expanded(text@.take(i as int)),
        {
            assert(text@.take(i + 1).drop_last() =~= text@.take(i as int));
            assert(text@.take(i + 1).last() == text@[i as int]);
            if text[i] == 0x0A {
                bytes.push(0x0D);
            }
            bytes.push(text[i]);
        }
        assert(text@.take(text@.len() as int) =~= text@);
        bytes
    }
}

} // verus!
