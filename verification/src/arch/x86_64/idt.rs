//! Interrupt descriptor table.
//!
//! Every gate is an interrupt gate at descriptor privilege level 0: it clears
//! the interrupt flag on entry, and ring 3 cannot raise any vector with a
//! software interrupt. Three vectors run on emergency stacks because they can
//! arrive when the current stack is the reason for the fault.

use vstd::prelude::*;

use crate::arch::x86_64::gdt::KERNEL_CODE;
use crate::arch::x86_64::trap::{stub_address, STUB_STRIDE};

verus! {

/// Double fault. Runs on interrupt stack table slot 1.
pub const VECTOR_DOUBLE_FAULT: usize = 8;

/// Non-maskable interrupt. Runs on interrupt stack table slot 2.
pub const VECTOR_NMI: usize = 2;

/// Machine check. Runs on interrupt stack table slot 3.
pub const VECTOR_MACHINE_CHECK: usize = 18;

/// Bytes of the table.
pub const IDT_LEN: u16 = 4096;

/// A gate.
#[derive(Clone, Copy, Debug, PartialEq, Eq, Structural)]
pub struct Entry {
    /// Lowest part of the handler's address.
    pub offset_low: u16,
    /// Code selector.
    pub selector: u16,
    /// Interrupt stack table slot, or zero for the current stack.
    pub ist: u8,
    /// Type, privilege level and presence.
    pub flags: u8,
    /// Middle part of the handler's address.
    pub offset_mid: u16,
    /// Highest part of the handler's address.
    pub offset_high: u32,
    /// Zero.
    pub reserved: u32,
}

/// The entry for a handler.
pub open spec fn gate_of(handler: u64, ist: u8) -> Entry {
    Entry {
        offset_low: (handler % 0x1_0000) as u16,
        selector: KERNEL_CODE,
        ist,
        flags: 0x8E,
        offset_mid: ((handler / 0x1_0000) % 0x1_0000) as u16,
        offset_high: (handler / 0x1_0000_0000) as u32,
        reserved: 0,
    }
}

impl Entry {
    /// No gate.
    pub fn empty() -> (entry: Entry)
        ensures
            entry == (Entry {
                offset_low: 0,
                selector: 0,
                ist: 0,
                flags: 0,
                offset_mid: 0,
                offset_high: 0,
                reserved: 0,
            }),
    {
        Entry {
            offset_low: 0,
            selector: 0,
            ist: 0,
            flags: 0,
            offset_mid: 0,
            offset_high: 0,
            reserved: 0,
        }
    }

    /// A present 64-bit interrupt gate at privilege level 0.
    pub fn interrupt_gate(handler: u64, ist: u8) -> (entry: Entry)
        ensures
            entry == gate_of(handler, ist),
    {
        Entry {
            offset_low: (handler % 0x1_0000) as u16,
            selector: KERNEL_CODE,
            ist,
            flags: 0x8E,
            offset_mid: ((handler / 0x1_0000) % 0x1_0000) as u16,
            offset_high: (handler / 0x1_0000_0000) as u32,
            reserved: 0,
        }
    }
}

/// The handler's address can be read back from its gate.
pub proof fn gate_holds_the_handler(handler: u64, ist: u8)
    ensures
        ({
            let gate = gate_of(handler, ist);
            gate.offset_low + gate.offset_mid * 0x1_0000 + gate.offset_high * 0x1_0000_0000
                == handler
        }),
{
}

/// Interrupt stack table slot of a vector.
pub open spec fn stack_of(vector: int) -> u8 {
    if vector == VECTOR_DOUBLE_FAULT {
        1
    } else if vector == VECTOR_NMI {
        2
    } else if vector == VECTOR_MACHINE_CHECK {
        3
    } else {
        0
    }
}

/// The entries of all vectors, for entry stubs that start at `stubs`.
pub fn gates(stubs: u64) -> (table: Vec<Entry>)
    requires
        stubs + 256 * STUB_STRIDE <= u64::MAX,
    ensures
        table@ == Seq::new(
            256,
            |v: int| gate_of((stubs + v * STUB_STRIDE) as u64, stack_of(v)),
        ),
{
    let mut table: Vec<Entry> = Vec::new();
    for vector in 0..256usize
        invariant
            stubs + 256 * STUB_STRIDE <= u64::MAX,
            table@.len() == vector,
            forall|v: int|
                0 <= v < vector ==> #[trigger] table@[v] == gate_of(
                    (stubs + v * STUB_STRIDE) as u64,
                    stack_of(v),
                ),
    {
        let ist: u8 = if vector == VECTOR_DOUBLE_FAULT {
            1
        } else if vector == VECTOR_NMI {
            2
        } else if vector == VECTOR_MACHINE_CHECK {
            3
        } else {
            0
        };
        table.push(Entry::interrupt_gate(stub_address(stubs, vector), ist));
    }
    assert(table@ =~= Seq::new(
        256,
        |v: int| gate_of((stubs + v * STUB_STRIDE) as u64, stack_of(v)),
    ));
    table
}

} // verus!
