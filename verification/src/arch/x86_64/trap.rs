//! Interrupt and exception entry.
//!
//! Every vector, and the `syscall` instruction, converge on one frame layout
//! and one return path.

use vstd::prelude::*;

use crate::arch::x86_64::gdt::{USER_CODE, USER_DATA};

verus! {

/// Vector the local APIC timer is programmed to raise.
pub const TIMER_VECTOR: u8 = 0x40;

/// Vector one processor sends another to make it invalidate translations.
pub const TLB_VECTOR: u8 = 0x41;

/// Vector one processor sends another to make it reconsider what to run.
pub const RESCHEDULE_VECTOR: u8 = 0x42;

/// Vector programmed into the local APIC's spurious-interrupt register.
pub const SPURIOUS_VECTOR: u8 = 0xFF;

/// Pseudo-vector recorded for a `syscall` entry. Outside the range of interrupt
/// vectors, so a frame's origin is never ambiguous.
pub const SYSCALL_VECTOR: u64 = 0x100;

/// Bytes reserved for each generated entry stub.
pub const STUB_STRIDE: usize = 16;

/// Vectors whose exceptions push an error code, one bit each.
pub const ERROR_CODE_VECTORS: u64 = 0x6022_7D00;

/// Flags that make `sysretq` the wrong instruction.
pub const SYSRET_FORBIDDEN_FLAGS: u64 = 0x3_0000;

/// Device vectors are apart from the exceptions, the timer, the interprocessor
/// vectors and the spurious one: a vector is never both a device's and the
/// kernel's.
pub proof fn device_vectors_are_apart(vector: u8)
    requires
        crate::device::is_device_vector(vector),
    ensures
        vector >= 32,
        vector != TIMER_VECTOR,
        vector != TLB_VECTOR,
        vector != RESCHEDULE_VECTOR,
        vector != SPURIOUS_VECTOR,
{
}

/// Saved machine state at a kernel entry, in the memory order the entry stubs
/// build.
#[derive(Clone, Copy, Debug, PartialEq, Eq, Structural)]
pub struct TrapFrame {
    /// Saved RAX.
    pub rax: u64,
    /// Saved RBX.
    pub rbx: u64,
    /// Saved RCX. Destroyed by `syscall`, which stores the return address here.
    pub rcx: u64,
    /// Saved RDX.
    pub rdx: u64,
    /// Saved RSI.
    pub rsi: u64,
    /// Saved RDI.
    pub rdi: u64,
    /// Saved RBP.
    pub rbp: u64,
    /// Saved R8.
    pub r8: u64,
    /// Saved R9.
    pub r9: u64,
    /// Saved R10.
    pub r10: u64,
    /// Saved R11. Destroyed by `syscall`, which stores the flags here.
    pub r11: u64,
    /// Saved R12.
    pub r12: u64,
    /// Saved R13.
    pub r13: u64,
    /// Saved R14.
    pub r14: u64,
    /// Saved R15.
    pub r15: u64,
    /// Interrupt vector, or [`SYSCALL_VECTOR`].
    pub vector: u64,
    /// Error code, or zero for vectors that push none.
    pub error_code: u64,
    /// Interrupted instruction pointer.
    pub rip: u64,
    /// Interrupted code selector. Its low two bits are the privilege level the
    /// entry came from.
    pub cs: u64,
    /// Interrupted flags.
    pub rflags: u64,
    /// Interrupted stack pointer.
    pub rsp: u64,
    /// Interrupted stack selector.
    pub ss: u64,
}

impl TrapFrame {
    /// Privilege level the entry came from.
    pub fn cpl(&self) -> (level: u8)
        ensures
            level == self.cs % 4,
    {
        (self.cs % 4) as u8
    }

    /// True when the entry came from ring 3.
    pub fn from_user(&self) -> (yes: bool)
        ensures
            yes == (self.cs % 4 == 3),
    {
        self.cpl() == 3
    }

    /// A frame whose every register is zero but those a fresh user thread
    /// starts with.
    pub open spec fn fresh(entry: u64, rsp: u64, argument: u64) -> TrapFrame {
        TrapFrame {
            rax: 0,
            rbx: 0,
            rcx: 0,
            rdx: 0,
            rsi: 0,
            rdi: argument,
            rbp: 0,
            r8: 0,
            r9: 0,
            r10: 0,
            r11: 0,
            r12: 0,
            r13: 0,
            r14: 0,
            r15: 0,
            vector: 0,
            error_code: 0,
            rip: entry,
            cs: USER_CODE as u64,
            rflags: 0x202,
            rsp,
            ss: USER_DATA as u64,
        }
    }
}

/// Address of the entry stub for `vector`.
pub fn stub_address(stubs: u64, vector: usize) -> (address: u64)
    requires
        vector < 256,
        stubs + 256 * STUB_STRIDE <= u64::MAX,
    ensures
        address == stubs + vector * STUB_STRIDE,
{
    stubs + (vector * STUB_STRIDE) as u64
}

} // verus!
