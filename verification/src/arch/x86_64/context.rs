//! Context switching.
//!
//! A thread that is not running is a kernel stack whose top holds the six
//! callee-saved registers, a return address and a trap frame. Resuming it is
//! the same operation whether it was preempted, stopped inside a system call,
//! or has never run at all.

use vstd::prelude::*;

use crate::arch::x86_64::gdt::{USER_CODE, USER_DATA};
use crate::arch::x86_64::trap::TrapFrame;

verus! {

/// Bytes a stopped thread's kernel stack holds at its saved stack pointer.
pub const STOPPED_CONTEXT_LEN: u64 = 232;

/// Layout a stopped thread's kernel stack holds at its saved stack pointer.
#[derive(Clone, Copy, Debug, PartialEq, Eq, Structural)]
pub struct StoppedContext {
    /// Saved R15.
    pub r15: u64,
    /// Saved R14.
    pub r14: u64,
    /// Saved R13.
    pub r13: u64,
    /// Saved R12.
    pub r12: u64,
    /// Saved RBX.
    pub rbx: u64,
    /// Saved RBP.
    pub rbp: u64,
    /// Where the switch returns to.
    pub resume: u64,
    /// What the return path restores.
    pub frame: TrapFrame,
}

/// Builds the first context of a thread that has never run, and where it goes
/// on its kernel stack. Resuming it enters ring 3 at `entry` with `argument` as
/// the first argument.
///
/// Every other register is zero, so nothing from the kernel or from another
/// domain is visible in the new thread. The flags carry the interrupt flag and
/// the reserved bit only: port access from ring 3 faults.
pub fn prepare_user_thread(
    kernel_stack_top: u64,
    entry: u64,
    user_stack_top: u64,
    argument: u64,
    resume: u64,
) -> (made: (u64, StoppedContext))
    requires
        kernel_stack_top >= STOPPED_CONTEXT_LEN,
        user_stack_top >= 8,
    ensures
        made.0 == kernel_stack_top - STOPPED_CONTEXT_LEN,
        made.1 == (StoppedContext {
            r15: 0,
            r14: 0,
            r13: 0,
            r12: 0,
            rbx: 0,
            rbp: 0,
            resume,
            frame: TrapFrame::fresh(entry, (user_stack_top - 8) as u64, argument),
        }),
{
    // A function's first instruction runs with the stack pointer eight below a
    // multiple of sixteen, because the call pushed a return address.
    let user_rsp: u64 = user_stack_top - 8;
    let context = StoppedContext {
        r15: 0,
        r14: 0,
        r13: 0,
        r12: 0,
        rbx: 0,
        rbp: 0,
        resume,
        frame: TrapFrame {
            rax: 0,
            rbx: 0,
            rcx: 0,
            rdx: 0,
            rsi: 0,
            rdi: argument,
            rbp: 0,
            r8: 0,
            r9: 0,
            r10: 0,
            r11: 0,
            r12: 0,
            r13: 0,
            r14: 0,
            r15: 0,
            vector: 0,
            error_code: 0,
            rip: entry,
            cs: USER_CODE as u64,
            rflags: 0x202,
            rsp: user_rsp,
            ss: USER_DATA as u64,
        },
    };
    (kernel_stack_top - STOPPED_CONTEXT_LEN, context)
}

} // verus!
