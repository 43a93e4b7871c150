//! x86_64 support: page tables, descriptor tables, privilege transitions and
//! the local interrupt controller.

pub mod ap;
pub mod context;
pub mod cpu;
pub mod fpu;
pub mod gdt;
pub mod idt;
pub mod lapic;
pub mod paging;
pub mod pic;
pub mod pit;
pub mod serial;
pub mod syscall;
pub mod trap;
