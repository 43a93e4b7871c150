//! What the loader decides before it hands the machine to the kernel.

pub mod elf;
pub mod package;
pub mod paging;
pub mod pool;
pub mod prepare;
