//! Verified core of the Thalyx kernel and its loader.

pub mod abi;
pub mod access;
pub mod acpi;
pub mod api;
pub mod arch;
pub mod backing;
pub mod boot;
pub mod bytes;
pub mod ctrl;
pub mod device;
pub mod diag;
pub mod domain;
pub mod elf;
pub mod elf_header;
pub mod events;
pub mod harness;
pub mod ipc;
pub mod k2boot;
pub mod kstack;
pub mod laws;
pub mod layout;
pub mod limits;
pub mod loader;
pub mod machine;
pub mod memobj;
pub mod mm;
pub mod obj;
pub mod page_table;
pub mod protocol;
pub mod scope;
pub mod spaces;
pub mod state;
pub mod tables;
pub mod thread;
