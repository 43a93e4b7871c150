//! Memory objects, their mappings and the seal.
//!
//! A memory object is a run of resident pages with maximum rights and a seal
//! state. Every installed mapping is recorded: sealing has to *withdraw*
//! writers, and revoking the capability that authorised a mapping has to
//! invalidate the mapping too.

use vstd::array::spec_array_fill_for_copy_type;
use vstd::prelude::*;

use crate::ipc::{label_bytes, label_length};
use crate::limits::MAX_CPUS;
use crate::mm::Frame;
use crate::obj::NO_GRANT;
use crate::protocol::PAGE_SIZE;

verus! {

/// Lifecycle of a memory object.
#[derive(Clone, Copy, PartialEq, Eq, Debug, Structural)]
pub enum State {
    /// Free table slot.
    Empty,
    /// Writable, subject to rights.
    Mutable,
    /// Writers refused; existing writable aliases being withdrawn.
    Sealing,
    /// No writer exists inside the declared perimeter.
    Sealed,
}

impl State {
    /// The number [`State::abi`] returns.
    pub open spec fn abi_spec(self) -> u32 {
        match self {
            State::Empty => 0,
            State::Mutable => 1,
            State::Sealing => 2,
            State::Sealed => 3,
        }
    }

    /// The name [`State::name`] returns.
    pub open spec fn name_spec(self) -> Seq<char> {
        match self {
            State::Empty => "empty"@,
            State::Mutable => "mutable"@,
            State::Sealing => "sealing"@,
            State::Sealed => "sealed"@,
        }
    }

    /// Number reported in a memory descriptor.
    pub fn abi(self) -> (number: u32)
        ensures
            number == self.abi_spec(),
    {
        match self {
            State::Empty => 0,
            State::Mutable => 1,
            State::Sealing => 2,
            State::Sealed => 3,
        }
    }

    /// Short name used in diagnostic records.
    pub fn name(self) -> (text: &'static str)
        ensures
            text@ == self.name_spec(),
    {
        match self {
            State::Empty => "empty",
            State::Mutable => "mutable",
            State::Sealing => "sealing",
            State::Sealed => "sealed",
        }
    }
}

/// A run of resident pages with rights and a seal state.
#[derive(Clone, Copy, Debug)]
pub struct MemoryObject {
    /// Lifecycle state.
    pub state: State,
    /// Generation of this table slot.
    pub generation: u32,
    /// Diagnostic identity.
    pub id: u64,
    /// First physical frame.
    pub base: Frame,
    /// Length in pages.
    pub pages: u32,
    /// Rights no capability over this object may exceed.
    pub max_rights: u32,
    /// Scope charged for the pages.
    pub sponsor: u16,
    /// Mappings currently installed.
    pub map_count: u32,
    /// Mappings currently installed that permit writing.
    pub writable_maps: u32,
    /// Device grants that let a device reach the pages.
    pub dma_grants: u32,
    /// Diagnostic label. A name grants nothing.
    pub label: [u8; 16],
    /// Capability entries naming this object.
    pub refs: u32,
    /// Invalidation generation of the last withdrawn mapping, or zero.
    pub unmapped_at: u64,
    /// Processors that may still hold a translation withdrawn then.
    pub unmapped_cpus: [bool; MAX_CPUS],
}

impl MemoryObject {
    /// A free slot.
    pub open spec fn empty_spec() -> MemoryObject {
        MemoryObject {
            state: State::Empty,
            generation: 0,
            id: 0,
            base: (Frame { number: 0 }),
            pages: 0,
            max_rights: 0,
            sponsor: 0,
            map_count: 0,
            writable_maps: 0,
            dma_grants: 0,
            label: spec_array_fill_for_copy_type::<u8, 16>(0),
            refs: 0,
            unmapped_at: 0,
            unmapped_cpus: spec_array_fill_for_copy_type::<bool, MAX_CPUS>(false),
        }
    }

    /// A free slot.
    pub fn empty() -> (object: MemoryObject)
        ensures
            object == MemoryObject::empty_spec(),
    {
        MemoryObject {
            state: State::Empty,
            generation: 0,
            id: 0,
            base: Frame { number: 0 },
            pages: 0,
            max_rights: 0,
            sponsor: 0,
            map_count: 0,
            writable_maps: 0,
            dma_grants: 0,
            label: [0u8; 16],
            refs: 0,
            unmapped_at: 0,
            unmapped_cpus: [false; MAX_CPUS],
        }
    }

    /// Label up to its first NUL, for diagnostic records.
    pub fn label_str(&self) -> (text: Vec<u8>)
        ensures
            text@ == self.label@.take(label_length(self.label@)),
    {
        label_bytes(&self.label)
    }

    /// Length in bytes.
    pub open spec fn len_spec(self) -> int {
        self.pages * 0x1000
    }

    /// Length in bytes.
    pub fn len(&self) -> (bytes: u64)
        ensures
            bytes == self.len_spec(),
    {
        (self.pages as u64) * PAGE_SIZE
    }
}

/// One installed mapping.
#[derive(Clone, Copy, Debug, PartialEq, Eq, Structural)]
pub struct MapRecord {
    /// Whether the record is in use.
    pub used: bool,
    /// Memory object index.
    pub memory: u16,
    /// Generation the memory object had when the mapping was installed.
    pub memory_generation: u32,
    /// Domain index the mapping lives in.
    pub domain: u16,
    /// Generation the domain had when the mapping was installed.
    pub domain_generation: u32,
    /// First virtual address.
    pub vaddr: u64,
    /// First page of the object.
    pub offset_pages: u32,
    /// Length in pages.
    pub pages: u32,
    /// Rights the mapping carries.
    pub rights: u32,
    /// Grant whose authority installed the mapping.
    pub grant: u16,
    /// Scope charged for the mapping's metadata.
    pub scope: u16,
}

impl MapRecord {
    /// A free record.
    pub open spec fn empty_spec() -> MapRecord {
        MapRecord {
            used: false,
            memory: 0,
            memory_generation: 0,
            domain: 0,
            domain_generation: 0,
            vaddr: 0,
            offset_pages: 0,
            pages: 0,
            rights: 0,
            grant: NO_GRANT,
            scope: 0,
        }
    }

    /// A free record.
    pub fn empty() -> (record: MapRecord)
        ensures
            record == MapRecord::empty_spec(),
    {
        MapRecord {
            used: false,
            memory: 0,
            memory_generation: 0,
            domain: 0,
            domain_generation: 0,
            vaddr: 0,
            offset_pages: 0,
            pages: 0,
            rights: 0,
            grant: NO_GRANT,
            scope: 0,
        }
    }
}

} // verus!
