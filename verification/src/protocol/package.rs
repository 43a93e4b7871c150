//! Boot package container format: a header followed by a flat directory of
//! named byte ranges.

use vstd::prelude::*;

use crate::bytes::{in_bounds, le, read_u16, read_u32, read_u64};

verus! {

/// `THLXPKG0` in little-endian byte order.
pub const MAGIC: u64 = 0x3047_4B50_584C_4854;

/// Major package version.
pub const VERSION_MAJOR: u16 = 0;

/// Minor package version.
pub const VERSION_MINOR: u16 = 1;

/// Bytes of a [`Header`] in a package file.
pub const HEADER_LEN: usize = 40;

/// Bytes of an [`Entry`] in a package file.
pub const ENTRY_LEN: usize = 64;

/// Bytes of the name field of an [`Entry`].
pub const NAME_LEN: usize = 32;

/// Package header, immediately followed by `entry_count` [`Entry`] records.
#[derive(Clone, Copy, Debug, PartialEq, Eq, Structural)]
pub struct Header {
    /// Must equal [`MAGIC`].
    pub magic: u64,
    /// Must equal [`VERSION_MAJOR`].
    pub version_major: u16,
    /// Package minor version.
    pub version_minor: u16,
    /// Size of this header in bytes.
    pub header_len: u32,
    /// Number of directory entries.
    pub entry_count: u32,
    /// Size of one directory entry in bytes.
    pub entry_size: u32,
    /// Total size of the package file in bytes.
    pub total_len: u64,
    /// Reserved, zero.
    pub reserved: u64,
}

/// One directory entry.
#[derive(Clone, Copy, Debug)]
pub struct Entry {
    /// NUL-padded ASCII name.
    pub name: [u8; 32],
    /// Byte offset of the payload from the start of the package file.
    pub offset: u64,
    /// Payload length in bytes.
    pub length: u64,
    /// Module kind.
    pub kind: u32,
    /// Module flags.
    pub flags: u32,
    /// Reserved, zero.
    pub reserved: u64,
}

/// The header that the bytes of `s` starting at `at` encode.
pub open spec fn is_header(h: Header, s: Seq<u8>, at: int) -> bool {
    &&& h.magic == le(s, at, 8)
    &&& h.version_major == le(s, at + 8, 2)
    &&& h.version_minor == le(s, at + 10, 2)
    &&& h.header_len == le(s, at + 12, 4)
    &&& h.entry_count == le(s, at + 16, 4)
    &&& h.entry_size == le(s, at + 20, 4)
    &&& h.total_len == le(s, at + 24, 8)
    &&& h.reserved == le(s, at + 32, 8)
}

/// The directory entry that the bytes of `s` starting at `at` encode.
pub open spec fn is_entry(e: Entry, s: Seq<u8>, at: int) -> bool {
    &&& e.name@ == s.subrange(at, at + 32)
    &&& e.offset == le(s, at + 32, 8)
    &&& e.length == le(s, at + 40, 8)
    &&& e.kind == le(s, at + 48, 4)
    &&& e.flags == le(s, at + 52, 4)
    &&& e.reserved == le(s, at + 56, 8)
}

impl Header {
    /// Decodes the header at the start of `bytes`; `None` when it is cut short.
    pub fn read(bytes: &[u8]) -> (header: Option<Header>)
        ensures
            header is Some <==> bytes@.len() >= HEADER_LEN,
            header matches Some(h) ==> is_header(h, bytes@, 0),
    {
        if bytes.len() < HEADER_LEN {
            return None;
        }
        Some(
            Header {
                magic: read_u64(bytes, 0)?,
                version_major: read_u16(bytes, 8)?,
                version_minor: read_u16(bytes, 10)?,
                header_len: read_u32(bytes, 12)?,
                entry_count: read_u32(bytes, 16)?,
                entry_size: read_u32(bytes, 20)?,
                total_len: read_u64(bytes, 24)?,
                reserved: read_u64(bytes, 32)?,
            },
        )
    }
}

impl Entry {
    /// Decodes the directory entry at `base`; `None` when it is cut short.
    pub fn read(bytes: &[u8], base: usize) -> (entry: Option<Entry>)
        ensures
            entry is Some <==> in_bounds(bytes@, base as int, ENTRY_LEN as int),
            entry matches Some(e) ==> is_entry(e, bytes@, base as int),
    {
        if bytes.len() < ENTRY_LEN || base > bytes.len() - ENTRY_LEN {
            return None;
        }
        let mut name: [u8; 32] = [0; 32];
        for i in 0..NAME_LEN
            invariant
                base + ENTRY_LEN <= bytes@.len() <= usize::MAX,
                forall|j: int| 0 <= j < i ==> name@[j] == bytes@[base + j],
        {
            name[i] = bytes[base + i];
        }
        assert(name@ =~= bytes@.subrange(base as int, base + 32));
        Some(
            Entry {
                name,
                offset: read_u64(bytes, base + 32)?,
                length: read_u64(bytes, base + 40)?,
                kind: read_u32(bytes, base + 48)?,
                flags: read_u32(bytes, base + 52)?,
                reserved: read_u64(bytes, base + 56)?,
            },
        )
    }
}

} // verus!
