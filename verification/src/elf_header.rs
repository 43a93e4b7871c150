//! The parts of an ELF64 file that the two image readers share: identification,
//! file header and program headers.

use vstd::prelude::*;

use crate::bytes::{le, read_u16, read_u32, read_u64};

verus! {

/// Bytes of the file header.
pub const HEADER_LEN: usize = 64;

/// Bytes of one program header.
pub const PROGRAM_HEADER_LEN: usize = 56;

/// Largest number of program headers accepted.
pub const MAX_PROGRAM_HEADERS: u16 = 64;

/// Object type of a statically linked executable.
pub const ET_EXEC: u16 = 2;

/// Machine number of x86_64.
pub const EM_X86_64: u16 = 0x3E;

/// Type of a loadable segment.
pub const PT_LOAD: u32 = 1;

/// Segment flag: executable.
pub const PF_X: u32 = 1;

/// Segment flag: writable.
pub const PF_W: u32 = 2;

/// Segment flag: readable.
pub const PF_R: u32 = 4;

/// The fields of the file header that a reader looks at.
#[derive(Clone, Copy, Debug, PartialEq, Eq, Structural)]
pub struct FileHeader {
    /// Object type.
    pub object_type: u16,
    /// Machine number.
    pub machine: u16,
    /// Entry point.
    pub entry: u64,
    /// Offset of the program header table.
    pub phoff: u64,
    /// Size of one program header.
    pub phentsize: u16,
    /// Number of program headers.
    pub phnum: u16,
}

/// The fields of a program header that a reader looks at.
#[derive(Clone, Copy, Debug, PartialEq, Eq, Structural)]
pub struct ProgramHeader {
    /// Segment type.
    pub kind: u32,
    /// Segment flags.
    pub flags: u32,
    /// Offset of the contents in the file.
    pub offset: u64,
    /// Virtual address.
    pub vaddr: u64,
    /// Bytes present in the file.
    pub file_len: u64,
    /// Bytes occupied in memory.
    pub mem_len: u64,
}

/// `s` starts as an ELF64 little-endian version 1 file does.
pub open spec fn is_elf64(s: Seq<u8>) -> bool {
    &&& s[0] == 0x7F && s[1] == 0x45 && s[2] == 0x4C && s[3] == 0x46
    &&& s[4] == 2 && s[5] == 1 && s[6] == 1
}

/// The file header that `s` starts with.
pub open spec fn file_header(s: Seq<u8>) -> FileHeader {
    FileHeader {
        object_type: le(s, 16, 2) as u16,
        machine: le(s, 18, 2) as u16,
        entry: le(s, 24, 8) as u64,
        phoff: le(s, 32, 8) as u64,
        phentsize: le(s, 54, 2) as u16,
        phnum: le(s, 56, 2) as u16,
    }
}

/// Offset of program header `i`.
pub open spec fn program_header_base(s: Seq<u8>, i: int) -> int {
    file_header(s).phoff + i * PROGRAM_HEADER_LEN
}

/// Program header `i`.
pub open spec fn program_header(s: Seq<u8>, i: int) -> ProgramHeader {
    let base = program_header_base(s, i);
    ProgramHeader {
        kind: le(s, base, 4) as u32,
        flags: le(s, base + 4, 4) as u32,
        offset: le(s, base + 8, 8) as u64,
        vaddr: le(s, base + 16, 8) as u64,
        file_len: le(s, base + 32, 8) as u64,
        mem_len: le(s, base + 40, 8) as u64,
    }
}

/// The program header table has an accepted shape and lies inside the file.
pub open spec fn program_headers_ok(s: Seq<u8>) -> bool {
    let h = file_header(s);
    &&& h.phentsize == PROGRAM_HEADER_LEN
    &&& 0 < h.phnum <= MAX_PROGRAM_HEADERS
    &&& program_header_base(s, h.phnum as int) <= s.len()
}

/// Whether `image` identifies itself as an ELF64 little-endian version 1 file.
pub fn identify(image: &[u8]) -> (yes: bool)
    requires
        image@.len() >= HEADER_LEN,
    ensures
        yes == is_elf64(image@),
{
    image[0] == 0x7F && image[1] == 0x45 && image[2] == 0x4C && image[3] == 0x46 && image[4] == 2
        && image[5] == 1 && image[6] == 1
}

impl FileHeader {
    /// Decodes the file header; `None` when the image is shorter than one.
    pub fn read(image: &[u8]) -> (header: Option<FileHeader>)
        ensures
            header == (if image@.len() >= HEADER_LEN {
                Some(file_header(image@))
            } else {
                None
            }),
    {
        if image.len() < HEADER_LEN {
            return None;
        }
        Some(
            FileHeader {
                object_type: read_u16(image, 16)?,
                machine: read_u16(image, 18)?,
                entry: read_u64(image, 24)?,
                phoff: read_u64(image, 32)?,
                phentsize: read_u16(image, 54)?,
                phnum: read_u16(image, 56)?,
            },
        )
    }

    /// Whether the program header table of `image`, whose header this is, has
    /// an accepted shape.
    pub fn program_headers_fit(&self, image: &[u8]) -> (yes: bool)
        requires
            *self == file_header(image@),
        ensures
            yes == program_headers_ok(image@),
    {
        if self.phentsize != PROGRAM_HEADER_LEN as u16 || self.phnum == 0 || self.phnum
            > MAX_PROGRAM_HEADERS {
            return false;
        }
        let table_len: u64 = (self.phnum as u64) * (PROGRAM_HEADER_LEN as u64);
        self.phoff <= image.len() as u64 && table_len <= image.len() as u64 - self.phoff
    }
}

impl ProgramHeader {
    /// Decodes program header `index` of `image`.
    pub fn read(image: &[u8], header: &FileHeader, index: u16) -> (ph: ProgramHeader)
        requires
            image@.len() >= HEADER_LEN,
            *header == file_header(image@),
            program_headers_ok(image@),
            index < header.phnum,
        ensures
            ph == program_header(image@, index as int),
    {
        let length: usize = image.len();
        let base: usize = header.phoff as usize + (index as usize) * PROGRAM_HEADER_LEN;
        assert(base + PROGRAM_HEADER_LEN <= image@.len());
        let empty = ProgramHeader {
            kind: 0,
            flags: 0,
            offset: 0,
            vaddr: 0,
            file_len: 0,
            mem_len: 0,
        };
        match (
            read_u32(image, base),
            read_u32(image, base + 4),
            read_u64(image, base + 8),
            read_u64(image, base + 16),
            read_u64(image, base + 32),
            read_u64(image, base + 40),
        ) {
            (
                Some(kind),
                Some(flags),
                Some(offset),
                Some(vaddr),
                Some(file_len),
                Some(mem_len),
            ) => ProgramHeader { kind, flags, offset, vaddr, file_len, mem_len },
            _ => empty,
        }
    }
}

} // verus!
