//! Boot package validation.
//!
//! The package is the first untrusted input the system sees. Every field is
//! read from a bounds-checked offset and every range is checked against the
//! file length without overflow.

use vstd::prelude::*;

use crate::bytes::le;
use crate::protocol::{module_kind, package, MAX_MODULES};

verus! {

/// Why a package was refused.
#[derive(Clone, Copy, PartialEq, Eq, Debug, Structural)]
pub enum Reject {
    /// Shorter than a package header.
    TooShort,
    /// Magic value does not match.
    BadMagic,
    /// Major version not recognised.
    IncompatibleVersion,
    /// Header or entry size does not match this version.
    BadLayout,
    /// `total_len` disagrees with the file length.
    LengthMismatch,
    /// More entries than the hand-off can carry.
    TooManyEntries,
    /// The directory does not fit inside the file.
    DirectoryOutsideFile,
    /// An entry's payload does not fit inside the file.
    EntryOutsideFile,
    /// An entry's payload overlaps the directory or another entry.
    EntryOverlap,
    /// An entry is empty.
    EmptyEntry,
    /// An entry's name is not NUL-terminated printable ASCII.
    BadName,
    /// An entry declares a module kind this loader does not carry.
    UnknownKind,
}

impl Reject {
    /// The name [`Reject::name`] returns.
    pub open spec fn name_spec(self) -> Seq<char> {
        match self {
            Reject::TooShort => "too_short"@,
            Reject::BadMagic => "bad_magic"@,
            Reject::IncompatibleVersion => "incompatible_version"@,
            Reject::BadLayout => "bad_layout"@,
            Reject::LengthMismatch => "length_mismatch"@,
            Reject::TooManyEntries => "too_many_entries"@,
            Reject::DirectoryOutsideFile => "directory_outside_file"@,
            Reject::EntryOutsideFile => "entry_outside_file"@,
            Reject::EntryOverlap => "entry_overlap"@,
            Reject::EmptyEntry => "empty_entry"@,
            Reject::BadName => "bad_name"@,
            Reject::UnknownKind => "unknown_kind"@,
        }
    }

    /// Short name used in diagnostic records.
    pub fn name(self) -> (text: &'static str)
        ensures
            text@ == self.name_spec(),
    {
        match self {
            Reject::TooShort => "too_short",
            Reject::BadMagic => "bad_magic",
            Reject::IncompatibleVersion => "incompatible_version",
            Reject::BadLayout => "bad_layout",
            Reject::LengthMismatch => "length_mismatch",
            Reject::TooManyEntries => "too_many_entries",
            Reject::DirectoryOutsideFile => "directory_outside_file",
            Reject::EntryOutsideFile => "entry_outside_file",
            Reject::EntryOverlap => "entry_overlap",
            Reject::EmptyEntry => "empty_entry",
            Reject::BadName => "bad_name",
            Reject::UnknownKind => "unknown_kind",
        }
    }
}

/// A validated directory entry.
#[derive(Clone, Copy, Debug)]
pub struct Entry {
    /// NUL-padded name.
    pub name: [u8; 32],
    /// Payload offset from the start of the package.
    pub offset: usize,
    /// Payload length.
    pub length: usize,
    /// Module kind.
    pub kind: u32,
    /// Module flags.
    pub flags: u32,
}

/// A validated package directory.
#[derive(Clone, Copy, Debug)]
pub struct Directory {
    /// Validated entries.
    pub entries: [Entry; MAX_MODULES],
    /// Number of valid entries.
    pub count: usize,
}

/// Offset of directory record `i` in the file.
pub open spec fn record_base(i: int) -> int {
    package::HEADER_LEN + i * package::ENTRY_LEN
}

/// Number of directory records the header announces.
pub open spec fn record_count(s: Seq<u8>) -> nat {
    le(s, 16, 4)
}

/// Name field of directory record `i`.
pub open spec fn record_name(s: Seq<u8>, i: int) -> Seq<u8> {
    s.subrange(record_base(i), record_base(i) + 32)
}

/// Payload offset of directory record `i`.
pub open spec fn record_offset(s: Seq<u8>, i: int) -> nat {
    le(s, record_base(i) + 32, 8)
}

/// Payload length of directory record `i`.
pub open spec fn record_length(s: Seq<u8>, i: int) -> nat {
    le(s, record_base(i) + 40, 8)
}

/// Module kind of directory record `i`.
pub open spec fn record_kind(s: Seq<u8>, i: int) -> nat {
    le(s, record_base(i) + 48, 4)
}

/// Module flags of directory record `i`.
pub open spec fn record_flags(s: Seq<u8>, i: int) -> nat {
    le(s, record_base(i) + 52, 4)
}

/// One past the last byte of payload `i`.
pub open spec fn record_end(s: Seq<u8>, i: int) -> nat {
    record_offset(s, i) + record_length(s, i)
}

/// Printable ASCII other than the space.
pub open spec fn is_graphic(b: u8) -> bool {
    0x21 <= b <= 0x7E
}

/// `name` is `t` graphic bytes followed by NUL bytes only.
pub open spec fn is_padded_name(name: Seq<u8>, t: int) -> bool {
    &&& 0 < t < name.len()
    &&& forall|k: int| 0 <= k < t ==> is_graphic(#[trigger] name[k])
    &&& forall|k: int| t <= k < name.len() ==> #[trigger] name[k] == 0
}

/// A non-empty, NUL-terminated, NUL-padded graphic name.
pub open spec fn good_name(name: Seq<u8>) -> bool {
    exists|t: int| is_padded_name(name, t)
}

/// The payloads of records `i` and `j` share a byte.
pub open spec fn payloads_overlap(s: Seq<u8>, i: int, j: int) -> bool {
    record_offset(s, i) < record_end(s, j) && record_offset(s, j) < record_end(s, i)
}

/// What is wrong with the header and the extent of the directory, if anything.
pub open spec fn header_fault(s: Seq<u8>) -> Option<Reject> {
    if s.len() < package::HEADER_LEN {
        Some(Reject::TooShort)
    } else if le(s, 0, 8) != package::MAGIC {
        Some(Reject::BadMagic)
    } else if le(s, 8, 2) != package::VERSION_MAJOR {
        Some(Reject::IncompatibleVersion)
    } else if le(s, 12, 4) != package::HEADER_LEN || le(s, 20, 4) != package::ENTRY_LEN {
        Some(Reject::BadLayout)
    } else if le(s, 24, 8) != s.len() {
        Some(Reject::LengthMismatch)
    } else if record_count(s) > MAX_MODULES {
        Some(Reject::TooManyEntries)
    } else if record_base(record_count(s) as int) > s.len() {
        Some(Reject::DirectoryOutsideFile)
    } else {
        None
    }
}

/// What is wrong with record `i`, given that the records before it are fine.
pub open spec fn record_fault(s: Seq<u8>, i: int) -> Option<Reject> {
    if !good_name(record_name(s, i)) {
        Some(Reject::BadName)
    } else if record_length(s, i) == 0 {
        Some(Reject::EmptyEntry)
    } else if record_end(s, i) > s.len() {
        Some(Reject::EntryOutsideFile)
    } else if record_offset(s, i) < record_base(record_count(s) as int) {
        Some(Reject::EntryOverlap)
    } else if record_kind(s, i) != module_kind::USER_ELF && record_kind(s, i)
        != module_kind::SUPERVISOR {
        Some(Reject::UnknownKind)
    } else if exists|j: int| 0 <= j < i && payloads_overlap(s, i, j) {
        Some(Reject::EntryOverlap)
    } else {
        None
    }
}

/// `e` holds the fields of record `i`.
pub open spec fn is_record(e: Entry, s: Seq<u8>, i: int) -> bool {
    &&& e.name@ == record_name(s, i)
    &&& e.offset == record_offset(s, i)
    &&& e.length == record_length(s, i)
    &&& e.kind == record_kind(s, i)
    &&& e.flags == record_flags(s, i)
}

impl Entry {
    /// Every field is zero.
    pub open spec fn is_blank(self) -> bool {
        &&& self.name@ == Seq::new(32, |k: int| 0u8)
        &&& self.offset == 0
        &&& self.length == 0
        &&& self.kind == 0
        &&& self.flags == 0
    }

    fn blank() -> (e: Entry)
        ensures
            e.is_blank(),
    {
        let name: [u8; 32] = [0; 32];
        assert(name@ =~= Seq::new(32, |k: int| 0u8));
        Entry { name, offset: 0, length: 0, kind: 0, flags: 0 }
    }
}

impl Directory {
    /// The directory of the package file `s`: one entry per record, in order,
    /// and blank entries behind them.
    pub open spec fn is_directory_of(self, s: Seq<u8>) -> bool {
        &&& self.count == record_count(s)
        &&& self.count <= MAX_MODULES
        &&& forall|i: int|
            0 <= i < self.count ==> is_record(#[trigger] self.entries@[i], s, i)
        &&& forall|i: int|
            self.count <= i < MAX_MODULES ==> (#[trigger] self.entries@[i]).is_blank()
    }
}

/// Whether `name` is non-empty graphic ASCII padded with NUL bytes.
fn name_is_good(name: &[u8; 32]) -> (good: bool)
    ensures
        good == good_name(name@),
{
    let mut terminator: usize = 0;
    while terminator < 32 && name[terminator] != 0
        invariant
            terminator <= 32,
            forall|k: int| 0 <= k < terminator ==> name@[k] != 0,
        decreases 32 - terminator,
    {
        terminator += 1;
    }
    if terminator == 32 || terminator == 0 {
        proof {
            if good_name(name@) {
                let t = choose|t: int| is_padded_name(name@, t);
                assert(name@[t] == 0);
                assert(is_graphic(name@[0]));
            }
        }
        return false;
    }
    let mut i: usize = 0;
    while i < 32
        invariant
            i <= 32,
            0 < terminator < 32,
            name@[terminator as int] == 0,
            forall|k: int| 0 <= k < terminator ==> name@[k] != 0,
            forall|k: int| 0 <= k < i && k < terminator ==> is_graphic(#[trigger] name@[k]),
            forall|k: int| terminator <= k < i ==> #[trigger] name@[k] == 0,
        decreases 32 - i,
    {
        let byte: u8 = name[i];
        if (i < terminator && (byte < 0x21 || byte > 0x7E)) || (i >= terminator && byte != 0) {
            proof {
                if good_name(name@) {
                    let t = choose|t: int| is_padded_name(name@, t);
                    assert(name@[t] == 0);
                    assert(t >= terminator);
                    assert(t > terminator ==> is_graphic(name@[terminator as int]));
                    assert(t == terminator);
                    assert(i < terminator ==> is_graphic(name@[i as int]));
                    assert(false);
                }
            }
            return false;
        }
        i += 1;
    }
    assert(is_padded_name(name@, terminator as int));
    true
}

/// Validates a package file.
///
/// The result is the directory of the file, or the first fault found: the
/// header is judged first, then the records in order.
pub fn parse(bytes: &[u8]) -> (result: Result<Directory, Reject>)
    ensures
        match result {
            Ok(d) => {
                &&& header_fault(bytes@) is None
                &&& forall|i: int|
                    0 <= i < record_count(bytes@) ==> #[trigger] record_fault(bytes@, i) is None
                &&& d.is_directory_of(bytes@)
            },
            Err(e) => {
                ||| header_fault(bytes@) == Some(e)
                ||| {
                    &&& header_fault(bytes@) is None
                    &&& exists|i: int|
                        {
                            &&& 0 <= i < record_count(bytes@)
                            &&& #[trigger] record_fault(bytes@, i) == Some(e)
                            &&& forall|j: int|
                                0 <= j < i ==> #[trigger] record_fault(bytes@, j) is None
                        }
                }
            },
        },
{
    let header = match package::Header::read(bytes) {
        Some(header) => header,
        None => return Err(Reject::TooShort),
    };
    if header.magic != package::MAGIC {
        return Err(Reject::BadMagic);
    }
    if header.version_major != package::VERSION_MAJOR {
        return Err(Reject::IncompatibleVersion);
    }
    if header.header_len != package::HEADER_LEN as u32 || header.entry_size
        != package::ENTRY_LEN as u32 {
        return Err(Reject::BadLayout);
    }
    if header.total_len != bytes.len() as u64 {
        return Err(Reject::LengthMismatch);
    }
    if header.entry_count > MAX_MODULES as u32 {
        return Err(Reject::TooManyEntries);
    }
    let count: usize = header.entry_count as usize;
    let directory_end: usize = package::HEADER_LEN + count * package::ENTRY_LEN;
    if directory_end > bytes.len() {
        return Err(Reject::DirectoryOutsideFile);
    }
    let blank = Entry::blank();
    let mut entries: [Entry; MAX_MODULES] = [blank; MAX_MODULES];
    let ghost s = bytes@;
    for index in 0..count
        invariant
            s == bytes@,
            header_fault(s) is None,
            count == record_count(s),
            count <= MAX_MODULES,
            directory_end == record_base(count as int),
            directory_end <= s.len() <= usize::MAX,
            forall|i: int| 0 <= i < index ==> #[trigger] record_fault(s, i) is None,
            forall|i: int| 0 <= i < index ==> is_record(#[trigger] entries@[i], s, i),
            forall|i: int| index <= i < MAX_MODULES ==> (#[trigger] entries@[i]).is_blank(),
    {
        let base: usize = package::HEADER_LEN + index * package::ENTRY_LEN;
        let record = match package::Entry::read(bytes, base) {
            Some(record) => record,
            None => return Err(Reject::DirectoryOutsideFile),
        };
        assert(record.name@ == record_name(s, index as int));
        if !name_is_good(&record.name) {
            assert(record_fault(s, index as int) == Some(Reject::BadName));
            return Err(Reject::BadName);
        }
        if record.length == 0 {
            assert(record_fault(s, index as int) == Some(Reject::EmptyEntry));
            return Err(Reject::EmptyEntry);
        }
        if record.offset > bytes.len() as u64 || record.length > bytes.len() as u64
            - record.offset {
            assert(record_fault(s, index as int) == Some(Reject::EntryOutsideFile));
            return Err(Reject::EntryOutsideFile);
        }
        if record.offset < directory_end as u64 {
            assert(record_fault(s, index as int) == Some(Reject::EntryOverlap));
            return Err(Reject::EntryOverlap);
        }
        if record.kind != module_kind::USER_ELF && record.kind != module_kind::SUPERVISOR {
            assert(record_fault(s, index as int) == Some(Reject::UnknownKind));
            return Err(Reject::UnknownKind);
        }
        let end: u64 = record.offset + record.length;
        for other in 0..index
            invariant
                s == bytes@,
                header_fault(s) is None,
                index < count == record_count(s),
                record_fault(s, index as int) is None || record_fault(s, index as int) == Some(
                    Reject::EntryOverlap,
                ),
                end == record_end(s, index as int),
                record.offset == record_offset(s, index as int),
                s.len() <= usize::MAX,
                forall|i: int| 0 <= i < index ==> #[trigger] record_fault(s, i) is None,
                forall|i: int| 0 <= i < index ==> is_record(#[trigger] entries@[i], s, i),
                forall|j: int| 0 <= j < other ==> !payloads_overlap(s, index as int, j),
        {
            assert(record_fault(s, other as int) is None);
            let other_start: u64 = entries[other].offset as u64;
            let other_end: u64 = other_start + entries[other].length as u64;
            if record.offset < other_end && other_start < end {
                assert(payloads_overlap(s, index as int, other as int));
                assert(record_fault(s, index as int) == Some(Reject::EntryOverlap));
                return Err(Reject::EntryOverlap);
            }
        }
        assert(record_fault(s, index as int) is None);
        entries[index] = Entry {
            name: record.name,
            offset: record.offset as usize,
            length: record.length as usize,
            kind: record.kind,
            flags: record.flags,
        };
    }
    Ok(Directory { entries, count })
}

/// In an accepted package every payload is non-empty, lies behind the directory
/// and inside the file, and no two payloads share a byte.
pub proof fn accepted_payloads_are_separate(s: Seq<u8>, i: int, j: int)
    requires
        header_fault(s) is None,
        forall|k: int| 0 <= k < record_count(s) ==> #[trigger] record_fault(s, k) is None,
        0 <= i < record_count(s),
        0 <= j < record_count(s),
        i != j,
    ensures
        record_base(record_count(s) as int) <= record_offset(s, i) < record_end(s, i) <= s.len(),
        !payloads_overlap(s, i, j),
{
    assert(record_fault(s, i) is None);
    assert(record_fault(s, j) is None);
    if i < j {
        assert(!payloads_overlap(s, j, i));
    } else {
        assert(!payloads_overlap(s, i, j));
    }
}

} // verus!
