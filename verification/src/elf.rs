//! Bounded ELF64 reader for user images.
//!
//! Statically linked executables only: no dynamic section, no relocations, no
//! interpreter, a hard bound on the segment count, and every offset checked
//! against the image length. Anything that cannot be fully validated is
//! refused.

use vstd::prelude::*;

use crate::elf_header::{
    file_header, identify, is_elf64, program_header, program_headers_ok, FileHeader, ProgramHeader,
    EM_X86_64, ET_EXEC, HEADER_LEN, PF_R, PF_W, PF_X, PT_LOAD,
};
use crate::protocol::{PAGE_SIZE, USER_MAX_ADDR, USER_MIN_ADDR};

verus! {

/// Largest number of loadable segments accepted from one image.
pub const MAX_SEGMENTS: usize = 8;

/// Largest image accepted.
pub const MAX_IMAGE_BYTES: u64 = 4 * 1024 * 1024;

/// Largest total memory footprint accepted for one image's segments, zero
/// filled parts included.
pub const MAX_IMAGE_PAGES: u64 = 768;

/// Why an image was refused.
#[derive(Clone, Copy, PartialEq, Eq, Debug, Structural)]
pub enum Reject {
    /// Image shorter than an ELF header.
    TooShort,
    /// Image larger than the accepted bound.
    TooLarge,
    /// Not an ELF64 little-endian version 1 image.
    NotElf64,
    /// Not a statically linked executable for x86_64.
    WrongObjectType,
    /// Program header table missing, malformed or too large.
    BadProgramHeaders,
    /// A segment's file range lies outside the image.
    SegmentOutsideImage,
    /// A segment is not page aligned.
    SegmentUnaligned,
    /// The bytes in the file exceed the bytes in memory.
    SegmentFileLargerThanMemory,
    /// A segment lies outside the address range a user domain may map.
    SegmentOutsideUserRange,
    /// A segment is writable and executable.
    SegmentWriteAndExecute,
    /// A segment is not readable.
    SegmentWriteOrExecuteWithoutRead,
    /// Two segments cover the same page.
    SegmentOverlap,
    /// No loadable segment, or more than [`MAX_SEGMENTS`].
    SegmentCount,
    /// Total footprint exceeds [`MAX_IMAGE_PAGES`].
    ImageTooManyPages,
    /// The entry point is not inside an executable segment.
    EntryNotExecutable,
}

impl Reject {
    /// The name [`Reject::name`] returns.
    pub open spec fn name_spec(self) -> Seq<char> {
        match self {
            Reject::TooShort => "too_short"@,
            Reject::TooLarge => "too_large"@,
            Reject::NotElf64 => "not_elf64"@,
            Reject::WrongObjectType => "wrong_object_type"@,
            Reject::BadProgramHeaders => "bad_program_headers"@,
            Reject::SegmentOutsideImage => "segment_outside_image"@,
            Reject::SegmentUnaligned => "segment_unaligned"@,
            Reject::SegmentFileLargerThanMemory => "segment_filesz_gt_memsz"@,
            Reject::SegmentOutsideUserRange => "segment_outside_user_range"@,
            Reject::SegmentWriteAndExecute => "segment_write_and_execute"@,
            Reject::SegmentWriteOrExecuteWithoutRead => "segment_write_or_execute_without_read"@,
            Reject::SegmentOverlap => "segment_overlap"@,
            Reject::SegmentCount => "segment_count"@,
            Reject::ImageTooManyPages => "image_too_many_pages"@,
            Reject::EntryNotExecutable => "entry_not_executable"@,
        }
    }

    /// Short name used in diagnostic records.
    pub fn name(self) -> (text: &'static str)
        ensures
            text@ == self.name_spec(),
    {
        match self {
            Reject::TooShort => "too_short",
            Reject::TooLarge => "too_large",
            Reject::NotElf64 => "not_elf64",
            Reject::WrongObjectType => "wrong_object_type",
            Reject::BadProgramHeaders => "bad_program_headers",
            Reject::SegmentOutsideImage => "segment_outside_image",
            Reject::SegmentUnaligned => "segment_unaligned",
            Reject::SegmentFileLargerThanMemory => "segment_filesz_gt_memsz",
            Reject::SegmentOutsideUserRange => "segment_outside_user_range",
            Reject::SegmentWriteAndExecute => "segment_write_and_execute",
            Reject::SegmentWriteOrExecuteWithoutRead => "segment_write_or_execute_without_read",
            Reject::SegmentOverlap => "segment_overlap",
            Reject::SegmentCount => "segment_count",
            Reject::ImageTooManyPages => "image_too_many_pages",
            Reject::EntryNotExecutable => "entry_not_executable",
        }
    }
}

/// A validated loadable segment.
#[derive(Clone, Copy, Debug, PartialEq, Eq, Structural)]
pub struct Segment {
    /// Page-aligned virtual base.
    pub vaddr: u64,
    /// Byte offset of the segment's contents in the image.
    pub file_offset: usize,
    /// Bytes present in the image.
    pub file_len: usize,
    /// Bytes the segment occupies in memory; the excess is zero filled.
    pub mem_len: u64,
    /// Readable.
    pub read: bool,
    /// Writable.
    pub write: bool,
    /// Executable.
    pub execute: bool,
}

impl Segment {
    /// Pages the segment occupies.
    pub open spec fn page_count(self) -> int {
        (self.mem_len + PAGE_SIZE - 1) / PAGE_SIZE as int
    }

    /// One past the last page the segment touches.
    pub open spec fn page_end(self) -> int {
        self.vaddr + self.page_count() * PAGE_SIZE
    }

    /// The segment and `other` touch a common page.
    pub open spec fn meets(self, other: Segment) -> bool {
        self.vaddr < other.page_end() && other.vaddr < self.page_end()
    }

    /// `address` lies in the segment.
    pub open spec fn holds(self, address: int) -> bool {
        self.vaddr <= address < self.vaddr + self.mem_len
    }

    /// Pages the segment occupies.
    pub fn pages(&self) -> (count: u64)
        ensures
            count == self.page_count(),
    {
        let whole: u64 = self.mem_len / PAGE_SIZE;
        if self.mem_len % PAGE_SIZE == 0 {
            whole
        } else {
            whole + 1
        }
    }
}

/// A validated image.
#[derive(Clone, Copy, Debug)]
pub struct Image {
    /// Entry point virtual address.
    pub entry: u64,
    /// Validated loadable segments.
    pub segments: [Segment; MAX_SEGMENTS],
    /// Number of valid entries in `segments`.
    pub segment_count: usize,
    /// Total pages the segments occupy.
    pub pages: u64,
}

impl Image {
    /// The validated segments.
    pub open spec fn loaded(self) -> Seq<Segment> {
        self.segments@.take(self.segment_count as int)
    }
}

/// Pages that `segments` occupy together.
pub open spec fn footprint(segments: Seq<Segment>) -> int
    decreases segments.len(),
{
    if segments.len() == 0 {
        0
    } else {
        footprint(segments.drop_last()) + segments.last().page_count()
    }
}

/// The segment that a program header describes.
pub open spec fn segment_of(ph: ProgramHeader) -> Segment {
    Segment {
        vaddr: ph.vaddr,
        file_offset: ph.offset as usize,
        file_len: ph.file_len as usize,
        mem_len: ph.mem_len,
        read: ph.flags & PF_R != 0,
        write: ph.flags & PF_W != 0,
        execute: ph.flags & PF_X != 0,
    }
}

/// What is wrong with the file header or the extent of the program headers.
pub open spec fn header_fault(s: Seq<u8>) -> Option<Reject> {
    if s.len() > MAX_IMAGE_BYTES {
        Some(Reject::TooLarge)
    } else if s.len() < HEADER_LEN {
        Some(Reject::TooShort)
    } else if !is_elf64(s) {
        Some(Reject::NotElf64)
    } else if file_header(s).object_type != ET_EXEC || file_header(s).machine != EM_X86_64 {
        Some(Reject::WrongObjectType)
    } else if !program_headers_ok(s) {
        Some(Reject::BadProgramHeaders)
    } else {
        None
    }
}

/// What is wrong with the loadable, non-empty segment `ph` of an image of
/// `length` bytes, taken on its own.
pub open spec fn segment_fault(ph: ProgramHeader, length: int) -> Option<Reject> {
    let segment = segment_of(ph);
    if ph.file_len > ph.mem_len {
        Some(Reject::SegmentFileLargerThanMemory)
    } else if ph.offset + ph.file_len > length {
        Some(Reject::SegmentOutsideImage)
    } else if ph.vaddr % PAGE_SIZE != 0 {
        Some(Reject::SegmentUnaligned)
    } else if ph.vaddr < USER_MIN_ADDR || ph.vaddr + ph.mem_len > USER_MAX_ADDR {
        Some(Reject::SegmentOutsideUserRange)
    } else if segment.write && segment.execute {
        Some(Reject::SegmentWriteAndExecute)
    } else if !segment.read {
        Some(Reject::SegmentWriteOrExecuteWithoutRead)
    } else {
        None
    }
}

/// Adds the segment of `ph` to the segments accepted before it.
pub open spec fn accept(
    ph: ProgramHeader,
    length: int,
    before: Seq<Segment>,
) -> Result<Seq<Segment>, Reject> {
    let segment = segment_of(ph);
    if ph.kind != PT_LOAD {
        Ok(before)
    } else if before.len() == MAX_SEGMENTS {
        Err(Reject::SegmentCount)
    } else if ph.mem_len == 0 {
        Ok(before)
    } else if segment_fault(ph, length) is Some {
        Err(segment_fault(ph, length)->0)
    } else if exists|k: int| 0 <= k < before.len() && segment.meets(#[trigger] before[k]) {
        Err(Reject::SegmentOverlap)
    } else if footprint(before) + segment.page_count() > MAX_IMAGE_PAGES {
        Err(Reject::ImageTooManyPages)
    } else {
        Ok(before.push(segment))
    }
}

/// The segments that the first `n` program headers of `s` give, or the first
/// fault among them.
pub open spec fn accept_all(s: Seq<u8>, n: int) -> Result<Seq<Segment>, Reject>
    decreases n,
{
    if n <= 0 {
        Ok(Seq::empty())
    } else {
        match accept_all(s, n - 1) {
            Ok(before) => accept(program_header(s, n - 1), s.len() as int, before),
            Err(e) => Err(e),
        }
    }
}

/// Some executable segment holds `entry`.
pub open spec fn entry_is_executable(segments: Seq<Segment>, entry: int) -> bool {
    exists|k: int|
        0 <= k < segments.len() && #[trigger] segments[k].execute && segments[k].holds(entry)
}

/// The segments of the image `s`, or why it is refused.
pub open spec fn judge(s: Seq<u8>) -> Result<Seq<Segment>, Reject> {
    if header_fault(s) is Some {
        Err(header_fault(s)->0)
    } else {
        match accept_all(s, file_header(s).phnum as int) {
            Err(e) => Err(e),
            Ok(segments) => if segments.len() == 0 {
                Err(Reject::SegmentCount)
            } else if !entry_is_executable(segments, file_header(s).entry as int) {
                Err(Reject::EntryNotExecutable)
            } else {
                Ok(segments)
            },
        }
    }
}

/// A fault among the first `n` headers is the fault of the whole table.
proof fn fault_persists(s: Seq<u8>, n: int, m: int)
    requires
        0 <= n <= m,
        accept_all(s, n) is Err,
    ensures
        accept_all(s, m) == accept_all(s, n),
    decreases m,
{
    if n < m {
        fault_persists(s, n, m - 1);
    }
}

/// Judges one program header on its own.
fn judge_segment(ph: &ProgramHeader, length: usize) -> (fault: Option<Reject>)
    ensures
        fault == segment_fault(*ph, length as int),
{
    if ph.file_len > ph.mem_len {
        return Some(Reject::SegmentFileLargerThanMemory);
    }
    if ph.offset > length as u64 || ph.file_len > length as u64 - ph.offset {
        return Some(Reject::SegmentOutsideImage);
    }
    if ph.vaddr % PAGE_SIZE != 0 {
        return Some(Reject::SegmentUnaligned);
    }
    if ph.vaddr < USER_MIN_ADDR || ph.vaddr > USER_MAX_ADDR || ph.mem_len > USER_MAX_ADDR
        - ph.vaddr {
        return Some(Reject::SegmentOutsideUserRange);
    }
    let read = ph.flags & PF_R != 0;
    let write = ph.flags & PF_W != 0;
    let execute = ph.flags & PF_X != 0;
    if write && execute {
        return Some(Reject::SegmentWriteAndExecute);
    }
    if !read {
        return Some(Reject::SegmentWriteOrExecuteWithoutRead);
    }
    None
}

/// Judges one program header against the first `count` of `segments`, which
/// occupy `pages` pages: the segment to add, if there is one.
fn consider(
    ph: &ProgramHeader,
    length: usize,
    segments: &[Segment; MAX_SEGMENTS],
    count: usize,
    pages: u64,
) -> (verdict: Result<Option<Segment>, Reject>)
    requires
        count <= MAX_SEGMENTS,
        pages == footprint(segments@.take(count as int)),
        pages <= MAX_IMAGE_PAGES,
        forall|k: int|
            0 <= k < count ==> (#[trigger] segments@[k]).vaddr + segments@[k].mem_len
                <= USER_MAX_ADDR,
    ensures
        match verdict {
            Ok(None) => accept(*ph, length as int, segments@.take(count as int)) == Ok::<
                Seq<Segment>,
                Reject,
            >(segments@.take(count as int)),
            Ok(Some(segment)) => {
                &&& count < MAX_SEGMENTS
                &&& segment == segment_of(*ph)
                &&& segment.vaddr + segment.mem_len <= USER_MAX_ADDR
                &&& pages + segment.page_count() <= MAX_IMAGE_PAGES
                &&& accept(*ph, length as int, segments@.take(count as int)) == Ok::<
                    Seq<Segment>,
                    Reject,
                >(segments@.take(count as int).push(segment))
            },
            Err(e) => accept(*ph, length as int, segments@.take(count as int)) == Err::<
                Seq<Segment>,
                Reject,
            >(e),
        },
{
    let ghost before = segments@.take(count as int);
    if ph.kind != PT_LOAD {
        return Ok(None);
    }
    if count == MAX_SEGMENTS {
        return Err(Reject::SegmentCount);
    }
    if ph.mem_len == 0 {
        return Ok(None);
    }
    if let Some(fault) = judge_segment(ph, length) {
        return Err(fault);
    }
    let segment = Segment {
        vaddr: ph.vaddr,
        file_offset: ph.offset as usize,
        file_len: ph.file_len as usize,
        mem_len: ph.mem_len,
        read: ph.flags & PF_R != 0,
        write: ph.flags & PF_W != 0,
        execute: ph.flags & PF_X != 0,
    };
    let start: u64 = segment.vaddr;
    let end: u64 = segment.vaddr + segment.pages() * PAGE_SIZE;
    for other in 0..count
        invariant
            count < MAX_SEGMENTS,
            before == segments@.take(count as int),
            ph.kind == PT_LOAD,
            ph.mem_len != 0,
            segment_fault(*ph, length as int) is None,
            segment == segment_of(*ph),
            start == segment.vaddr,
            end == segment.page_end(),
            forall|k: int|
                0 <= k < count ==> (#[trigger] segments@[k]).vaddr + segments@[k].mem_len
                    <= USER_MAX_ADDR,
            forall|k: int| 0 <= k < other ==> !segment.meets(#[trigger] before[k]),
    {
        assert(before[other as int] == segments@[other as int]);
        let other_start: u64 = segments[other].vaddr;
        let other_end: u64 = segments[other].vaddr + segments[other].pages() * PAGE_SIZE;
        if start < other_end && other_start < end {
            assert(segment.meets(before[other as int]));
            return Err(Reject::SegmentOverlap);
        }
    }
    if segment.pages() > MAX_IMAGE_PAGES - pages {
        return Err(Reject::ImageTooManyPages);
    }
    Ok(Some(segment))
}

/// Whether one of the first `count` segments is executable and holds `entry`.
fn entry_fits(segments: &[Segment; MAX_SEGMENTS], count: usize, entry: u64) -> (yes: bool)
    requires
        count <= MAX_SEGMENTS,
        forall|k: int|
            0 <= k < count ==> (#[trigger] segments@[k]).vaddr + segments@[k].mem_len
                <= USER_MAX_ADDR,
    ensures
        yes == entry_is_executable(segments@.take(count as int), entry as int),
{
    let ghost taken = segments@.take(count as int);
    for k in 0..count
        invariant
            count <= MAX_SEGMENTS,
            taken == segments@.take(count as int),
            forall|j: int|
                0 <= j < count ==> (#[trigger] segments@[j]).vaddr + segments@[j].mem_len
                    <= USER_MAX_ADDR,
            forall|j: int|
                0 <= j < k ==> !(#[trigger] taken[j].execute && taken[j].holds(entry as int)),
    {
        assert(taken[k as int] == segments@[k as int]);
        if segments[k].execute && entry >= segments[k].vaddr && entry < segments[k].vaddr
            + segments[k].mem_len {
            assert(taken[k as int].execute && taken[k as int].holds(entry as int));
            return true;
        }
    }
    false
}

/// Validates a user image.
pub fn parse_user_image(image: &[u8]) -> (result: Result<Image, Reject>)
    ensures
        match judge(image@) {
            Ok(segments) => {
                &&& result matches Ok(parsed)
                &&& parsed.entry == file_header(image@).entry
                &&& parsed.segment_count == segments.len()
                &&& parsed.segment_count <= MAX_SEGMENTS
                &&& parsed.loaded() == segments
                &&& parsed.pages == footprint(segments)
            },
            Err(e) => result == Err::<Image, Reject>(e),
        },
{
    if image.len() as u64 > MAX_IMAGE_BYTES {
        return Err(Reject::TooLarge);
    }
    let header = match FileHeader::read(image) {
        Some(header) => header,
        None => return Err(Reject::TooShort),
    };
    if !identify(image) {
        return Err(Reject::NotElf64);
    }
    if header.object_type != ET_EXEC || header.machine != EM_X86_64 {
        return Err(Reject::WrongObjectType);
    }
    if !header.program_headers_fit(image) {
        return Err(Reject::BadProgramHeaders);
    }
    let blank = Segment {
        vaddr: 0,
        file_offset: 0,
        file_len: 0,
        mem_len: 0,
        read: false,
        write: false,
        execute: false,
    };
    let mut segments: [Segment; MAX_SEGMENTS] = [blank; MAX_SEGMENTS];
    let mut count: usize = 0;
    let mut pages: u64 = 0;
    let ghost s = image@;
    assert(segments@.take(0) =~= Seq::<Segment>::empty());
    for index in 0..header.phnum
        invariant
            s == image@,
            header_fault(s) is None,
            header == file_header(s),
            count <= MAX_SEGMENTS,
            accept_all(s, index as int) == Ok::<Seq<Segment>, Reject>(
                segments@.take(count as int),
            ),
            pages == footprint(segments@.take(count as int)),
            pages <= MAX_IMAGE_PAGES,
            forall|k: int|
                0 <= k < count ==> (#[trigger] segments@[k]).vaddr + segments@[k].mem_len
                    <= USER_MAX_ADDR,
    {
        let ph = ProgramHeader::read(image, &header, index);
        let ghost before = segments@.take(count as int);
        match consider(&ph, image.len(), &segments, count, pages) {
            Ok(None) => {},
            Ok(Some(segment)) => {
                pages += segment.pages();
                segments[count] = segment;
                count += 1;
                assert(segments@.take(count as int) =~= before.push(segment));
                assert(before.push(segment).drop_last() =~= before);
            },
            Err(fault) => {
                proof {
                    fault_persists(s, index + 1, header.phnum as int);
                }
                return Err(fault);
            },
        }
    }
    if count == 0 {
        return Err(Reject::SegmentCount);
    }
    if !entry_fits(&segments, count, header.entry) {
        return Err(Reject::EntryNotExecutable);
    }
    Ok(Image { entry: header.entry, segments, segment_count: count, pages })
}

/// What the segments of an accepted image promise, one by one and in pairs.
pub open spec fn segments_are_sound(segments: Seq<Segment>, length: int) -> bool {
    &&& forall|k: int|
        0 <= k < segments.len() ==> {
            let g = #[trigger] segments[k];
            &&& g.vaddr % PAGE_SIZE == 0
            &&& USER_MIN_ADDR <= g.vaddr
            &&& g.mem_len > 0
            &&& g.page_end() <= USER_MAX_ADDR
            &&& g.file_len <= g.mem_len
            &&& g.file_offset + g.file_len <= length
            &&& g.read
            &&& !(g.write && g.execute)
        }
    &&& forall|j: int, k: int|
        0 <= j < k < segments.len() ==> !(#[trigger] segments[j]).meets(#[trigger] segments[k])
}

proof fn accepted_prefix_is_sound(s: Seq<u8>, n: int)
    requires
        header_fault(s) is None,
        accept_all(s, n) is Ok,
        s.len() <= usize::MAX,
    ensures
        segments_are_sound(accept_all(s, n)->Ok_0, s.len() as int),
        accept_all(s, n)->Ok_0.len() <= MAX_SEGMENTS,
        footprint(accept_all(s, n)->Ok_0) <= MAX_IMAGE_PAGES,
    decreases n,
{
    if n > 0 {
        accepted_prefix_is_sound(s, n - 1);
        let before = accept_all(s, n - 1)->Ok_0;
        let after = accept_all(s, n)->Ok_0;
        if after != before {
            let segment = segment_of(program_header(s, n - 1));
            assert(after == before.push(segment));
            assert(after.drop_last() =~= before);
        }
    }
}

/// Every segment of an accepted image is page aligned, readable, never both
/// writable and executable, inside the user range, backed by bytes of the
/// image, and shares no page with another; together they stay inside the
/// footprint bound; and the entry point lies in an executable one.
pub proof fn accepted_image_is_sound(s: Seq<u8>)
    requires
        judge(s) is Ok,
        s.len() <= usize::MAX,
    ensures
        segments_are_sound(judge(s)->Ok_0, s.len() as int),
        0 < judge(s)->Ok_0.len() <= MAX_SEGMENTS,
        footprint(judge(s)->Ok_0) <= MAX_IMAGE_PAGES,
        entry_is_executable(judge(s)->Ok_0, file_header(s).entry as int),
{
    accepted_prefix_is_sound(s, file_header(s).phnum as int);
}

} // verus!
