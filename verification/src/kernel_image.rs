//! Checks a kernel image: ELF64, little endian, x86-64, `ET_EXEC`, and where its segments go.
//!
//! Only `ET_EXEC` is accepted: the boot loader copies segments and jumps, it does not relocate, so
//! a position-independent image has to be refused.

use vstd::prelude::*;
use vstd::string::*;

use crate::bytes::{read_u16, read_u32, read_u64, u16_at, u32_at, u64_at};
use crate::laws::image::law_which_images_are_accepted;
use crate::math::{is_power_of_two, power_of_two};
use crate::text::{decimal, push_decimal};

verus! {

/// Length of an ELF64 header.
pub const ELF_HEADER_MIN_LEN: usize = 64;

/// Offset of the file class.
pub const EI_CLASS: usize = 4;

/// Offset of the byte order.
pub const EI_DATA: usize = 5;

/// Offset of the file type.
pub const E_TYPE_OFFSET: usize = 16;

/// Offset of the machine.
pub const E_MACHINE_OFFSET: usize = 18;

/// Offset of the entry point.
pub const E_ENTRY_OFFSET: usize = 24;

/// File class: 64 bit.
pub const ELFCLASS64: u8 = 2;

/// Byte order: little endian.
pub const ELFDATA2LSB: u8 = 1;

/// File type: executable at a fixed address.
pub const ET_EXEC: u16 = 2;

/// Machine: x86-64.
pub const EM_X86_64: u16 = 62;

/// The first four bytes, `\x7fELF`, read as one little-endian value.
pub const ELF_MAGIC: u32 = 0x464C_457F;

/// Segment flag: executable.
pub const PF_X: u32 = 1;

/// Segment flag: writable.
pub const PF_W: u32 = 2;

/// Segment flag: readable.
pub const PF_R: u32 = 4;

/// Page size: 4 KiB.
pub const PAGE_SIZE: u64 = 4096;

/// Length of an ELF64 program header.
pub const PHDR_LEN: usize = 56;

/// Program header type: a segment to load.
pub const PT_LOAD: u32 = 1;

/// Offset of the type in a program header.
pub const P_TYPE_OFFSET: usize = 0;

/// Offset of the flags in a program header.
pub const P_FLAGS_OFFSET: usize = 4;

/// Offset of the file offset in a program header.
pub const P_OFFSET_OFFSET: usize = 8;

/// Offset of the physical address in a program header.
pub const P_PADDR_OFFSET: usize = 24;

/// Offset of the size in the file in a program header.
pub const P_FILESZ_OFFSET: usize = 32;

/// Offset of the size in memory in a program header.
pub const P_MEMSZ_OFFSET: usize = 40;

/// Offset of the alignment in a program header.
pub const P_ALIGN_OFFSET: usize = 48;

/// Offset of the program header table's position.
pub const E_PHOFF_OFFSET: usize = 32;

/// Offset of the size of a program header.
pub const E_PHENTSIZE_OFFSET: usize = 54;

/// Offset of the number of program headers.
pub const E_PHNUM_OFFSET: usize = 56;

/// Why an image was refused.
#[derive(Clone, Copy, PartialEq, Eq, Structural, Debug)]
pub enum ImageError {
    /// Shorter than an ELF header.
    TooSmall(usize),
    /// No ELF magic.
    NotElf,
    /// Not a 64-bit ELF.
    NotElf64,
    /// Not a little-endian ELF.
    NotLittleEndian,
    /// Not `ET_EXEC`.
    NotExecutable(u16),
    /// Not for x86-64.
    UnsupportedMachine(u16),
}

impl ImageError {
    /// The message of this error.
    pub open spec fn message(self) -> Seq<char> {
        match self {
            ImageError::TooSmall(len) => "镜像过小（"@ + decimal(len as nat)
                + " 字节），不足以容纳 ELF 头"@,
            ImageError::NotElf => "缺少 ELF magic"@,
            ImageError::NotElf64 => "不是 64 位 ELF"@,
            ImageError::NotLittleEndian => "不是小端序 ELF"@,
            ImageError::NotExecutable(e_type) => "e_type = "@ + decimal(e_type as nat)
                + "，期望 ET_EXEC("@ + decimal(ET_EXEC as nat)
                + ")（PIE/ET_DYN 需要重定位，不支持）"@,
            ImageError::UnsupportedMachine(machine) => "e_machine = "@ + decimal(machine as nat)
                + "，期望 x86-64("@ + decimal(EM_X86_64 as nat) + ")"@,
        }
    }

    /// The message of this error.
    #[must_use]
    pub fn to_string(&self) -> (text: String)
        ensures
            text@ == self.message(),
    {
        let mut text = String::new();
        match *self {
            Self::TooSmall(len) => {
                text.append("镜像过小（");
                push_decimal(&mut text, len as u64);
                text.append(" 字节），不足以容纳 ELF 头");
            },
            Self::NotElf => text.append("缺少 ELF magic"),
            Self::NotElf64 => text.append("不是 64 位 ELF"),
            Self::NotLittleEndian => text.append("不是小端序 ELF"),
            Self::NotExecutable(e_type) => {
                text.append("e_type = ");
                push_decimal(&mut text, e_type as u64);
                text.append("，期望 ET_EXEC(");
                push_decimal(&mut text, ET_EXEC as u64);
                text.append(")（PIE/ET_DYN 需要重定位，不支持）");
            },
            Self::UnsupportedMachine(machine) => {
                text.append("e_machine = ");
                push_decimal(&mut text, machine as u64);
                text.append("，期望 x86-64(");
                push_decimal(&mut text, EM_X86_64 as u64);
                text.append(")");
            },
        }
        text
    }
}

/// What [`validate`] says of an image.
pub open spec fn image_check(data: Seq<u8>) -> Result<u64, ImageError> {
    let e_type = u16_at(data, E_TYPE_OFFSET as int);
    let e_machine = u16_at(data, E_MACHINE_OFFSET as int);
    if data.len() < ELF_HEADER_MIN_LEN {
        Err(ImageError::TooSmall(data.len() as usize))
    } else if u32_at(data, 0) != ELF_MAGIC {
        Err(ImageError::NotElf)
    } else if data[EI_CLASS as int] != ELFCLASS64 {
        Err(ImageError::NotElf64)
    } else if data[EI_DATA as int] != ELFDATA2LSB {
        Err(ImageError::NotLittleEndian)
    } else if e_type != ET_EXEC {
        Err(ImageError::NotExecutable(e_type))
    } else if e_machine != EM_X86_64 {
        Err(ImageError::UnsupportedMachine(e_machine))
    } else {
        Ok(u64_at(data, E_ENTRY_OFFSET as int))
    }
}

/// Checks that `data` is an image the boot loader can load, and returns its entry point.
///
/// # Errors
/// See [`ImageError`].
pub fn validate(data: &[u8]) -> (entry: Result<u64, ImageError>)
    ensures
        entry == image_check(data@),
        entry is Ok <==> {
            &&& data@.len() >= 64
            &&& data@[0] == 0x7F && data@[1] == 0x45 && data@[2] == 0x4C && data@[3] == 0x46
            &&& data@[4] == 2 && data@[5] == 1
            &&& data@[16] == 2 && data@[17] == 0 && data@[18] == 62 && data@[19] == 0
        },
        entry matches Ok(entry) ==> entry == u64_at(data@, 24),
{
    proof {
        law_which_images_are_accepted(data@);
    }
    if data.len() < ELF_HEADER_MIN_LEN {
        return Err(ImageError::TooSmall(data.len()));
    }
    if read_u32(data, 0) != ELF_MAGIC {
        return Err(ImageError::NotElf);
    }
    if data[EI_CLASS] != ELFCLASS64 {
        return Err(ImageError::NotElf64);
    }
    if data[EI_DATA] != ELFDATA2LSB {
        return Err(ImageError::NotLittleEndian);
    }
    let e_type: u16 = read_u16(data, E_TYPE_OFFSET);
    if e_type != ET_EXEC {
        return Err(ImageError::NotExecutable(e_type));
    }
    let e_machine: u16 = read_u16(data, E_MACHINE_OFFSET);
    if e_machine != EM_X86_64 {
        return Err(ImageError::UnsupportedMachine(e_machine));
    }
    Ok(read_u64(data, E_ENTRY_OFFSET))
}

/// The magic value stands for the four bytes `0x7f`, `E`, `L`, `F`.
pub proof fn law_magic_bytes(data: Seq<u8>)
    requires
        data.len() >= 4,
    ensures
        u32_at(data, 0) == ELF_MAGIC <==> data[0] == 0x7f && data[1] == 0x45 && data[2] == 0x4c
            && data[3] == 0x46,
{
}

/// A segment to load.
#[derive(Clone, Copy, PartialEq, Eq, Structural, Debug)]
pub struct Segment {
    /// Where its data starts in the file.
    pub offset: u64,
    /// The **physical** address it is loaded to.
    pub paddr: u64,
    /// How many bytes it has in the file.
    pub filesz: u64,
    /// How many bytes it takes in memory; what the file lacks is zero.
    pub memsz: u64,
    /// Its permissions.
    pub flags: u32,
}

impl Segment {
    /// The address behind the segment.
    pub open spec fn end(self) -> int {
        self.paddr + self.memsz
    }

    /// Start of the first page the segment touches.
    pub open spec fn first_page(self) -> int {
        self.paddr - self.paddr as int % PAGE_SIZE as int
    }

    /// End of the last page the segment touches.
    pub open spec fn last_page_end(self) -> int {
        (self.end() + PAGE_SIZE - 1) / PAGE_SIZE as int * PAGE_SIZE
    }

    /// The **page-aligned** range `[start, end)` that the segment takes.
    ///
    /// The physical address of a segment need not be aligned, so pages are requested by this
    /// range and the data is written at `paddr`.
    #[must_use]
    pub fn page_range(&self) -> (range: (u64, u64))
        requires
            self.last_page_end() <= u64::MAX,
        ensures
            range.0 == self.first_page(),
            range.1 == self.last_page_end(),
            range.0 % 4096 == 0 && range.1 % 4096 == 0,
            range.0 <= self.paddr < range.0 + 4096,
            self.paddr + self.memsz <= range.1 < self.paddr + self.memsz + 4096,
    {
        let start: u64 = self.paddr - self.paddr % PAGE_SIZE;
        let end: u64 = self.paddr + self.memsz;
        let over: u64 = end % PAGE_SIZE;
        if over == 0 {
            (start, end)
        } else {
            (start, end - over + PAGE_SIZE)
        }
    }

    /// Whether the segment is executable.
    #[must_use]
    pub fn is_executable(&self) -> (result: bool)
        ensures
            result == (self.flags & PF_X != 0),
            result == (self.flags & 1 != 0),
    {
        self.flags & PF_X != 0
    }
}

/// The page range is aligned, covers the segment, and starts and ends less than a page from it.
pub proof fn law_page_range(segment: Segment)
    ensures
        segment.first_page() % PAGE_SIZE as int == 0,
        segment.last_page_end() % PAGE_SIZE as int == 0,
        segment.first_page() <= segment.paddr < segment.first_page() + PAGE_SIZE,
        segment.end() <= segment.last_page_end() < segment.end() + PAGE_SIZE,
{
}

/// What is wrong with the segments of an image.
#[derive(Clone, Copy, PartialEq, Eq, Structural, Debug)]
pub enum SegmentError {
    /// The program header table is missing, malformed or leaves the file.
    BadProgramHeaders,
    /// A segment has more bytes in the file than in memory.
    FileszLargerThanMemsz,
    /// The data of a segment leaves the file.
    DataOutOfBounds,
    /// The range of a segment overflows.
    AddressOverflow,
    /// A segment takes no memory.
    EmptySegment,
    /// Two segments overlap.
    OverlappingSegments,
    /// The entry point lies in no executable segment.
    EntryNotExecutable,
}

impl SegmentError {
    /// The message of this error.
    pub open spec fn message(self) -> Seq<char> {
        match self {
            SegmentError::BadProgramHeaders => "Program Header 表越界或不完整"@,
            SegmentError::FileszLargerThanMemsz => "p_filesz 大于 p_memsz"@,
            SegmentError::DataOutOfBounds => "段数据超出文件长度"@,
            SegmentError::AddressOverflow => "段地址范围溢出"@,
            SegmentError::EmptySegment => "段长度为 0"@,
            SegmentError::OverlappingSegments => "两个段的区间重叠"@,
            SegmentError::EntryNotExecutable => "入口点不在任何可执行段内"@,
        }
    }

    /// The message of this error.
    #[must_use]
    pub fn to_string(&self) -> (text: String)
        ensures
            text@ == self.message(),
    {
        match *self {
            Self::BadProgramHeaders => "Program Header 表越界或不完整".to_owned(),
            Self::FileszLargerThanMemsz => "p_filesz 大于 p_memsz".to_owned(),
            Self::DataOutOfBounds => "段数据超出文件长度".to_owned(),
            Self::AddressOverflow => "段地址范围溢出".to_owned(),
            Self::EmptySegment => "段长度为 0".to_owned(),
            Self::OverlappingSegments => "两个段的区间重叠".to_owned(),
            Self::EntryNotExecutable => "入口点不在任何可执行段内".to_owned(),
        }
    }
}

// ---------------------------------------------------------------------------------------------
// The program header table
// ---------------------------------------------------------------------------------------------

/// The segment that the program header at `at` describes.
pub open spec fn segment_at(data: Seq<u8>, at: int) -> Segment {
    Segment {
        offset: u64_at(data, at + P_OFFSET_OFFSET),
        paddr: u64_at(data, at + P_PADDR_OFFSET),
        filesz: u64_at(data, at + P_FILESZ_OFFSET),
        memsz: u64_at(data, at + P_MEMSZ_OFFSET),
        flags: u32_at(data, at + P_FLAGS_OFFSET),
    }
}

/// What a program header table holds.
#[verifier::ext_equal]
pub struct Table {
    /// The segments to load, in the order of the table, up to the first header that leaves the
    /// file.
    pub segments: Seq<Segment>,
    /// The alignment of each of them.
    pub aligns: Seq<u64>,
    /// Whether every header lies inside the file.
    pub complete: bool,
}

/// The headers `index..count` of a table at `offset` with headers `size` bytes apart.
pub open spec fn table_from(data: Seq<u8>, offset: int, size: int, index: int, count: int) -> Table
    decreases count - index,
{
    let at = offset + index * size;
    if index >= count {
        Table { segments: Seq::empty(), aligns: Seq::empty(), complete: true }
    } else if at + PHDR_LEN > data.len() {
        Table { segments: Seq::empty(), aligns: Seq::empty(), complete: false }
    } else {
        let rest = table_from(data, offset, size, index + 1, count);
        if u32_at(data, at + P_TYPE_OFFSET) == PT_LOAD {
            Table {
                segments: seq![segment_at(data, at)] + rest.segments,
                aligns: seq![u64_at(data, at + P_ALIGN_OFFSET)] + rest.aligns,
                complete: rest.complete,
            }
        } else {
            rest
        }
    }
}

/// Whether the header of the file describes a usable table.
pub open spec fn has_table(data: Seq<u8>) -> bool {
    &&& data.len() >= ELF_HEADER_MIN_LEN
    &&& u16_at(data, E_PHNUM_OFFSET as int) > 0
    &&& u16_at(data, E_PHENTSIZE_OFFSET as int) >= PHDR_LEN
}

/// The program header table of the file.
pub open spec fn table(data: Seq<u8>) -> Table {
    table_from(
        data,
        u64_at(data, E_PHOFF_OFFSET as int) as int,
        u16_at(data, E_PHENTSIZE_OFFSET as int) as int,
        0,
        u16_at(data, E_PHNUM_OFFSET as int) as int,
    )
}

/// A walk over the segments of an image.
pub struct SegmentIter<'a> {
    /// The image.
    pub data: &'a [u8],
    /// Where the table starts.
    pub table_offset: u64,
    /// Distance from one header to the next.
    pub entry_size: u16,
    /// Number of headers that are left.
    pub remaining: u16,
    /// Index of the next header.
    pub index: u16,
}

impl<'a> SegmentIter<'a> {
    /// What is left of the table.
    pub open spec fn rest(&self) -> Table {
        table_from(
            self.data@,
            self.table_offset as int,
            self.entry_size as int,
            self.index as int,
            self.index + self.remaining,
        )
    }

    /// Whether nothing is left, and every header was inside the file.
    pub open spec fn at_end(&self) -> bool {
        self.rest() == (Table {
            segments: Seq::empty(),
            aligns: Seq::empty(),
            complete: true,
        })
    }

    /// Whether the header count is in range.
    pub open spec fn well_formed(&self) -> bool {
        self.index + self.remaining <= u16::MAX
    }

    /// The next segment. A header that leaves the file gives an error and ends the walk.
    pub fn next(&mut self) -> (item: Option<Result<Segment, SegmentError>>)
        requires
            old(self).well_formed(),
        ensures
            final(self).well_formed(),
            final(self).data@ == old(self).data@,
            final(self).remaining <= old(self).remaining,
            match item {
                Some(Ok(segment)) => {
                    &&& old(self).rest().segments.len() > 0
                    &&& segment == old(self).rest().segments[0]
                    &&& final(self).rest().segments == old(self).rest().segments.skip(1)
                    &&& final(self).rest().aligns == old(self).rest().aligns.skip(1)
                    &&& final(self).rest().complete == old(self).rest().complete
                    &&& final(self).remaining < old(self).remaining
                },
                Some(Err(error)) => {
                    &&& error == SegmentError::BadProgramHeaders
                    &&& old(self).rest().segments.len() == 0
                    &&& !old(self).rest().complete
                    &&& final(self).remaining == 0
                    &&& final(self).at_end()
                },
                None => old(self).at_end() && final(self).at_end(),
            },
    {
        match self.next_header() {
            Some(Ok((segment, _))) => Some(Ok(segment)),
            Some(Err(error)) => Some(Err(error)),
            None => None,
        }
    }

    /// The next segment and its alignment, as [`SegmentIter::next`].
    fn next_header(&mut self) -> (item: Option<Result<(Segment, u64), SegmentError>>)
        requires
            old(self).well_formed(),
        ensures
            final(self).well_formed(),
            final(self).data@ == old(self).data@,
            final(self).remaining <= old(self).remaining,
            match item {
                Some(Ok((segment, align))) => {
                    &&& old(self).rest().segments.len() > 0
                    &&& old(self).rest().aligns.len() > 0
                    &&& segment == old(self).rest().segments[0]
                    &&& align == old(self).rest().aligns[0]
                    &&& final(self).rest().segments == old(self).rest().segments.skip(1)
                    &&& final(self).rest().aligns == old(self).rest().aligns.skip(1)
                    &&& final(self).rest().complete == old(self).rest().complete
                    &&& final(self).remaining < old(self).remaining
                },
                Some(Err(error)) => {
                    &&& error == SegmentError::BadProgramHeaders
                    &&& old(self).rest().segments.len() == 0
                    &&& !old(self).rest().complete
                    &&& final(self).remaining == 0
                    &&& final(self).at_end()
                },
                None => old(self).at_end() && final(self).at_end(),
            },
    {
        let ghost all = self.rest();
        let len: usize = self.data.len();
        while self.remaining > 0
            invariant
                self.well_formed(),
                self.rest() == all,
                all == old(self).rest(),
                self.data@ == old(self).data@,
                len == self.data@.len(),
                self.remaining <= old(self).remaining,
            decreases self.remaining,
        {
            let index: u16 = self.index;
            self.index = self.index + 1;
            self.remaining = self.remaining - 1;
            let distance: u64 = {
                assert(0 <= index * self.entry_size <= u16::MAX * u16::MAX) by (nonlinear_arith)
                    requires
                        0 <= index <= u16::MAX,
                        0 <= self.entry_size <= u16::MAX,
                ;
                index as u64 * self.entry_size as u64
            };
            let inside: bool = match self.table_offset.checked_add(distance) {
                Some(at) => len >= PHDR_LEN && at <= (len - PHDR_LEN) as u64,
                None => false,
            };
            if !inside {
                self.remaining = 0;
                return Some(Err(SegmentError::BadProgramHeaders));
            }
            let at: usize = (self.table_offset + distance) as usize;
            if read_u32(self.data, at + P_TYPE_OFFSET) != PT_LOAD {
                continue;
            }
            let segment = Segment {
                offset: read_u64(self.data, at + P_OFFSET_OFFSET),
                paddr: read_u64(self.data, at + P_PADDR_OFFSET),
                filesz: read_u64(self.data, at + P_FILESZ_OFFSET),
                memsz: read_u64(self.data, at + P_MEMSZ_OFFSET),
                flags: read_u32(self.data, at + P_FLAGS_OFFSET),
            };
            let align: u64 = read_u64(self.data, at + P_ALIGN_OFFSET);
            assert(self.rest().segments =~= all.segments.skip(1));
            assert(self.rest().aligns =~= all.aligns.skip(1));
            return Some(Ok((segment, align)));
        }
        None
    }
}

/// Walks over the segments of an image that passed [`validate`].
///
/// # Errors
/// [`SegmentError::BadProgramHeaders`] if the header does not describe a usable table.
pub fn segments(data: &[u8]) -> (walk: Result<SegmentIter<'_>, SegmentError>)
    ensures
        match walk {
            Ok(walk) => {
                &&& has_table(data@)
                &&& walk.well_formed()
                &&& walk.data@ == data@
                &&& walk.rest() == table(data@)
            },
            Err(error) => !has_table(data@) && error == SegmentError::BadProgramHeaders,
        },
{
    if data.len() < ELF_HEADER_MIN_LEN {
        return Err(SegmentError::BadProgramHeaders);
    }
    let table_offset: u64 = read_u64(data, E_PHOFF_OFFSET);
    let entry_size: u16 = read_u16(data, E_PHENTSIZE_OFFSET);
    let count: u16 = read_u16(data, E_PHNUM_OFFSET);
    if count == 0 || (entry_size as usize) < PHDR_LEN {
        return Err(SegmentError::BadProgramHeaders);
    }
    Ok(SegmentIter { data, table_offset, entry_size, remaining: count, index: 0 })
}

// ---------------------------------------------------------------------------------------------
// Checks on the segments
// ---------------------------------------------------------------------------------------------

/// Whether an alignment makes sense: a power of two, or 0 for none.
pub open spec fn valid_align(align: u64) -> bool {
    align == 0 || power_of_two(align as nat)
}

/// What is wrong with one segment of a file of `len` bytes.
pub open spec fn segment_fault(len: int, segment: Segment, align: u64) -> Option<SegmentError> {
    if segment.memsz == 0 {
        Some(SegmentError::EmptySegment)
    } else if !valid_align(align) {
        Some(SegmentError::BadProgramHeaders)
    } else if segment.filesz > segment.memsz {
        Some(SegmentError::FileszLargerThanMemsz)
    } else if segment.offset + segment.filesz > u64::MAX {
        Some(SegmentError::AddressOverflow)
    } else if segment.offset + segment.filesz > len {
        Some(SegmentError::DataOutOfBounds)
    } else if segment.end() > u64::MAX {
        Some(SegmentError::AddressOverflow)
    } else {
        None
    }
}

/// The fault of the first faulty segment.
pub open spec fn first_fault(len: int, segments: Seq<Segment>, aligns: Seq<u64>) -> Option<
    SegmentError,
>
    decreases segments.len(),
{
    if segments.len() == 0 {
        None
    } else {
        match segment_fault(len, segments[0], aligns[0]) {
            Some(error) => Some(error),
            None => first_fault(len, segments.skip(1), aligns.skip(1)),
        }
    }
}

/// What [`check_segments`] says of an image.
pub open spec fn segments_check(data: Seq<u8>) -> Result<usize, SegmentError> {
    let found = table(data);
    if !has_table(data) {
        Err(SegmentError::BadProgramHeaders)
    } else {
        match first_fault(data.len() as int, found.segments, found.aligns) {
            Some(error) => Err(error),
            None => if found.complete && found.segments.len() > 0 {
                Ok(found.segments.len() as usize)
            } else {
                Err(SegmentError::BadProgramHeaders)
            },
        }
    }
}

/// Checks every segment on its own: alignment, sizes, bounds, overflow. Returns their number.
///
/// Overlaps are left to [`check_no_overlap`].
///
/// # Errors
/// See [`SegmentError`].
pub fn check_segments(data: &[u8]) -> (count: Result<usize, SegmentError>)
    ensures
        count == segments_check(data@),
{
    let mut walk = match segments(data) {
        Ok(walk) => walk,
        Err(error) => return Err(error),
    };
    let ghost found = table(data@);
    let len: u64 = data.len() as u64;
    let mut count: usize = 0;
    while walk.remaining > 0
        invariant
            walk.well_formed(),
            has_table(data@),
            found == table(data@),
            len == data@.len(),
            count + walk.remaining <= u16::MAX,
            count + walk.rest().segments.len() == found.segments.len(),
            walk.rest().complete == found.complete,
            first_fault(len as int, found.segments, found.aligns) == first_fault(
                len as int,
                walk.rest().segments,
                walk.rest().aligns,
            ),
        ensures
            walk.rest().segments.len() == 0,
            walk.rest().complete,
        decreases walk.remaining,
    {
        let (segment, align) = match walk.next_header() {
            Some(Ok(header)) => header,
            Some(Err(error)) => return Err(error),
            None => break,
        };
        if segment.memsz == 0 {
            return Err(SegmentError::EmptySegment);
        }
        if align != 0 && !is_power_of_two(align) {
            return Err(SegmentError::BadProgramHeaders);
        }
        if segment.filesz > segment.memsz {
            return Err(SegmentError::FileszLargerThanMemsz);
        }
        let file_end: u64 = match segment.offset.checked_add(segment.filesz) {
            Some(file_end) => file_end,
            None => return Err(SegmentError::AddressOverflow),
        };
        if file_end > len {
            return Err(SegmentError::DataOutOfBounds);
        }
        if segment.paddr.checked_add(segment.memsz).is_none() {
            return Err(SegmentError::AddressOverflow);
        }
        count = count + 1;
    }
    if count == 0 {
        return Err(SegmentError::BadProgramHeaders);
    }
    Ok(count)
}

/// Whether two segments have a byte of memory in common. An empty segment has none.
pub open spec fn overlapping(a: Segment, b: Segment) -> bool {
    a.memsz > 0 && b.memsz > 0 && a.paddr < b.end() && b.paddr < a.end()
}

/// What is wrong with segment `i` next to those before it.
pub open spec fn overlap_fault(segments: Seq<Segment>, i: int) -> Option<SegmentError> {
    if segments[i].end() > u64::MAX {
        Some(SegmentError::AddressOverflow)
    } else if exists|j: int| 0 <= j < i && overlapping(segments[i], #[trigger] segments[j]) {
        Some(SegmentError::OverlappingSegments)
    } else {
        None
    }
}

/// The fault of the first segment from `i` on that is faulty next to those before it.
pub open spec fn first_overlap_fault(segments: Seq<Segment>, i: int) -> Option<SegmentError>
    decreases segments.len() - i,
{
    if i >= segments.len() {
        None
    } else {
        match overlap_fault(segments, i) {
            Some(error) => Some(error),
            None => first_overlap_fault(segments, i + 1),
        }
    }
}

/// What [`check_no_overlap`] says of an image.
pub open spec fn overlap_check(data: Seq<u8>) -> Result<(), SegmentError> {
    let found = table(data);
    if !has_table(data) {
        Err(SegmentError::BadProgramHeaders)
    } else {
        match first_overlap_fault(found.segments, 0) {
            Some(error) => Err(error),
            None => if found.complete {
                Ok(())
            } else {
                Err(SegmentError::BadProgramHeaders)
            },
        }
    }
}

/// Checks that no two segments overlap in memory.
///
/// # Errors
/// See [`SegmentError`].
pub fn check_no_overlap(data: &[u8]) -> (result: Result<(), SegmentError>)
    ensures
        result == overlap_check(data@),
{
    let mut walk = match segments(data) {
        Ok(walk) => walk,
        Err(error) => return Err(error),
    };
    let ghost found = table(data@);
    let mut len: usize = 0;
    while walk.remaining > 0
        invariant
            walk.well_formed(),
            has_table(data@),
            found == table(data@),
            len <= found.segments.len(),
            len + walk.remaining <= u16::MAX,
            walk.rest().segments == found.segments.skip(len as int),
            walk.rest().complete == found.complete,
            first_overlap_fault(found.segments, 0) == first_overlap_fault(
                found.segments,
                len as int,
            ),
        ensures
            walk.rest().segments.len() == 0,
            walk.rest().complete,
        decreases walk.remaining,
    {
        let segment = match walk.next() {
            Some(Ok(segment)) => segment,
            Some(Err(error)) => return Err(error),
            None => break,
        };
        assert(segment == found.segments[len as int]);
        if segment.paddr.checked_add(segment.memsz).is_none() {
            return Err(SegmentError::AddressOverflow);
        }
        if meets_earlier(data, &segment, len) {
            return Err(SegmentError::OverlappingSegments);
        }
        len = len + 1;
        assert(walk.rest().segments =~= found.segments.skip(len as int));
    }
    Ok(())
}

/// Whether a segment overlaps one of the first `count` segments of the image.
fn meets_earlier(data: &[u8], segment: &Segment, count: usize) -> (result: bool)
    requires
        has_table(data@),
        count < table(data@).segments.len(),
        segment.end() <= u64::MAX,
    ensures
        result == exists|j: int|
            0 <= j < count && overlapping(*segment, #[trigger] table(data@).segments[j]),
{
    let mut walk = match segments(data) {
        Ok(walk) => walk,
        Err(_) => return false,
    };
    let ghost found = table(data@);
    let mut j: usize = 0;
    while j < count
        invariant
            walk.well_formed(),
            found == table(data@),
            j <= count < found.segments.len(),
            segment.end() <= u64::MAX,
            walk.rest().segments == found.segments.skip(j as int),
            forall|k: int| 0 <= k < j ==> !overlapping(*segment, #[trigger] found.segments[k]),
        decreases count - j,
    {
        let other = match walk.next() {
            Some(Ok(other)) => other,
            _ => return false,
        };
        assert(other == found.segments[j as int]);
        // Whether the other segment ends behind the start of this one, without adding up its end.
        let reaches: bool = other.paddr >= segment.paddr || other.memsz > segment.paddr
            - other.paddr;
        if segment.memsz > 0 && other.memsz > 0 && other.paddr < segment.paddr + segment.memsz
            && reaches {
            assert(overlapping(*segment, found.segments[j as int]));
            return true;
        }
        assert(walk.rest().segments =~= found.segments.skip(j + 1));
        j = j + 1;
    }
    false
}

/// What segment says about the entry point when the walk meets it: the entry is in it, its range
/// overflows, or the walk goes on.
pub open spec fn entry_verdict(segment: Segment, entry: u64) -> Option<Result<(), SegmentError>> {
    if segment.end() > u64::MAX {
        Some(Err(SegmentError::AddressOverflow))
    } else if segment.flags & PF_X != 0 && segment.paddr <= entry < segment.end() {
        Some(Ok(()))
    } else {
        None
    }
}

/// The verdict of the first segment that has one.
pub open spec fn first_entry_verdict(segments: Seq<Segment>, entry: u64) -> Option<
    Result<(), SegmentError>,
>
    decreases segments.len(),
{
    if segments.len() == 0 {
        None
    } else {
        match entry_verdict(segments[0], entry) {
            Some(verdict) => Some(verdict),
            None => first_entry_verdict(segments.skip(1), entry),
        }
    }
}

/// What [`check_entry`] says of an image.
pub open spec fn entry_check(data: Seq<u8>, entry: u64) -> Result<(), SegmentError> {
    let found = table(data);
    if !has_table(data) {
        Err(SegmentError::BadProgramHeaders)
    } else {
        match first_entry_verdict(found.segments, entry) {
            Some(verdict) => verdict,
            None => if found.complete {
                Err(SegmentError::EntryNotExecutable)
            } else {
                Err(SegmentError::BadProgramHeaders)
            },
        }
    }
}

/// Checks that the entry point lies in an executable segment.
///
/// # Errors
/// See [`SegmentError`].
pub fn check_entry(data: &[u8], entry: u64) -> (result: Result<(), SegmentError>)
    ensures
        result == entry_check(data@, entry),
{
    let mut walk = match segments(data) {
        Ok(walk) => walk,
        Err(error) => return Err(error),
    };
    let ghost found = table(data@);
    while walk.remaining > 0
        invariant
            walk.well_formed(),
            has_table(data@),
            found == table(data@),
            walk.rest().complete == found.complete,
            first_entry_verdict(found.segments, entry) == first_entry_verdict(
                walk.rest().segments,
                entry,
            ),
        ensures
            walk.rest().segments.len() == 0,
            walk.rest().complete,
        decreases walk.remaining,
    {
        let segment = match walk.next() {
            Some(Ok(segment)) => segment,
            Some(Err(error)) => return Err(error),
            None => break,
        };
        let end: u64 = match segment.paddr.checked_add(segment.memsz) {
            Some(end) => end,
            None => return Err(SegmentError::AddressOverflow),
        };
        if segment.is_executable() && segment.paddr <= entry && entry < end {
            return Ok(());
        }
    }
    Err(SegmentError::EntryNotExecutable)
}

/// Lowest page start and highest page end of the segments; `None` without segments.
pub open spec fn span_of(segments: Seq<Segment>) -> Option<(int, int)>
    decreases segments.len(),
{
    if segments.len() == 0 {
        None
    } else {
        let last = segments.last();
        let (start, end) = (last.first_page(), last.last_page_end());
        match span_of(segments.drop_last()) {
            None => Some((start, end)),
            Some((low, high)) => Some(
                (if start < low { start } else { low }, if end > high { end } else { high }),
            ),
        }
    }
}

/// The span covers every segment, and is no larger than needed.
pub proof fn law_span_covers_every_segment(segments: Seq<Segment>)
    requires
        segments.len() > 0,
    ensures
        ({
            let (low, high) = span_of(segments)->0;
            &&& span_of(segments) is Some
            &&& forall|i: int|
                0 <= i < segments.len() ==> low <= (#[trigger] segments[i]).first_page()
                    && segments[i].last_page_end() <= high
            &&& exists|i: int|
                0 <= i < segments.len() && (#[trigger] segments[i]).first_page() == low
            &&& exists|i: int|
                0 <= i < segments.len() && (#[trigger] segments[i]).last_page_end() == high
        }),
    decreases segments.len(),
{
    let rest = segments.drop_last();
    let last = segments.len() - 1;
    assert(segments[last] == segments.last());
    if rest.len() > 0 {
        law_span_covers_every_segment(rest);
        assert forall|i: int| 0 <= i < last implies #[trigger] segments[i] == rest[i] by {}
        let (low, high) = span_of(rest)->0;
        let i = choose|i: int| 0 <= i < rest.len() && (#[trigger] rest[i]).first_page() == low;
        let j = choose|j: int| 0 <= j < rest.len() && (#[trigger] rest[j]).last_page_end() == high;
        assert(segments[i].first_page() == low);
        assert(segments[j].last_page_end() == high);
    }
}

/// The page-aligned range that all segments together take.
///
/// # Errors
/// [`SegmentError::BadProgramHeaders`] if the table is unusable or holds no segment.
pub fn loaded_span(data: &[u8]) -> (span: Result<(u64, u64), SegmentError>)
    requires
        has_table(data@) ==> forall|i: int|
            0 <= i < table(data@).segments.len() ==> (#[trigger] table(
                data@,
            ).segments[i]).last_page_end() <= u64::MAX,
    ensures
        match span {
            Ok((start, end)) => {
                &&& has_table(data@)
                &&& table(data@).complete
                &&& span_of(table(data@).segments) == Some((start as int, end as int))
            },
            Err(error) => {
                &&& error == SegmentError::BadProgramHeaders
                &&& !has_table(data@) || !table(data@).complete || table(data@).segments.len() == 0
            },
        },
{
    let mut walk = match segments(data) {
        Ok(walk) => walk,
        Err(error) => return Err(error),
    };
    let ghost found = table(data@);
    let ghost mut seen: int = 0;
    let mut span: Option<(u64, u64)> = None;
    while walk.remaining > 0
        invariant
            walk.well_formed(),
            has_table(data@),
            found == table(data@),
            forall|i: int|
                0 <= i < found.segments.len() ==> (#[trigger] found.segments[i]).last_page_end()
                    <= u64::MAX,
            0 <= seen <= found.segments.len(),
            walk.rest().segments == found.segments.skip(seen),
            walk.rest().complete == found.complete,
            match span {
                Some((start, end)) => span_of(found.segments.take(seen)) == Some(
                    (start as int, end as int),
                ),
                None => seen == 0,
            },
        ensures
            walk.rest().segments.len() == 0,
            walk.rest().complete,
        decreases walk.remaining,
    {
        let segment = match walk.next() {
            Some(Ok(segment)) => segment,
            Some(Err(error)) => return Err(error),
            None => break,
        };
        assert(segment == found.segments[seen]);
        let (start, end) = segment.page_range();
        proof {
            let next = found.segments.take(seen + 1);
            assert(next.drop_last() =~= found.segments.take(seen));
            assert(next.last() == segment);
            assert(walk.rest().segments =~= found.segments.skip(seen + 1));
            seen = seen + 1;
        }
        span = match span {
            None => Some((start, end)),
            Some((low, high)) => Some(
                (
                    if start < low {
                        start
                    } else {
                        low
                    },
                    if end > high {
                        end
                    } else {
                        high
                    },
                ),
            ),
        };
    }
    assert(found.segments.take(seen) =~= found.segments);
    match span {
        Some(span) => Ok(span),
        None => Err(SegmentError::BadProgramHeaders),
    }
}

// ---------------------------------------------------------------------------------------------
// What a passed check means
// ---------------------------------------------------------------------------------------------

/// Every segment of a table has its alignment.
proof fn lemma_aligns(data: Seq<u8>, offset: int, size: int, index: int, count: int)
    ensures
        ({
            let found = table_from(data, offset, size, index, count);
            found.aligns.len() == found.segments.len()
        }),
    decreases count - index,
{
    if index < count {
        lemma_aligns(data, offset, size, index + 1, count);
    }
}

proof fn lemma_no_fault(len: int, segments: Seq<Segment>, aligns: Seq<u64>, i: int)
    requires
        first_fault(len, segments, aligns) is None,
        aligns.len() == segments.len(),
        0 <= i < segments.len(),
    ensures
        segment_fault(len, segments[i], aligns[i]) is None,
    decreases segments.len(),
{
    if i > 0 {
        lemma_no_fault(len, segments.skip(1), aligns.skip(1), i - 1);
    }
}

/// Every segment of an image that passed [`check_segments`] takes memory, has a sensible alignment
/// and no more bytes in the file than in memory, finds its data inside the file and ends inside
/// the address space.
pub proof fn law_checked_segments_are_sound(data: Seq<u8>, i: int)
    requires
        segments_check(data) is Ok,
        0 <= i < table(data).segments.len(),
    ensures
        ({
            let segment = table(data).segments[i];
            &&& 0 < segment.memsz
            &&& valid_align(table(data).aligns[i])
            &&& segment.filesz <= segment.memsz
            &&& segment.offset + segment.filesz <= data.len()
            &&& segment.end() <= u64::MAX
        }),
{
    lemma_aligns(
        data,
        u64_at(data, E_PHOFF_OFFSET as int) as int,
        u16_at(data, E_PHENTSIZE_OFFSET as int) as int,
        0,
        u16_at(data, E_PHNUM_OFFSET as int) as int,
    );
    lemma_no_fault(data.len() as int, table(data).segments, table(data).aligns, i);
}

proof fn lemma_no_overlap_fault(segments: Seq<Segment>, from: int, i: int)
    requires
        first_overlap_fault(segments, from) is None,
        0 <= from <= i < segments.len(),
    ensures
        overlap_fault(segments, i) is None,
    decreases i - from,
{
    if from < i {
        lemma_no_overlap_fault(segments, from + 1, i);
    }
}

/// Without a fault from `from` on, no segment from there on overlaps an earlier one; with one, the
/// fault is an overlap, as long as every segment ends inside the address space.
proof fn lemma_overlap_fault(segments: Seq<Segment>, from: int)
    requires
        0 <= from <= segments.len(),
        forall|i: int| 0 <= i < segments.len() ==> (#[trigger] segments[i]).end() <= u64::MAX,
    ensures
        match first_overlap_fault(segments, from) {
            None => forall|i: int, j: int|
                0 <= j < i && from <= i < segments.len() ==> !overlapping(
                    #[trigger] segments[i],
                    #[trigger] segments[j],
                ),
            Some(error) => error == SegmentError::OverlappingSegments && exists|i: int, j: int|
                0 <= j < i && from <= i < segments.len() && overlapping(
                    #[trigger] segments[i],
                    #[trigger] segments[j],
                ),
        },
    decreases segments.len() - from,
{
    if from < segments.len() {
        lemma_overlap_fault(segments, from + 1);
        if overlap_fault(segments, from) is Some {
            let j = choose|j: int|
                0 <= j < from && overlapping(segments[from], #[trigger] segments[j]);
            assert(overlapping(segments[from], segments[j]));
        }
    }
}

/// No two segments of an image that passed [`check_no_overlap`] overlap.
pub proof fn law_checked_segments_are_disjoint(data: Seq<u8>, i: int, j: int)
    requires
        overlap_check(data) is Ok,
        0 <= i < table(data).segments.len(),
        0 <= j < table(data).segments.len(),
        i != j,
    ensures
        !overlapping(table(data).segments[i], table(data).segments[j]),
{
    let segments = table(data).segments;
    lemma_no_overlap_fault(segments, 0, i);
    lemma_no_overlap_fault(segments, 0, j);
    if i < j {
        assert(!overlapping(segments[j], segments[i]));
    } else {
        assert(!overlapping(segments[i], segments[j]));
    }
}

/// On an image that passed [`check_segments`], [`check_no_overlap`] succeeds exactly if the
/// segments are pairwise disjoint, however many there are, and else reports an overlap.
pub proof fn law_overlap_check_is_exact(data: Seq<u8>)
    requires
        segments_check(data) is Ok,
    ensures
        overlap_check(data) is Ok <==> forall|i: int, j: int|
            0 <= j < i < table(data).segments.len() ==> !overlapping(
                #[trigger] table(data).segments[i],
                #[trigger] table(data).segments[j],
            ),
        overlap_check(data) is Err ==> overlap_check(data)->Err_0
            == SegmentError::OverlappingSegments,
{
    let segments = table(data).segments;
    assert forall|i: int| 0 <= i < segments.len() implies (#[trigger] segments[i]).end()
        <= u64::MAX by {
        law_checked_segments_are_sound(data, i);
    }
    lemma_overlap_fault(segments, 0);
}

/// On an image that passed [`check_segments`], [`check_entry`] accepts exactly the addresses inside
/// executable segments.
pub proof fn law_entry_is_executable(data: Seq<u8>, entry: u64)
    requires
        segments_check(data) is Ok,
    ensures
        entry_check(data, entry) is Ok <==> exists|i: int|
            {
                &&& 0 <= i < table(data).segments.len()
                &&& (#[trigger] table(data).segments[i]).flags & PF_X != 0
                &&& table(data).segments[i].paddr <= entry < table(data).segments[i].end()
            },
{
    let segments = table(data).segments;
    assert forall|i: int| 0 <= i < segments.len() implies (#[trigger] segments[i]).end()
        <= u64::MAX by {
        law_checked_segments_are_sound(data, i);
    }
    lemma_entry(segments, entry);
}

proof fn lemma_entry(segments: Seq<Segment>, entry: u64)
    requires
        forall|i: int| 0 <= i < segments.len() ==> (#[trigger] segments[i]).end() <= u64::MAX,
    ensures
        first_entry_verdict(segments, entry) is None || first_entry_verdict(segments, entry) == Some(
            Ok::<(), SegmentError>(()),
        ),
        first_entry_verdict(segments, entry) is Some <==> exists|i: int|
            {
                &&& 0 <= i < segments.len()
                &&& (#[trigger] segments[i]).flags & PF_X != 0
                &&& segments[i].paddr <= entry < segments[i].end()
            },
    decreases segments.len(),
{
    if segments.len() > 0 {
        let rest = segments.skip(1);
        assert forall|i: int| 0 <= i < rest.len() implies (#[trigger] rest[i]).end() <= u64::MAX by {
            assert(rest[i] == segments[i + 1]);
        }
        lemma_entry(rest, entry);
        if entry_verdict(segments[0], entry) is None {
            if first_entry_verdict(rest, entry) is Some {
                let i = choose|i: int|
                    {
                        &&& 0 <= i < rest.len()
                        &&& (#[trigger] rest[i]).flags & PF_X != 0
                        &&& rest[i].paddr <= entry < rest[i].end()
                    };
                assert(segments[i + 1] == rest[i]);
            } else {
                assert forall|i: int| 0 <= i < segments.len() implies !(
                (#[trigger] segments[i]).flags & PF_X != 0 && segments[i].paddr <= entry
                    < segments[i].end()) by {
                    if i > 0 {
                        assert(rest[i - 1] == segments[i]);
                    }
                }
            }
        }
    }
}

} // verus!
