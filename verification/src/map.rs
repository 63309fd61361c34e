//! The UEFI memory map as the kernel reads it.
//!
//! * Descriptors are walked by the **stride the firmware reports**: the standard descriptor is 40
//!   bytes long, but firmware may use more.
//! * A memory type this kernel does not know is **not RAM**.
//! * A region whose end does not fit into 64 bits makes the whole map invalid.

use vstd::prelude::*;
use vstd::slice::*;
use vstd::string::*;

use crate::bytes::{read_u32, read_u64, u32_at, u64_at};
use crate::laws::map::{law_overflow_names_the_first_bad_region, law_which_maps_are_read};
use crate::text::{decimal, push_decimal};

verus! {

/// Page size: 4 KiB.
pub const PAGE_SIZE: u64 = 4096;

/// Length of a standard memory descriptor; the actual stride may be larger.
pub const DESCRIPTOR_MIN_SIZE: u32 = 40;

/// Offset of the memory type in a descriptor.
pub const OFF_TYPE: usize = 0;

/// Offset of the physical start address in a descriptor.
pub const OFF_PHYSICAL_START: usize = 8;

/// Offset of the page count in a descriptor.
pub const OFF_NUMBER_OF_PAGES: usize = 24;

/// The memory types of the firmware.
///
/// An unknown type keeps its number and is not RAM.
#[derive(Clone, Copy, PartialEq, Eq, Structural, Debug)]
pub enum MemoryKind {
    /// 0: reserved by the firmware.
    Reserved,
    /// 1: code of the boot loader.
    LoaderCode,
    /// 2: data of the boot loader.
    LoaderData,
    /// 3: boot services code.
    BootServicesCode,
    /// 4: boot services data.
    BootServicesData,
    /// 5: runtime services code.
    RuntimeServicesCode,
    /// 6: runtime services data.
    RuntimeServicesData,
    /// 7: ordinary free memory.
    Conventional,
    /// 8: found to be faulty.
    Unusable,
    /// 9: ACPI tables that may be reclaimed.
    AcpiReclaim,
    /// 10: ACPI firmware storage.
    AcpiNvs,
    /// 11: memory-mapped I/O.
    Mmio,
    /// 12: memory-mapped I/O port space.
    MmioPortSpace,
    /// 13: PAL code.
    PalCode,
    /// 14: persistent memory.
    Persistent,
    /// 15: encrypted memory that was not accepted yet.
    Unaccepted,
    /// A type this kernel does not know.
    Unknown(u32),
}

impl MemoryKind {
    /// The kind with the given firmware number.
    pub open spec fn of_raw(raw: u32) -> MemoryKind {
        match raw {
            0 => MemoryKind::Reserved,
            1 => MemoryKind::LoaderCode,
            2 => MemoryKind::LoaderData,
            3 => MemoryKind::BootServicesCode,
            4 => MemoryKind::BootServicesData,
            5 => MemoryKind::RuntimeServicesCode,
            6 => MemoryKind::RuntimeServicesData,
            7 => MemoryKind::Conventional,
            8 => MemoryKind::Unusable,
            9 => MemoryKind::AcpiReclaim,
            10 => MemoryKind::AcpiNvs,
            11 => MemoryKind::Mmio,
            12 => MemoryKind::MmioPortSpace,
            13 => MemoryKind::PalCode,
            14 => MemoryKind::Persistent,
            15 => MemoryKind::Unaccepted,
            other => MemoryKind::Unknown(other),
        }
    }

    /// The firmware number of this kind.
    pub open spec fn number(self) -> u32 {
        match self {
            MemoryKind::Reserved => 0,
            MemoryKind::LoaderCode => 1,
            MemoryKind::LoaderData => 2,
            MemoryKind::BootServicesCode => 3,
            MemoryKind::BootServicesData => 4,
            MemoryKind::RuntimeServicesCode => 5,
            MemoryKind::RuntimeServicesData => 6,
            MemoryKind::Conventional => 7,
            MemoryKind::Unusable => 8,
            MemoryKind::AcpiReclaim => 9,
            MemoryKind::AcpiNvs => 10,
            MemoryKind::Mmio => 11,
            MemoryKind::MmioPortSpace => 12,
            MemoryKind::PalCode => 13,
            MemoryKind::Persistent => 14,
            MemoryKind::Unaccepted => 15,
            MemoryKind::Unknown(other) => other,
        }
    }

    /// Whether memory of this kind is RAM: loader, boot services, runtime services, conventional
    /// and ACPI memory. Reserved memory is not: mapping it gains nothing, and an access to it
    /// should fault.
    pub open spec fn ram(self) -> bool {
        match self {
            MemoryKind::LoaderCode
            | MemoryKind::LoaderData
            | MemoryKind::BootServicesCode
            | MemoryKind::BootServicesData
            | MemoryKind::RuntimeServicesCode
            | MemoryKind::RuntimeServicesData
            | MemoryKind::Conventional
            | MemoryKind::AcpiReclaim
            | MemoryKind::AcpiNvs => true,
            _ => false,
        }
    }

    /// The kind with the given firmware number.
    #[must_use]
    pub fn from_raw(raw: u32) -> (kind: Self)
        ensures
            kind == Self::of_raw(raw),
            kind is Reserved <==> raw == 0,
            kind is LoaderCode <==> raw == 1,
            kind is LoaderData <==> raw == 2,
            kind is BootServicesCode <==> raw == 3,
            kind is BootServicesData <==> raw == 4,
            kind is RuntimeServicesCode <==> raw == 5,
            kind is RuntimeServicesData <==> raw == 6,
            kind is Conventional <==> raw == 7,
            kind is Unusable <==> raw == 8,
            kind is AcpiReclaim <==> raw == 9,
            kind is AcpiNvs <==> raw == 10,
            kind is Mmio <==> raw == 11,
            kind is MmioPortSpace <==> raw == 12,
            kind is PalCode <==> raw == 13,
            kind is Persistent <==> raw == 14,
            kind is Unaccepted <==> raw == 15,
            raw > 15 ==> kind == MemoryKind::Unknown(raw),
    {
        match raw {
            0 => Self::Reserved,
            1 => Self::LoaderCode,
            2 => Self::LoaderData,
            3 => Self::BootServicesCode,
            4 => Self::BootServicesData,
            5 => Self::RuntimeServicesCode,
            6 => Self::RuntimeServicesData,
            7 => Self::Conventional,
            8 => Self::Unusable,
            9 => Self::AcpiReclaim,
            10 => Self::AcpiNvs,
            11 => Self::Mmio,
            12 => Self::MmioPortSpace,
            13 => Self::PalCode,
            14 => Self::Persistent,
            15 => Self::Unaccepted,
            other => Self::Unknown(other),
        }
    }

    /// The firmware number of this kind.
    #[must_use]
    pub fn raw(self) -> (raw: u32)
        ensures
            raw == self.number(),
            self is Reserved ==> raw == 0,
            self is LoaderCode ==> raw == 1,
            self is LoaderData ==> raw == 2,
            self is BootServicesCode ==> raw == 3,
            self is BootServicesData ==> raw == 4,
            self is RuntimeServicesCode ==> raw == 5,
            self is RuntimeServicesData ==> raw == 6,
            self is Conventional ==> raw == 7,
            self is Unusable ==> raw == 8,
            self is AcpiReclaim ==> raw == 9,
            self is AcpiNvs ==> raw == 10,
            self is Mmio ==> raw == 11,
            self is MmioPortSpace ==> raw == 12,
            self is PalCode ==> raw == 13,
            self is Persistent ==> raw == 14,
            self is Unaccepted ==> raw == 15,
            self matches MemoryKind::Unknown(other) ==> raw == other,
    {
        match self {
            Self::Reserved => 0,
            Self::LoaderCode => 1,
            Self::LoaderData => 2,
            Self::BootServicesCode => 3,
            Self::BootServicesData => 4,
            Self::RuntimeServicesCode => 5,
            Self::RuntimeServicesData => 6,
            Self::Conventional => 7,
            Self::Unusable => 8,
            Self::AcpiReclaim => 9,
            Self::AcpiNvs => 10,
            Self::Mmio => 11,
            Self::MmioPortSpace => 12,
            Self::PalCode => 13,
            Self::Persistent => 14,
            Self::Unaccepted => 15,
            Self::Unknown(other) => other,
        }
    }

    /// Whether memory of this kind can be mapped like ordinary memory.
    #[must_use]
    pub fn is_ram(self) -> (result: bool)
        ensures
            result == self.ram(),
            result <==> !(self is Unknown) && (1 <= self.number() <= 7 || self.number() == 9
                || self.number() == 10),
    {
        match self {
            Self::LoaderCode
            | Self::LoaderData
            | Self::BootServicesCode
            | Self::BootServicesData
            | Self::RuntimeServicesCode
            | Self::RuntimeServicesData
            | Self::Conventional
            | Self::AcpiReclaim
            | Self::AcpiNvs => true,
            _ => false,
        }
    }
}

/// Reading a firmware number and writing it back gives the same number.
pub proof fn law_kind_round_trip(raw: u32)
    ensures
        MemoryKind::of_raw(raw).number() == raw,
{
}

/// RAM is exactly the documented numbers; no unknown number is RAM.
pub proof fn law_ram_numbers(raw: u32)
    ensures
        MemoryKind::of_raw(raw).ram() <==> 1 <= raw <= 7 || raw == 9 || raw == 10,
{
}

/// One region of the memory map.
#[derive(Clone, Copy, PartialEq, Eq, Structural, Debug)]
pub struct Region {
    /// The kind of memory.
    pub kind: MemoryKind,
    /// Physical start address.
    pub base: u64,
    /// Number of 4 KiB pages.
    pub pages: u64,
}

impl Region {
    /// The address behind the region.
    pub open spec fn limit(self) -> int {
        self.base + self.pages * PAGE_SIZE
    }

    /// Whether the end of the region fits into 64 bits.
    pub open spec fn valid(self) -> bool {
        self.limit() <= u64::MAX
    }

    /// Whether an address lies in the region.
    pub open spec fn holds(self, address: int) -> bool {
        self.base <= address < self.limit()
    }

    /// Whether the region and `[start, end)` have an address in common. An empty region, or an
    /// empty range, has none.
    pub open spec fn meets(self, start: int, end: int) -> bool {
        &&& self.base < self.limit()
        &&& start < end
        &&& self.base < end
        &&& start < self.limit()
    }

    /// The address behind the region.
    #[must_use]
    pub fn end(&self) -> (end: u64)
        requires
            self.valid(),
        ensures
            end == self.limit(),
            end == self.base + self.pages * 4096,
    {
        self.base + self.pages * PAGE_SIZE
    }

    /// Length of the region in bytes.
    #[must_use]
    pub fn byte_len(&self) -> (len: u64)
        requires
            self.pages * PAGE_SIZE <= u64::MAX,
        ensures
            len == self.pages * PAGE_SIZE,
            len == self.pages * 4096,
    {
        self.pages * PAGE_SIZE
    }

    /// Whether `[start, end)` overlaps this region; touching ends do not, and nothing overlaps an
    /// empty region.
    #[must_use]
    pub fn overlaps(&self, start: u64, end: u64) -> (result: bool)
        requires
            self.pages > 0 && start < end && self.base < end ==> self.valid(),
        ensures
            result == self.meets(start as int, end as int),
            result <==> exists|x: int|
                #![trigger self.holds(x)]
                self.holds(x) && start <= x < end,
            result <==> self.pages > 0 && start < end && self.base < end && start < self.base
                + self.pages * 4096,
    {
        let result: bool = self.pages > 0 && start < end && self.base < end && start < self.end();
        proof {
            if result {
                let x = if self.base <= start { start as int } else { self.base as int };
                assert(self.holds(x) && start <= x < end);
            }
        }
        result
    }
}

/// Why a memory map could not be read.
#[derive(Clone, Copy, PartialEq, Eq, Structural, Debug)]
pub enum MapError {
    /// There is no descriptor.
    Empty,
    /// The stride is smaller than a standard descriptor.
    StrideTooSmall(u32),
    /// The buffer is smaller than count times stride.
    TooShort {
        /// Bytes that are needed.
        needed: usize,
        /// Bytes that are there.
        got: usize,
    },
    /// Count times stride does not fit into the address space.
    TooLarge {
        /// Number of descriptors.
        entries: u64,
        /// Stride in bytes.
        stride: u32,
    },
    /// The end address of a descriptor overflows.
    AddressOverflow {
        /// Index of the descriptor.
        index: usize,
    },
}

impl MapError {
    /// The message of this error.
    pub open spec fn message(self) -> Seq<char> {
        match self {
            MapError::Empty => "内存图为空（0 条描述符）"@,
            MapError::StrideTooSmall(stride) => "内存描述符步长 "@ + decimal(stride as nat)
                + " 小于标准长度 "@ + decimal(DESCRIPTOR_MIN_SIZE as nat),
            MapError::TooShort { needed, got } => "内存图缓冲区过小：需要 "@ + decimal(needed as nat)
                + " 字节，实际 "@ + decimal(got as nat) + " 字节"@,
            MapError::TooLarge { entries, stride } => "内存图过大："@ + decimal(entries as nat)
                + " 条 × "@ + decimal(stride as nat) + " 字节超出地址空间"@,
            MapError::AddressOverflow { index } => "第 "@ + decimal(index as nat)
                + " 条内存描述符的结束地址溢出"@,
        }
    }

    /// The message of this error.
    #[must_use]
    pub fn to_string(&self) -> (text: String)
        ensures
            text@ == self.message(),
    {
        let mut text = String::new();
        match *self {
            Self::Empty => text.append("内存图为空（0 条描述符）"),
            Self::StrideTooSmall(stride) => {
                text.append("内存描述符步长 ");
                push_decimal(&mut text, stride as u64);
                text.append(" 小于标准长度 ");
                push_decimal(&mut text, DESCRIPTOR_MIN_SIZE as u64);
            },
            Self::TooShort { needed, got } => {
                text.append("内存图缓冲区过小：需要 ");
                push_decimal(&mut text, needed as u64);
                text.append(" 字节，实际 ");
                push_decimal(&mut text, got as u64);
                text.append(" 字节");
            },
            Self::TooLarge { entries, stride } => {
                text.append("内存图过大：");
                push_decimal(&mut text, entries);
                text.append(" 条 × ");
                push_decimal(&mut text, stride as u64);
                text.append(" 字节超出地址空间");
            },
            Self::AddressOverflow { index } => {
                text.append("第 ");
                push_decimal(&mut text, index as u64);
                text.append(" 条内存描述符的结束地址溢出");
            },
        }
        text
    }
}

/// Number of bytes a map of `entries` descriptors takes; `None` if the stride is too small or the
/// size does not fit.
#[must_use]
pub fn buffer_len(entries: u64, stride: u32) -> (len: Option<usize>)
    ensures
        len == (if stride >= DESCRIPTOR_MIN_SIZE && entries * stride <= u64::MAX && entries * stride
            <= usize::MAX {
            Some((entries * stride) as usize)
        } else {
            None
        }),
        len is Some <==> stride >= 40 && entries * stride <= u64::MAX && entries * stride
            <= usize::MAX,
{
    if stride < DESCRIPTOR_MIN_SIZE {
        return None;
    }
    match entries.checked_mul(stride as u64) {
        Some(total) => if total <= usize::MAX as u64 {
            Some(total as usize)
        } else {
            None
        },
        None => None,
    }
}

/// The region that the descriptor at `offset` describes.
pub open spec fn region_at(bytes: Seq<u8>, offset: int) -> Region {
    Region {
        kind: MemoryKind::of_raw(u32_at(bytes, offset + OFF_TYPE)),
        base: u64_at(bytes, offset + OFF_PHYSICAL_START),
        pages: u64_at(bytes, offset + OFF_NUMBER_OF_PAGES),
    }
}

/// The regions of a map of `entries` descriptors.
pub open spec fn regions_in(bytes: Seq<u8>, entries: int, stride: int) -> Seq<Region> {
    Seq::new(entries as nat, |i: int| region_at(bytes, i * stride))
}

/// The highest end of a RAM region; `None` without RAM.
pub open spec fn highest_ram_end(regions: Seq<Region>) -> Option<int>
    decreases regions.len(),
{
    if regions.len() == 0 {
        None
    } else {
        let last = regions.last();
        match highest_ram_end(regions.drop_last()) {
            Some(end) if !last.kind.ram() || end >= last.limit() => Some(end),
            rest => if last.kind.ram() {
                Some(last.limit())
            } else {
                rest
            },
        }
    }
}

/// `highest_ram_end` is an upper bound of the RAM regions, and one of them ends there.
pub proof fn law_highest_ram_end(regions: Seq<Region>)
    ensures
        match highest_ram_end(regions) {
            Some(top) => {
                &&& forall|i: int|
                    0 <= i < regions.len() && (#[trigger] regions[i]).kind.ram()
                        ==> regions[i].limit() <= top
                &&& exists|i: int|
                    0 <= i < regions.len() && (#[trigger] regions[i]).kind.ram()
                        && regions[i].limit() == top
            },
            None => forall|i: int|
                0 <= i < regions.len() ==> !(#[trigger] regions[i]).kind.ram(),
        },
    decreases regions.len(),
{
    if regions.len() > 0 {
        let rest = regions.drop_last();
        law_highest_ram_end(rest);
        let last = regions.len() - 1;
        assert forall|i: int| 0 <= i < last implies regions[i] == #[trigger] rest[i] by {}
        if highest_ram_end(rest) is Some {
            let top = highest_ram_end(rest)->0;
            let i = choose|i: int|
                0 <= i < rest.len() && (#[trigger] rest[i]).kind.ram() && rest[i].limit() == top;
            assert(regions[i].kind.ram() && regions[i].limit() == top);
        }
        assert(regions[last] == regions.last());
        assert forall|i: int| 0 <= i < regions.len() implies (i == last || regions[i]
            == #[trigger] rest[i]) by {}
        assert forall|i: int| 0 <= i < regions.len() && i != last implies #[trigger] regions[i]
            == rest[i] by {}
    }
}

/// Index of the first region from `from` on whose end overflows.
pub open spec fn first_invalid(regions: Seq<Region>, from: int) -> Option<int>
    decreases regions.len() - from,
{
    if from >= regions.len() {
        None
    } else if !regions[from].valid() {
        Some(from)
    } else {
        first_invalid(regions, from + 1)
    }
}

/// What is wrong with a map of `entries` descriptors that are `stride` bytes apart.
pub open spec fn map_fault(bytes: Seq<u8>, entries: u64, stride: u32) -> Option<MapError> {
    let needed = entries * stride;
    if entries == 0 {
        Some(MapError::Empty)
    } else if stride < DESCRIPTOR_MIN_SIZE {
        Some(MapError::StrideTooSmall(stride))
    } else if needed > u64::MAX || needed > usize::MAX {
        Some(MapError::TooLarge { entries, stride })
    } else if bytes.len() < needed {
        Some(MapError::TooShort { needed: needed as usize, got: bytes.len() as usize })
    } else {
        match first_invalid(regions_in(bytes, entries as int, stride as int), 0) {
            Some(index) => Some(MapError::AddressOverflow { index: index as usize }),
            None => None,
        }
    }
}

/// A map without a fault has only regions that end inside the address space.
proof fn lemma_all_valid(regions: Seq<Region>, from: int, i: int)
    requires
        0 <= from <= i < regions.len(),
        first_invalid(regions, from) is None,
    ensures
        regions[i].valid(),
    decreases i - from,
{
    if from < i {
        lemma_all_valid(regions, from + 1, i);
    }
}

/// Reading one descriptor.
fn read_region(bytes: &[u8], offset: usize) -> (region: Region)
    requires
        offset + DESCRIPTOR_MIN_SIZE <= bytes.len(),
    ensures
        region == region_at(bytes@, offset as int),
{
    Region {
        kind: MemoryKind::from_raw(read_u32(bytes, offset + OFF_TYPE)),
        base: read_u64(bytes, offset + OFF_PHYSICAL_START),
        pages: read_u64(bytes, offset + OFF_NUMBER_OF_PAGES),
    }
}

/// A memory map that was read and checked.
///
/// Every descriptor is checked on construction, so walking the map cannot fail.
#[derive(Clone, Copy, Debug)]
pub struct MemoryMap<'a> {
    /// The descriptors, exactly `entries * stride` bytes.
    pub(crate) bytes: &'a [u8],
    /// Number of descriptors.
    pub(crate) entries: usize,
    /// Distance from one descriptor to the next.
    pub(crate) stride: usize,
    /// Version of the descriptors.
    pub(crate) version: u32,
}

impl<'a> MemoryMap<'a> {
    /// The bytes of the descriptors.
    pub open(crate) spec fn descriptors(&self) -> Seq<u8> {
        self.bytes@
    }

    /// Number of descriptors.
    pub open(crate) spec fn entry_count(&self) -> usize {
        self.entries
    }

    /// Distance from one descriptor to the next.
    pub open(crate) spec fn step(&self) -> usize {
        self.stride
    }

    /// Version of the descriptors.
    pub open(crate) spec fn descriptor_version(&self) -> u32 {
        self.version
    }

    /// The regions of the map, in the order of the descriptors.
    pub open(crate) spec fn regions(&self) -> Seq<Region> {
        regions_in(self.bytes@, self.entries as int, self.stride as int)
    }

    /// Whether the map was checked: its size is right and no region overflows.
    pub open(crate) spec fn well_formed(&self) -> bool {
        &&& self.entries > 0
        &&& DESCRIPTOR_MIN_SIZE <= self.stride <= u32::MAX
        &&& self.bytes@.len() == self.entries * self.stride
        &&& forall|i: int| 0 <= i < self.entries ==> (#[trigger] self.regions()[i]).valid()
    }

    /// Reads a map of `entries` descriptors that are `stride` bytes apart.
    ///
    /// # Errors
    /// See [`MapError`].
    pub fn from_bytes(bytes: &'a [u8], entries: u64, stride: u32, version: u32) -> (result: Result<
        Self,
        MapError,
    >)
        ensures
            match result {
                Ok(map) => {
                    &&& map_fault(bytes@, entries, stride) is None
                    &&& map.well_formed()
                    &&& map.entry_count() == entries
                    &&& map.step() == stride
                    &&& map.descriptor_version() == version
                    &&& map.descriptors() == bytes@.take(entries * stride)
                    &&& map.regions() == regions_in(bytes@, entries as int, stride as int)
                },
                Err(error) => map_fault(bytes@, entries, stride) == Some(error),
            },
            result is Ok <==> {
                &&& entries > 0
                &&& stride >= 40
                &&& entries * stride <= bytes@.len()
                &&& entries * stride <= u64::MAX
                &&& forall|i: int|
                    0 <= i < entries ==> #[trigger] u64_at(bytes@, i * stride + 8) + u64_at(
                        bytes@,
                        i * stride + 24,
                    ) * 4096 <= u64::MAX
            },
            result matches Err(MapError::AddressOverflow { index }) ==> {
                &&& index < entries
                &&& u64_at(bytes@, index * stride + 8) + u64_at(bytes@, index * stride + 24) * 4096
                    > u64::MAX
                &&& forall|j: int|
                    0 <= j < index ==> #[trigger] u64_at(bytes@, j * stride + 8) + u64_at(
                        bytes@,
                        j * stride + 24,
                    ) * 4096 <= u64::MAX
            },
    {
        let whole: usize = bytes.len();
        let result = Self::read(bytes, entries, stride, version);
        proof {
            law_which_maps_are_read(bytes@, entries, stride);
            if let Some(MapError::AddressOverflow { index }) = map_fault(bytes@, entries, stride) {
                law_overflow_names_the_first_bad_region(bytes@, entries, stride, index);
            }
        }
        result
    }

    /// Reads a map, as [`MemoryMap::from_bytes`].
    fn read(bytes: &'a [u8], entries: u64, stride: u32, version: u32) -> (result: Result<
        Self,
        MapError,
    >)
        ensures
            match result {
                Ok(map) => {
                    &&& map_fault(bytes@, entries, stride) is None
                    &&& map.well_formed()
                    &&& map.entry_count() == entries
                    &&& map.step() == stride
                    &&& map.descriptor_version() == version
                    &&& map.descriptors() == bytes@.take(entries * stride)
                    &&& map.regions() == regions_in(bytes@, entries as int, stride as int)
                },
                Err(error) => map_fault(bytes@, entries, stride) == Some(error),
            },
    {
        if entries == 0 {
            return Err(MapError::Empty);
        }
        if stride < DESCRIPTOR_MIN_SIZE {
            return Err(MapError::StrideTooSmall(stride));
        }
        let needed: usize = match buffer_len(entries, stride) {
            Some(needed) => needed,
            None => return Err(MapError::TooLarge { entries, stride }),
        };
        if bytes.len() < needed {
            return Err(MapError::TooShort { needed, got: bytes.len() });
        }
        assert(entries <= needed) by (nonlinear_arith)
            requires
                needed == entries * stride,
                stride >= 1,
        ;
        let map = Self {
            bytes: slice_subrange(bytes, 0, needed),
            entries: entries as usize,
            stride: stride as usize,
            version,
        };
        let ghost regions = regions_in(bytes@, entries as int, stride as int);
        proof {
            assert(bytes@.subrange(0, needed as int) =~= bytes@.take(needed as int));
            assert forall|i: int| 0 <= i < entries implies #[trigger] map.regions()[i]
                == regions[i] by {
                lemma_descriptor_inside(i, entries as int, stride as int);
            }
        }
        // A map with an end that wraps around is damaged: better refused here than mapped later.
        let mut index: usize = 0;
        while index < map.entries
            invariant
                index <= map.entries,
                map.entries == entries,
                map.stride == stride,
                stride >= DESCRIPTOR_MIN_SIZE,
                map.bytes@.len() == entries * stride,
                entries > 0,
                entries * stride <= bytes@.len(),
                regions == regions_in(bytes@, entries as int, stride as int),
                forall|i: int| 0 <= i < entries ==> #[trigger] map.regions()[i] == regions[i],
                first_invalid(regions, 0) == first_invalid(regions, index as int),
                map_fault(bytes@, entries, stride) == (match first_invalid(regions, 0) {
                    Some(index) => Some(MapError::AddressOverflow { index: index as usize }),
                    None => None,
                }),
            decreases map.entries - index,
        {
            let region = map.get(index);
            assert(map.regions()[index as int] == regions[index as int]);
            let fits: bool = match region.pages.checked_mul(PAGE_SIZE) {
                Some(len) => region.base.checked_add(len).is_some(),
                None => false,
            };
            if !fits {
                return Err(MapError::AddressOverflow { index });
            }
            index = index + 1;
        }
        proof {
            assert(map.regions() =~= regions);
            assert forall|i: int| 0 <= i < map.entries implies (#[trigger] map.regions()[i]).valid() by {
                lemma_all_valid(regions, 0, i);
            }
        }
        Ok(map)
    }

    /// Number of descriptors.
    #[must_use]
    pub fn len(&self) -> (len: usize)
        ensures
            len == self.entry_count(),
    {
        self.entries
    }

    /// Whether there is no descriptor; a checked map has at least one.
    #[must_use]
    pub fn is_empty(&self) -> (result: bool)
        ensures
            result == (self.entry_count() == 0),
            self.well_formed() ==> !result,
    {
        self.entries == 0
    }

    /// Distance from one descriptor to the next, in bytes.
    #[must_use]
    pub fn stride(&self) -> (stride: u32)
        requires
            self.well_formed(),
        ensures
            stride == self.step(),
    {
        self.stride as u32
    }

    /// Version of the descriptors.
    #[must_use]
    pub fn version(&self) -> (version: u32)
        ensures
            version == self.descriptor_version(),
    {
        self.version
    }

    /// The region with the given index; an empty reserved region if there is none.
    #[must_use]
    pub fn get(&self, index: usize) -> (region: Region)
        requires
            self.step() >= DESCRIPTOR_MIN_SIZE,
            self.descriptors().len() == self.entry_count() * self.step(),
        ensures
            region == (if index < self.entry_count() {
                self.regions()[index as int]
            } else {
                Region { kind: MemoryKind::Reserved, base: 0, pages: 0 }
            }),
    {
        if index >= self.entries {
            return Region { kind: MemoryKind::Reserved, base: 0, pages: 0 };
        }
        let len: usize = self.bytes.len();
        proof {
            lemma_descriptor_inside(index as int, self.entries as int, self.stride as int);
        }
        read_region(self.bytes, index * self.stride)
    }

    /// Walks over all regions.
    #[must_use]
    pub fn iter(&self) -> (regions: Regions<'a>)
        requires
            self.well_formed(),
        ensures
            regions.well_formed(),
            regions.index == 0,
            regions.all() == self.regions(),
    {
        Regions { bytes: self.bytes, entries: self.entries, stride: self.stride, index: 0 }
    }

    /// The highest end of a RAM region; `None` without RAM.
    #[must_use]
    pub fn ram_top(&self) -> (top: Option<u64>)
        requires
            self.well_formed(),
        ensures
            match top {
                Some(end) => highest_ram_end(self.regions()) == Some(end as int),
                None => highest_ram_end(self.regions()) is None,
            },
            // No RAM region ends behind it, and one ends there.
            match top {
                Some(end) => {
                    &&& forall|i: int|
                        0 <= i < self.regions().len() && (#[trigger] self.regions()[i]).kind.ram()
                            ==> self.regions()[i].base + self.regions()[i].pages * 4096 <= end
                    &&& exists|i: int|
                        0 <= i < self.regions().len() && (#[trigger] self.regions()[i]).kind.ram()
                            && self.regions()[i].base + self.regions()[i].pages * 4096 == end
                },
                None => forall|i: int|
                    0 <= i < self.regions().len() ==> !(#[trigger] self.regions()[i]).kind.ram(),
            },
    {
        let mut top: Option<u64> = None;
        let mut index: usize = 0;
        while index < self.entries
            invariant
                index <= self.entries,
                self.well_formed(),
                match top {
                    Some(end) => highest_ram_end(self.regions().take(index as int)) == Some(
                        end as int,
                    ),
                    None => highest_ram_end(self.regions().take(index as int)) is None,
                },
            decreases self.entries - index,
        {
            let region = self.get(index);
            proof {
                let next = self.regions().take(index + 1);
                assert(next.drop_last() =~= self.regions().take(index as int));
                assert(next.last() == region);
                assert(region.valid());
            }
            if region.kind.is_ram() {
                let end: u64 = region.end();
                top = match top {
                    Some(current) if current >= end => Some(current),
                    _ => Some(end),
                };
            }
            index = index + 1;
        }
        assert(self.regions().take(index as int) =~= self.regions());
        proof {
            law_highest_ram_end(self.regions());
        }
        top
    }
}

/// A descriptor lies inside the buffer.
proof fn lemma_descriptor_inside(index: int, entries: int, stride: int)
    requires
        0 <= index < entries,
        stride >= DESCRIPTOR_MIN_SIZE,
    ensures
        0 <= index * stride,
        index * stride + DESCRIPTOR_MIN_SIZE <= entries * stride,
{
    assert(0 <= index * stride && index * stride + stride <= entries * stride) by (nonlinear_arith)
        requires
            0 <= index < entries,
            stride >= 0,
    ;
}

/// A walk over the regions of a map.
#[derive(Clone, Copy, Debug)]
pub struct Regions<'a> {
    /// The descriptors.
    pub bytes: &'a [u8],
    /// Number of descriptors.
    pub entries: usize,
    /// Distance from one descriptor to the next.
    pub stride: usize,
    /// Index of the next region.
    pub index: usize,
}

impl<'a> Regions<'a> {
    /// All regions of the map, including those already passed.
    pub open spec fn all(&self) -> Seq<Region> {
        regions_in(self.bytes@, self.entries as int, self.stride as int)
    }

    /// Whether the buffer holds all descriptors and the walk has not left it.
    pub open spec fn well_formed(&self) -> bool {
        &&& self.stride >= DESCRIPTOR_MIN_SIZE
        &&& self.bytes@.len() == self.entries * self.stride
        &&& self.index <= self.entries
    }

    /// The next region; `None` at the end.
    pub fn next(&mut self) -> (region: Option<Region>)
        requires
            old(self).well_formed(),
        ensures
            final(self).well_formed(),
            final(self).all() == old(self).all(),
            final(self).entries == old(self).entries,
            match region {
                Some(region) => {
                    &&& old(self).index < old(self).entries
                    &&& region == old(self).all()[old(self).index as int]
                    &&& final(self).index == old(self).index + 1
                },
                None => old(self).index == old(self).entries && *final(self) == *old(self),
            },
    {
        if self.index >= self.entries {
            return None;
        }
        let len: usize = self.bytes.len();
        proof {
            lemma_descriptor_inside(self.index as int, self.entries as int, self.stride as int);
        }
        let region = read_region(self.bytes, self.index * self.stride);
        self.index = self.index + 1;
        Some(region)
    }

    /// Number of regions that are left.
    #[must_use]
    pub fn len(&self) -> (len: usize)
        requires
            self.well_formed(),
        ensures
            len == self.entries - self.index,
    {
        self.entries - self.index
    }

    /// Bounds on the number of regions that are left; both are exact.
    #[must_use]
    pub fn size_hint(&self) -> (hint: (usize, Option<usize>))
        requires
            self.well_formed(),
        ensures
            hint.0 == self.entries - self.index,
            hint.1 == Some(hint.0),
    {
        let remaining: usize = self.entries - self.index;
        (remaining, Some(remaining))
    }

    /// The regions that are left.
    #[must_use]
    pub fn collect(self) -> (regions: Vec<Region>)
        requires
            self.well_formed(),
        ensures
            regions@ == self.all().skip(self.index as int),
    {
        let mut walk = self;
        let mut regions: Vec<Region> = Vec::new();
        while walk.index < walk.entries
            invariant
                walk.well_formed(),
                walk.all() == self.all(),
                self.all().len() == self.entries,
                walk.entries == self.entries,
                self.index <= walk.index,
                regions@ == self.all().subrange(self.index as int, walk.index as int),
            decreases walk.entries - walk.index,
        {
            if let Some(region) = walk.next() {
                regions.push(region);
            }
        }
        assert(regions@ =~= self.all().skip(self.index as int));
        regions
    }
}

} // verus!
