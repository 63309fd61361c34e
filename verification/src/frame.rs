//! Physical frames: a bitmap allocator that hands out the lowest address first.
//!
//! * A frame is 4 KiB. Two bitmaps hold one bit per frame each: `allocatable` (the frame may be
//!   handed out at all) and `used` (the frame is handed out now). They are separate because
//!   `free` has to tell a frame that never belonged to the allocator from one that is free.
//! * A frame may be handed out if it lies **completely inside a conventional region**, inside the
//!   managed window and not in low memory, and does not overlap an explicitly reserved range. The
//!   reserved ranges repeat what the memory map says on purpose: the allocator does not rely on the
//!   firmware having classified our own allocations.
//! * Lowest address first makes every result predictable.

use vstd::prelude::*;
use vstd::slice::*;
use vstd::string::*;

use crate::laws::frame::{
    law_every_reserved_range_counts, law_what_changes_hands, law_which_frames_are_usable,
};
use crate::map::{MemoryKind, MemoryMap, Region, PAGE_SIZE};
use crate::text::{decimal, hex, push_decimal, push_hex};

verus! {

/// Frames below this address are never handed out: low memory holds firmware structures.
pub const MIN_FREE_ADDR: u64 = 0x10_0000;

/// How many reserved ranges an allocator accepts.
pub const MAX_RESERVED_RANGES: usize = 8;

/// A 4 KiB physical frame.
#[derive(Clone, Copy, PartialEq, Eq, Structural, PartialOrd, Ord, Debug)]
pub struct PhysFrame {
    /// Physical address of the frame, 4 KiB aligned.
    pub address: u64,
}

impl PhysFrame {
    /// The frame at `address`; the caller sees to the alignment.
    #[must_use]
    pub fn new(address: u64) -> (frame: Self)
        ensures
            frame.address == address,
    {
        Self { address }
    }
}

/// A contiguous stretch of physical memory.
#[derive(Clone, Copy, PartialEq, Eq, Structural, Debug)]
pub struct PhysRange {
    /// Physical start address.
    pub start: u64,
    /// Length in bytes.
    pub len: u64,
}

impl PhysRange {
    /// The address behind the range.
    #[must_use]
    pub fn end(&self) -> (end: u64)
        requires
            self.start + self.len <= u64::MAX,
        ensures
            end == self.start + self.len,
    {
        self.start + self.len
    }

    /// Number of frames the range covers.
    #[must_use]
    pub fn frames(&self) -> (frames: u64)
        ensures
            frames == self.len / PAGE_SIZE,
            frames * 4096 <= self.len < frames * 4096 + 4096,
    {
        self.len / PAGE_SIZE
    }

    /// Whether `address` lies in the range.
    #[must_use]
    pub fn contains(&self, address: u64) -> (result: bool)
        requires
            self.start <= address ==> self.start + self.len <= u64::MAX,
        ensures
            result == (self.start <= address < self.start + self.len),
    {
        self.start <= address && address < self.end()
    }
}

/// A physical range that must not be handed out (half open).
#[derive(Clone, Copy, PartialEq, Eq, Structural, Debug)]
pub struct ReservedRange {
    /// Start address.
    pub start: u64,
    /// The address behind the range.
    pub end: u64,
}

impl Default for ReservedRange {
    fn default() -> (range: Self)
        ensures
            range == (ReservedRange { start: 0, end: 0 }),
    {
        ReservedRange { start: 0, end: 0 }
    }
}

impl ReservedRange {
    /// Whether an address lies in the range.
    pub open spec fn holds(self, address: int) -> bool {
        self.start <= address < self.end
    }

    /// Whether the range and `[start, end)` have an address in common. An empty range has none.
    pub open spec fn meets(self, start: int, end: int) -> bool {
        &&& self.start < self.end
        &&& start < end
        &&& self.start < end
        &&& start < self.end
    }

    /// The range `[start, end)`.
    #[must_use]
    pub fn new(start: u64, end: u64) -> (range: Self)
        ensures
            range.start == start,
            range.end == end,
    {
        Self { start, end }
    }

    /// Whether `[start, end)` overlaps this range; touching ends do not, and nothing overlaps an
    /// empty range.
    #[must_use]
    pub fn overlaps(&self, start: u64, end: u64) -> (result: bool)
        ensures
            result == self.meets(start as int, end as int),
            result <==> exists|x: int|
                #![trigger self.holds(x)]
                self.holds(x) && start <= x < end,
            result <==> self.start < self.end && start < end && self.start < end && start < self.end,
    {
        let result: bool = self.start < self.end && start < end && self.start < end && start
            < self.end;
        proof {
            if result {
                let x = if self.start <= start { start as int } else { self.start as int };
                assert(self.holds(x) && start <= x < end);
            }
        }
        result
    }

    /// Whether the range is empty.
    #[must_use]
    pub fn is_empty(&self) -> (result: bool)
        ensures
            result == (self.end <= self.start),
    {
        self.end <= self.start
    }
}

/// What an allocator manages.
#[derive(Clone, Copy, PartialEq, Eq, Structural, Debug)]
pub struct Config {
    /// Start of the managed window.
    pub managed_start: u64,
    /// End of the managed window.
    pub limit: u64,
}

impl Config {
    /// The window from [`MIN_FREE_ADDR`] to `limit`.
    #[must_use]
    pub fn new(limit: u64) -> (config: Self)
        ensures
            config.managed_start == MIN_FREE_ADDR,
            config.managed_start == 0x10_0000,
            config.limit == limit,
    {
        Self { managed_start: MIN_FREE_ADDR, limit }
    }

    /// The first frame that starts inside the window.
    pub open spec fn first_frame(self) -> int {
        (self.managed_start + PAGE_SIZE - 1) / PAGE_SIZE as int
    }

    /// The frame behind the last one that ends inside the window.
    pub open spec fn end_frame(self) -> int {
        self.limit as int / PAGE_SIZE as int
    }

    /// Bytes that both bitmaps of this window take together.
    pub open spec fn bitmap_len(self) -> int {
        2 * ((self.end_frame() - self.first_frame() + 7) / 8)
    }
}

/// Statistics of an allocator.
#[derive(Clone, Copy, PartialEq, Eq, Structural, Debug)]
pub struct FrameStats {
    /// Number of managed frames.
    pub managed: u64,
    /// Number of free frames.
    pub free: u64,
}

impl Default for FrameStats {
    fn default() -> (stats: Self)
        ensures
            stats == (FrameStats { managed: 0, free: 0 }),
    {
        FrameStats { managed: 0, free: 0 }
    }
}

/// Why an allocator could not be set up.
#[derive(Clone, Copy, PartialEq, Eq, Structural, Debug)]
pub enum InitError {
    /// The bitmap does not cover the managed window.
    BitmapTooSmall {
        /// Bytes that are needed.
        needed: usize,
        /// Bytes that are there.
        got: usize,
    },
    /// More than [`MAX_RESERVED_RANGES`] reserved ranges.
    TooManyReservedRanges {
        /// How many were given.
        count: usize,
    },
    /// The managed window holds no frame.
    EmptyRange {
        /// Start of the window.
        managed_start: u64,
        /// End of the window.
        limit: u64,
    },
    /// No frame may be handed out.
    NoUsableMemory,
}

impl InitError {
    /// The message of this error.
    pub open spec fn message(self) -> Seq<char> {
        match self {
            InitError::BitmapTooSmall { needed, got } => "页帧位图过小：需要 "@ + decimal(
                needed as nat,
            ) + " 字节，实际 "@ + decimal(got as nat) + " 字节"@,
            InitError::TooManyReservedRanges { count } => "保留区间过多："@ + decimal(count as nat)
                + " 个，上限 "@ + decimal(MAX_RESERVED_RANGES as nat) + " 个"@,
            InitError::EmptyRange { managed_start, limit } => "受管理的物理区间非法：0x"@ + hex(
                managed_start as nat,
            ) + "..0x"@ + hex(limit as nat),
            InitError::NoUsableMemory => "没有任何可发放的 EfiConventionalMemory 页帧"@,
        }
    }

    /// The message of this error.
    #[must_use]
    pub fn to_string(&self) -> (text: String)
        ensures
            text@ == self.message(),
    {
        let mut text = String::new();
        match *self {
            Self::BitmapTooSmall { needed, got } => {
                text.append("页帧位图过小：需要 ");
                push_decimal(&mut text, needed as u64);
                text.append(" 字节，实际 ");
                push_decimal(&mut text, got as u64);
                text.append(" 字节");
            },
            Self::TooManyReservedRanges { count } => {
                text.append("保留区间过多：");
                push_decimal(&mut text, count as u64);
                text.append(" 个，上限 ");
                push_decimal(&mut text, MAX_RESERVED_RANGES as u64);
                text.append(" 个");
            },
            Self::EmptyRange { managed_start, limit } => {
                text.append("受管理的物理区间非法：0x");
                push_hex(&mut text, managed_start);
                text.append("..0x");
                push_hex(&mut text, limit);
            },
            Self::NoUsableMemory => {
                text.append("没有任何可发放的 EfiConventionalMemory 页帧");
            },
        }
        text
    }
}

/// Why a frame could not be freed.
#[derive(Clone, Copy, PartialEq, Eq, Structural, Debug)]
pub enum FreeError {
    /// The address is no frame that this allocator hands out.
    NotManaged(u64),
    /// The frame is free already (a double free).
    AlreadyFree(u64),
    /// The frame overlaps a reserved range.
    Reserved(u64),
}

impl FreeError {
    /// The message of this error.
    pub open spec fn message(self) -> Seq<char> {
        match self {
            FreeError::NotManaged(address) => "页帧 0x"@ + hex(address as nat)
                + " 不在受管理区间内"@,
            FreeError::AlreadyFree(address) => "页帧 0x"@ + hex(address as nat) + " 重复释放"@,
            FreeError::Reserved(address) => "页帧 0x"@ + hex(address as nat)
                + " 位于保留区间内，不可释放"@,
        }
    }

    /// The message of this error.
    #[must_use]
    pub fn to_string(&self) -> (text: String)
        ensures
            text@ == self.message(),
    {
        let mut text = String::new();
        text.append("页帧 0x");
        match *self {
            Self::NotManaged(address) => {
                push_hex(&mut text, address);
                text.append(" 不在受管理区间内");
            },
            Self::AlreadyFree(address) => {
                push_hex(&mut text, address);
                text.append(" 重复释放");
            },
            Self::Reserved(address) => {
                push_hex(&mut text, address);
                text.append(" 位于保留区间内，不可释放");
            },
        }
        text
    }
}

// ---------------------------------------------------------------------------------------------
// Bitmaps
// ---------------------------------------------------------------------------------------------

/// Bit `index` of a bitmap.
pub open spec fn bit_at(bytes: Seq<u8>, index: int) -> bool {
    bytes[index / 8] & (1u8 << ((index % 8) as u8)) != 0
}

/// Changing one bit of a byte leaves the others alone.
proof fn lemma_byte_bits(byte: u8, j: u8, k: u8)
    requires
        j < 8,
        k < 8,
    ensures
        ((byte | (1u8 << j)) & (1u8 << k) != 0) == (j == k || byte & (1u8 << k) != 0),
        ((byte & !(1u8 << j)) & (1u8 << k) != 0) == (j != k && byte & (1u8 << k) != 0),
{
    assert(((byte | (1u8 << j)) & (1u8 << k) != 0) == (j == k || byte & (1u8 << k) != 0))
        by (bit_vector)
        requires
            j < 8,
            k < 8,
    ;
    assert(((byte & !(1u8 << j)) & (1u8 << k) != 0) == (j != k && byte & (1u8 << k) != 0))
        by (bit_vector)
        requires
            j < 8,
            k < 8,
    ;
}

/// Reads one bit.
fn bit(bytes: &[u8], index: u64) -> (value: bool)
    requires
        index < 8 * bytes@.len(),
    ensures
        value == bit_at(bytes@, index as int),
{
    let len: usize = bytes.len();
    bytes[(index / 8) as usize] & (1u8 << ((index % 8) as u8)) != 0
}

/// Writes one bit.
fn set_bit(bytes: &mut [u8], index: u64, value: bool)
    requires
        index < 8 * old(bytes)@.len(),
    ensures
        final(bytes)@.len() == old(bytes)@.len(),
        forall|k: int|
            0 <= k < old(bytes)@.len() && k != index / 8 ==> #[trigger] final(bytes)@[k] == old(
                bytes,
            )@[k],
        forall|i: int|
            0 <= i < 8 * old(bytes)@.len() ==> #[trigger] bit_at(final(bytes)@, i) == (if i
                == index {
                value
            } else {
                bit_at(old(bytes)@, i)
            }),
{
    let len: usize = bytes.len();
    let at: usize = (index / 8) as usize;
    let shift: u8 = (index % 8) as u8;
    let mask: u8 = 1u8 << shift;
    if value {
        bytes[at] = bytes[at] | mask;
    } else {
        bytes[at] = bytes[at] & !mask;
    }
    proof {
        assert forall|i: int| 0 <= i < 8 * old(bytes)@.len() implies #[trigger] bit_at(bytes@, i)
            == (if i == index {
            value
        } else {
            bit_at(old(bytes)@, i)
        }) by {
            if i / 8 == at {
                lemma_byte_bits(old(bytes)@[at as int], shift, (i % 8) as u8);
            }
        }
    }
}

/// Bytes that the two bitmaps for `frames` frames take together.
#[must_use]
pub fn bitmap_bytes(frames: u64) -> (bytes: usize)
    requires
        2 * ((frames + 7) / 8) <= usize::MAX,
    ensures
        bytes == 2 * ((frames + 7) / 8),
{
    let whole: u64 = frames / 8;
    let half: u64 = if frames % 8 == 0 {
        whole
    } else {
        whole + 1
    };
    assert(half == (frames + 7) / 8);
    2 * (half as usize)
}

/// Number of free frames among the first `n`.
pub open spec fn free_among(allocatable: Seq<u8>, used: Seq<u8>, n: int) -> int
    decreases n,
{
    if n <= 0 {
        0
    } else {
        free_among(allocatable, used, n - 1) + (if bit_at(allocatable, n - 1) && !bit_at(
            used,
            n - 1,
        ) {
            1int
        } else {
            0
        })
    }
}

/// The count depends on the bits alone, and follows a change of one bit.
proof fn lemma_free_among(a: Seq<u8>, u: Seq<u8>, b: Seq<u8>, v: Seq<u8>, n: int, k: int)
    requires
        forall|i: int|
            0 <= i < n && i != k ==> #[trigger] bit_at(a, i) == bit_at(b, i) && bit_at(u, i)
                == bit_at(v, i),
    ensures
        ({
            let before = if 0 <= k < n && bit_at(a, k) && !bit_at(u, k) { 1int } else { 0 };
            let after = if 0 <= k < n && bit_at(b, k) && !bit_at(v, k) { 1int } else { 0 };
            free_among(b, v, n) == free_among(a, u, n) - before + after
        }),
    decreases n,
{
    if n > 0 {
        lemma_free_among(a, u, b, v, n - 1, k);
        if n - 1 != k {
            assert(bit_at(a, n - 1) == bit_at(b, n - 1));
        }
    }
}

/// The count is zero exactly if no frame is free, and never exceeds the number of frames.
proof fn lemma_free_among_bounds(a: Seq<u8>, u: Seq<u8>, n: int)
    requires
        n >= 0,
    ensures
        0 <= free_among(a, u, n) <= n,
        free_among(a, u, n) == 0 <==> forall|i: int|
            0 <= i < n ==> !(#[trigger] bit_at(a, i) && !bit_at(u, i)),
    decreases n,
{
    if n > 0 {
        lemma_free_among_bounds(a, u, n - 1);
        if free_among(a, u, n) == 0 {
            assert forall|i: int| 0 <= i < n implies !(#[trigger] bit_at(a, i) && !bit_at(
                u,
                i,
            )) by {}
        } else if free_among(a, u, n - 1) == 0 {
            assert(bit_at(a, n - 1) && !bit_at(u, n - 1));
        } else {
            let i = choose|i: int| 0 <= i < n - 1 && #[trigger] bit_at(a, i) && !bit_at(u, i);
            assert(bit_at(a, i) && !bit_at(u, i));
        }
    }
}

// ---------------------------------------------------------------------------------------------
// The allocator
// ---------------------------------------------------------------------------------------------

/// Whether the frame with this number lies completely inside the region.
pub open spec fn covers(region: Region, frame: int) -> bool {
    region.base <= frame * PAGE_SIZE && (frame + 1) * PAGE_SIZE <= region.limit()
}

/// Whether one of the first `n` regions is conventional and covers the frame.
pub open spec fn conventional_among(regions: Seq<Region>, n: int, frame: int) -> bool {
    exists|r: int|
        0 <= r < n && (#[trigger] regions[r]).kind == MemoryKind::Conventional && covers(
            regions[r],
            frame,
        )
}

/// Whether the frame overlaps one of the reserved ranges.
pub open spec fn reserved_frame(ranges: Seq<ReservedRange>, frame: int) -> bool {
    exists|r: int|
        0 <= r < ranges.len() && (#[trigger] ranges[r]).meets(
            frame * PAGE_SIZE,
            (frame + 1) * PAGE_SIZE,
        )
}

/// Whether the frame may be handed out at all.
pub open spec fn usable(regions: Seq<Region>, ranges: Seq<ReservedRange>, frame: int) -> bool {
    conventional_among(regions, regions.len() as int, frame) && !withheld(ranges, frame)
}

/// Whether the frame is kept back wherever it lies: in low memory, or in a reserved range.
pub open spec fn withheld(ranges: Seq<ReservedRange>, frame: int) -> bool {
    frame * PAGE_SIZE < MIN_FREE_ADDR || reserved_frame(ranges, frame)
}

/// The bitmap allocator.
///
/// Its fields are public so that the contract of [`FrameAllocator::init`] can say where in the
/// caller's buffer the bitmaps lie; only the methods keep them in order.
#[derive(Debug)]
pub struct FrameAllocator<'a> {
    /// One bit per frame: may be handed out.
    pub allocatable: &'a mut [u8],
    /// One bit per frame: is handed out, or never may be.
    pub used: &'a mut [u8],
    /// Number of the frame that bit 0 describes.
    pub first_frame: u64,
    /// Number of managed frames.
    pub frames: u64,
    /// Number of free frames.
    pub free_frames: u64,
    /// The reserved ranges.
    pub reserved: [ReservedRange; MAX_RESERVED_RANGES],
    /// How many of `reserved` are in use.
    pub reserved_len: usize,
}

impl<'a> FrameAllocator<'a> {
    /// The reserved ranges.
    pub open spec fn ranges(&self) -> Seq<ReservedRange> {
        self.reserved@.take(self.reserved_len as int)
    }

    /// Address of the frame with this index.
    pub open spec fn address_of(&self, index: int) -> int {
        (self.first_frame + index) * PAGE_SIZE
    }

    /// Bit `index` of the bitmap of allocatable frames.
    pub open spec fn allocatable_bit(&self, index: int) -> bool {
        bit_at(self.allocatable@, index)
    }

    /// Whether the frame with this index may be handed out.
    pub open spec fn allocatable_at(&self, index: int) -> bool {
        0 <= index < self.frames && bit_at(self.allocatable@, index)
    }

    /// Whether the frame with this index is handed out, or never may be.
    pub open spec fn used_at(&self, index: int) -> bool {
        bit_at(self.used@, index)
    }

    /// Whether the frame with this index is free.
    pub open spec fn free_at(&self, index: int) -> bool {
        self.allocatable_at(index) && !self.used_at(index)
    }

    /// Number of free frames.
    pub open spec fn free_count(&self) -> int {
        free_among(self.allocatable@, self.used@, self.frames as int)
    }

    /// Whether the `count` frames from `start` on are free.
    pub open spec fn free_run(&self, start: int, count: int) -> bool {
        0 <= start && start + count <= self.frames && forall|i: int|
            start <= i < start + count ==> #[trigger] self.free_at(i)
    }

    /// Whether `start` is the lowest index from which `count` frames are free.
    pub open spec fn first_free_run(&self, start: int, count: int) -> bool {
        self.free_run(start, count) && forall|k: int|
            0 <= k < start ==> !#[trigger] self.free_run(k, count)
    }

    /// The index of the frame at `address`, if it is managed.
    pub open spec fn index_of(&self, address: int) -> Option<int> {
        let frame = address / PAGE_SIZE as int;
        if address % PAGE_SIZE as int == 0 && self.first_frame <= frame < self.first_frame
            + self.frames {
            Some(frame - self.first_frame)
        } else {
            None
        }
    }

    /// The invariant: the bitmaps cover the window, the bits behind it and those of low
    /// and reserved frames are never allocatable, what is not allocatable counts as used, and the count of
    /// free frames is right.
    pub open spec fn well_formed(&self) -> bool {
        &&& self.frames > 0
        &&& (self.first_frame + self.frames) * PAGE_SIZE <= u64::MAX
        &&& self.allocatable@.len() == (self.frames + 7) / 8
        &&& self.used@.len() >= self.allocatable@.len()
        &&& self.reserved_len <= MAX_RESERVED_RANGES
        &&& self.free_frames == self.free_count()
        &&& forall|i: int|
            0 <= i < 8 * self.allocatable@.len() && #[trigger] bit_at(self.allocatable@, i) ==> i
                < self.frames && !withheld(self.ranges(), self.first_frame + i)
        &&& forall|i: int|
            0 <= i < 8 * self.allocatable@.len() && !#[trigger] bit_at(self.used@, i) ==> bit_at(
                self.allocatable@,
                i,
            )
    }

    /// The bytes of the buffer that neither bitmap uses.
    pub open spec fn spare(&self) -> Seq<u8> {
        self.used@.skip(self.allocatable@.len() as int)
    }

    /// Whether `other` manages the same window with the same allocatable frames.
    pub open spec fn same_frames(&self, other: &FrameAllocator) -> bool {
        &&& self.allocatable@ == other.allocatable@
        &&& self.used@.len() == other.used@.len()
        &&& self.first_frame == other.first_frame
        &&& self.frames == other.frames
        &&& self.reserved == other.reserved
        &&& self.reserved_len == other.reserved_len
    }

    /// Whether this allocator is `before` with `count` frames from `start` on handed out.
    pub open spec fn took(&self, before: &FrameAllocator, start: int, count: int) -> bool {
        &&& self.same_frames(before)
        &&& self.free_frames == before.free_frames - count
        &&& forall|i: int|
            0 <= i < 8 * before.used@.len() ==> #[trigger] bit_at(self.used@, i) == (start <= i
                < start + count || bit_at(before.used@, i))
    }

    /// Whether this allocator is `before` with the frame at `index` given back.
    pub open spec fn gave_back(&self, before: &FrameAllocator, index: int) -> bool {
        &&& self.same_frames(before)
        &&& self.free_frames == before.free_frames + 1
        &&& forall|i: int|
            0 <= i < 8 * before.used@.len() ==> #[trigger] bit_at(self.used@, i) == (i != index
                && bit_at(before.used@, i))
    }

    /// Sets up an allocator for the window of `config`.
    ///
    /// Both bitmaps are overwritten completely, so the buffer need not be cleared before.
    ///
    /// # Errors
    /// See [`InitError`].
    pub fn init(
        bitmap: &'a mut [u8],
        map: &MemoryMap<'_>,
        reserved: &[ReservedRange],
        config: &Config,
    ) -> (result: Result<Self, InitError>)
        requires
            map.well_formed(),
        ensures
            ({
                let first = config.first_frame();
                let end = config.end_frame();
                let needed = config.bitmap_len();
                let (found, got) = (reserved@.len(), old(bitmap)@.len());
                match result {
                    Err(InitError::TooManyReservedRanges { count }) => {
                        &&& found > MAX_RESERVED_RANGES
                        &&& count == found
                    },
                    Err(InitError::EmptyRange { managed_start, limit }) => {
                        &&& found <= MAX_RESERVED_RANGES
                        &&& end <= first
                        &&& managed_start == config.managed_start
                        &&& limit == config.limit
                    },
                    Err(InitError::BitmapTooSmall { needed: n, got: g }) => {
                        &&& found <= MAX_RESERVED_RANGES
                        &&& first < end
                        &&& got < needed
                        &&& n == (if needed <= usize::MAX { needed } else { usize::MAX as int })
                        &&& g == got
                    },
                    Err(InitError::NoUsableMemory) => {
                        &&& found <= MAX_RESERVED_RANGES
                        &&& first < end
                        &&& got >= needed
                        &&& forall|frame: int|
                            first <= frame < end ==> !#[trigger] usable(
                                map.regions(),
                                reserved@,
                                frame,
                            )
                        &&& forall|i: int|
                            0 <= i < 8 * needed ==> #[trigger] bit_at(final(bitmap)@, i) == (i >= 4
                                * needed)
                        &&& final(bitmap)@.len() == got
                        &&& final(bitmap)@.skip(needed) == old(bitmap)@.skip(needed)
                    },
                    Ok(allocator) => {
                        &&& found <= MAX_RESERVED_RANGES
                        &&& first < end
                        &&& got >= needed
                        &&& allocator.well_formed()
                        &&& allocator.first_frame == first
                        &&& allocator.frames == end - first
                        &&& allocator.ranges() == reserved@
                        &&& allocator.free_frames > 0
                        &&& forall|i: int|
                            0 <= i < end - first ==> #[trigger] allocator.free_at(i) == usable(
                                map.regions(),
                                reserved@,
                                first + i,
                            )
                        &&& forall|i: int|
                            #[trigger] allocator.allocatable_at(i) == allocator.free_at(i)
                        &&& allocator.spare() == old(bitmap)@.skip(needed)
                        &&& final(bitmap)@ == final(allocator.allocatable)@
                            + final(allocator.used)@
                    },
                }
            }),
            result is Err && !(result->Err_0 is NoUsableMemory) ==> final(bitmap)@ == old(bitmap)@,
            (result matches Err(InitError::TooManyReservedRanges { .. })) <==> reserved@.len() > 8,
            result matches Ok(allocator) ==> {
                let end = allocator.first_frame + allocator.frames;
                &&& config.managed_start <= allocator.first_frame * 4096 < config.managed_start
                    + 4096
                &&& config.limit - 4096 < end * 4096 <= config.limit
            },
            // A frame is free exactly if it lies at or above 1 MiB, wholly inside a conventional
            // region, and has no address in common with any of the reserved ranges.
            result matches Ok(allocator) ==> forall|i: int|
                0 <= i < allocator.frames ==> (#[trigger] allocator.free_at(i) <==> {
                    let address = (allocator.first_frame + i) * 4096;
                    &&& address >= 0x10_0000
                    &&& exists|r: int|
                        {
                            &&& 0 <= r < map.regions().len()
                            &&& (#[trigger] map.regions()[r]).kind.number() == 7
                            &&& !(map.regions()[r].kind is Unknown)
                            &&& map.regions()[r].base <= address
                            &&& address + 4096 <= map.regions()[r].base + map.regions()[r].pages
                                * 4096
                        }
                    &&& forall|j: int|
                        0 <= j < reserved@.len() ==> {
                            ||| (#[trigger] reserved@[j]).end <= reserved@[j].start
                            ||| reserved@[j].end <= address
                            ||| address + 4096 <= reserved@[j].start
                        }
                }),
    {
        if reserved.len() > MAX_RESERVED_RANGES {
            return Err(InitError::TooManyReservedRanges { count: reserved.len() });
        }
        let first_frame: u64 = if config.managed_start % PAGE_SIZE == 0 {
            config.managed_start / PAGE_SIZE
        } else {
            config.managed_start / PAGE_SIZE + 1
        };
        let end_frame: u64 = config.limit / PAGE_SIZE;
        if end_frame <= first_frame {
            return Err(
                InitError::EmptyRange { managed_start: config.managed_start, limit: config.limit },
            );
        }
        let frames: u64 = end_frame - first_frame;
        let half: u64 = (frames + 7) / 8;
        let needed: usize = if 2 * half <= usize::MAX as u64 {
            2 * half as usize
        } else {
            usize::MAX
        };
        if (bitmap.len() as u64) < 2 * half {
            return Err(InitError::BitmapTooSmall { needed, got: bitmap.len() });
        }
        let (allocatable, used) = bitmap.split_at_mut(half as usize);
        let mut slots: [ReservedRange; MAX_RESERVED_RANGES] = [
            ReservedRange::default(),
            ReservedRange::default(),
            ReservedRange::default(),
            ReservedRange::default(),
            ReservedRange::default(),
            ReservedRange::default(),
            ReservedRange::default(),
            ReservedRange::default(),
        ];
        let mut slot: usize = 0;
        while slot < reserved.len()
            invariant
                slot <= reserved@.len() <= MAX_RESERVED_RANGES,
                slots@.take(slot as int) =~= reserved@.take(slot as int),
            decreases reserved@.len() - slot,
        {
            slots[slot] = reserved[slot];
            slot = slot + 1;
        }
        // The safe starting point: nothing may be handed out, and nothing counts as free.
        clear(allocatable, used, half as usize);
        let mut allocator = Self {
            allocatable,
            used,
            first_frame,
            frames,
            free_frames: 0,
            reserved: slots,
            reserved_len: reserved.len(),
        };
        proof {
            assert(allocator.ranges() =~= reserved@);
            lemma_free_among_bounds(
                allocator.allocatable@,
                allocator.used@,
                allocator.frames as int,
            );
        }
        let ghost spare = allocator.spare();
        let ghost lower = final(allocator.allocatable)@;
        let ghost upper = final(allocator.used)@;
        let mut r: usize = 0;
        while r < map.len()
            invariant
                map.well_formed(),
                r <= map.entries,
                allocator.well_formed(),
                allocator.first_frame == first_frame,
                allocator.frames == frames,
                frames == end_frame - first_frame,
                end_frame * PAGE_SIZE <= u64::MAX,
                allocator.ranges() == reserved@,
                allocator.spare() == spare,
                final(allocator.allocatable)@ == lower,
                final(allocator.used)@ == upper,
                forall|i: int|
                    0 <= i < frames ==> #[trigger] allocator.free_at(i) == (conventional_among(
                        map.regions(),
                        r as int,
                        first_frame + i,
                    ) && !withheld(reserved@, first_frame + i)),
                forall|i: int| #[trigger] allocator.allocatable_at(i) == allocator.free_at(i),
            decreases map.entries - r,
        {
            let region = map.get(r);
            assert(region == map.regions()[r as int]);
            // Only conventional memory is handed out.
            if region.kind == MemoryKind::Conventional {
                allocator.add_region(&region, map, r);
            } else {
                assert forall|i: int| 0 <= i < frames implies #[trigger] allocator.free_at(i) == (
                conventional_among(map.regions(), r + 1, first_frame + i) && !withheld(
                    reserved@,
                    first_frame + i,
                )) by {
                    lemma_conventional_step(map.regions(), r as int, first_frame + i);
                }
            }
            r = r + 1;
        }
        proof {
            lemma_free_among_bounds(
                allocator.allocatable@,
                allocator.used@,
                allocator.frames as int,
            );
            assert(map.regions().len() == map.entries);
        }
        if allocator.free_frames == 0 {
            proof {
                assert forall|frame: int| first_frame <= frame < end_frame implies !#[trigger] usable(
                    map.regions(),
                    reserved@,
                    frame,
                ) by {
                    let i = frame - first_frame;
                    assert(!(bit_at(allocator.allocatable@, i) && !bit_at(allocator.used@, i)));
                    assert(!allocator.free_at(i));
                }
                let (lower, upper) = (allocator.allocatable@, allocator.used@);
                assert forall|i: int| 0 <= i < 8 * half implies !#[trigger] bit_at(lower, i) && bit_at(
                    upper,
                    i,
                ) by {
                    assert(!allocator.allocatable_at(i));
                }
                lemma_bits_of_both(lower, upper, half as int);
                assert((lower + upper).skip(2 * half) =~= allocator.spare());
            }
            return Err(InitError::NoUsableMemory);
        }
        proof {
            assert forall|i: int| 0 <= i < allocator.frames implies #[trigger] allocator.free_at(i)
                == usable(map.regions(), reserved@, first_frame + i) by {}
            assert forall|i: int| 0 <= i < allocator.frames implies (#[trigger] allocator.free_at(i)
                <==> {
                let address = (allocator.first_frame + i) * 4096;
                &&& address >= 0x10_0000
                &&& exists|r: int|
                    {
                        &&& 0 <= r < map.regions().len()
                        &&& (#[trigger] map.regions()[r]).kind.number() == 7
                        &&& !(map.regions()[r].kind is Unknown)
                        &&& map.regions()[r].base <= address
                        &&& address + 4096 <= map.regions()[r].base + map.regions()[r].pages * 4096
                    }
                &&& forall|j: int|
                    0 <= j < reserved@.len() ==> {
                        ||| (#[trigger] reserved@[j]).end <= reserved@[j].start
                        ||| reserved@[j].end <= address
                        ||| address + 4096 <= reserved@[j].start
                    }
            }) by {
                law_which_frames_are_usable(map.regions(), reserved@, first_frame + i);
            }
        }
        Ok(allocator)
    }

    /// Adds the frames of one conventional region to those that may be handed out.
    fn add_region(&mut self, region: &Region, map: &MemoryMap<'_>, r: usize)
        requires
            map.well_formed(),
            r < map.entries,
            *region == map.regions()[r as int],
            region.kind == MemoryKind::Conventional,
            old(self).well_formed(),
            forall|i: int|
                0 <= i < old(self).frames ==> #[trigger] old(self).free_at(i) == (
                conventional_among(map.regions(), r as int, old(self).first_frame + i)
                    && !withheld(old(self).ranges(), old(self).first_frame + i)),
            forall|i: int| #[trigger] old(self).allocatable_at(i) == old(self).free_at(i),
        ensures
            final(self).well_formed(),
            final(self).first_frame == old(self).first_frame,
            final(self).frames == old(self).frames,
            final(self).ranges() == old(self).ranges(),
            final(self).spare() == old(self).spare(),
            final(final(self).allocatable)@ == final(old(self).allocatable)@,
            final(final(self).used)@ == final(old(self).used)@,
            forall|i: int|
                0 <= i < old(self).frames ==> #[trigger] final(self).free_at(i) == (
                conventional_among(map.regions(), r + 1, old(self).first_frame + i)
                    && !withheld(old(self).ranges(), old(self).first_frame + i)),
            forall|i: int| #[trigger] final(self).allocatable_at(i) == final(self).free_at(i),
    {
        assert(region.valid());
        let whole: u64 = region.base / PAGE_SIZE;
        let inside: u64 = if region.base % PAGE_SIZE == 0 {
            whole
        } else {
            whole + 1
        };
        let region_end: u64 = region.end() / PAGE_SIZE;
        let window_end: u64 = self.first_frame + self.frames;
        let start: u64 = if inside > self.first_frame {
            inside
        } else {
            self.first_frame
        };
        let end: u64 = if region_end < window_end {
            region_end
        } else {
            window_end
        };
        let ghost first = self.first_frame as int;
        let ghost frames = self.frames as int;
        let ghost ranges = self.ranges();
        let ghost spare = self.spare();
        let mut frame: u64 = start;
        proof {
            assert forall|i: int| 0 <= i < frames implies #[trigger] self.free_at(i) == ((
            conventional_among(map.regions(), r as int, first + i) || (covers(*region, first + i)
                && first + i < frame)) && !withheld(ranges, first + i)) by {}
        }
        while frame < end
            invariant
                self.well_formed(),
                self.first_frame == first,
                self.frames == frames,
                self.ranges() == ranges,
                self.spare() == spare,
                final(self.allocatable)@ == final(old(self).allocatable)@,
                final(self.used)@ == final(old(self).used)@,
                first <= frame,
                end <= first + frames,
                region.base <= frame * PAGE_SIZE,
                end * PAGE_SIZE <= region.limit(),
                forall|i: int|
                    0 <= i < frames ==> #[trigger] self.free_at(i) == ((conventional_among(
                        map.regions(),
                        r as int,
                        first + i,
                    ) || (covers(*region, first + i) && first + i < frame)) && !withheld(
                        ranges,
                        first + i,
                    )),
                forall|i: int| #[trigger] self.allocatable_at(i) == self.free_at(i),
            decreases end - frame,
        {
            let ghost before = *self;
            let address: u64 = frame * PAGE_SIZE;
            let reserved: bool = self.is_withheld(address);
            if !reserved {
                self.mark_available(address);
            }
            proof {
                assert forall|i: int| 0 <= i < frames implies #[trigger] self.free_at(i) == ((
                conventional_among(map.regions(), r as int, first + i) || (covers(
                    *region,
                    first + i,
                ) && first + i < frame + 1)) && !withheld(ranges, first + i)) by {
                    assert(before.free_at(i) == before.free_at(i));
                }
            }
            frame = frame + 1;
        }
        proof {
            assert forall|i: int| 0 <= i < frames implies #[trigger] self.free_at(i) == (
            conventional_among(map.regions(), r + 1, first + i) && !withheld(
                ranges,
                first + i,
            )) by {
                lemma_conventional_step(map.regions(), r as int, first + i);
            }
        }
    }

    /// Lets the frame at `address` be handed out, and counts it as free.
    fn mark_available(&mut self, address: u64)
        requires
            old(self).well_formed(),
            old(self).index_of(address as int) is Some,
            !withheld(old(self).ranges(), address as int / PAGE_SIZE as int),
            forall|i: int| #[trigger] old(self).allocatable_at(i) == old(self).free_at(i),
        ensures
            final(self).well_formed(),
            final(self).first_frame == old(self).first_frame,
            final(self).frames == old(self).frames,
            final(self).ranges() == old(self).ranges(),
            final(self).spare() == old(self).spare(),
            final(final(self).allocatable)@ == final(old(self).allocatable)@,
            final(final(self).used)@ == final(old(self).used)@,
            forall|i: int|
                #[trigger] final(self).free_at(i) == (Some(i) == old(self).index_of(
                    address as int,
                ) || old(self).free_at(i)),
            forall|i: int| #[trigger] final(self).allocatable_at(i) == final(self).free_at(i),
    {
        let index: u64 = match self.frame_index(address) {
            Some(index) => index,
            None => return ,
        };
        if self.is_allocatable(index) {
            // Two regions cover this frame: it is counted already.
            assert(self.allocatable_at(index as int));
            return ;
        }
        set_bit(self.allocatable, index, true);
        set_bit(self.used, index, false);
        proof {
            lemma_free_among(
                old(self).allocatable@,
                old(self).used@,
                self.allocatable@,
                self.used@,
                self.frames as int,
                index as int,
            );
            lemma_free_among_bounds(self.allocatable@, self.used@, self.frames as int);
            assert(!old(self).allocatable_at(index as int));
        }
        self.free_frames = self.free_frames + 1;
        proof {
            assert forall|i: int| #[trigger] self.allocatable_at(i) == self.free_at(i) by {
                assert(old(self).allocatable_at(i) == old(self).free_at(i));
            }
            assert forall|i: int| #[trigger] self.free_at(i) == (Some(i) == old(self).index_of(
                address as int,
            ) || old(self).free_at(i)) by {}
            assert forall|i: int|
                0 <= i < 8 * self.allocatable@.len() && #[trigger] bit_at(
                    self.allocatable@,
                    i,
                ) implies i < self.frames && !withheld(self.ranges(), self.first_frame + i) by {
                if i != index {
                    assert(bit_at(old(self).allocatable@, i));
                }
            }
            assert forall|i: int|
                0 <= i < 8 * self.allocatable@.len() && !#[trigger] bit_at(
                    self.used@,
                    i,
                ) implies bit_at(self.allocatable@, i) by {
                if i != index {
                    assert(!bit_at(old(self).used@, i));
                }
            }
        }
    }

    /// Statistics.
    #[must_use]
    pub fn stats(&self) -> (stats: FrameStats)
        ensures
            stats.managed == self.frames,
            stats.free == self.free_frames,
            self.well_formed() ==> stats.free == self.free_count(),
    {
        FrameStats { managed: self.frames, free: self.free_frames }
    }

    /// The reserved ranges.
    #[must_use]
    pub fn reserved_ranges(&self) -> (ranges: &[ReservedRange])
        requires
            self.reserved_len <= MAX_RESERVED_RANGES,
        ensures
            ranges@ == self.ranges(),
    {
        slice_subrange(vstd::array::array_as_slice(&self.reserved), 0, self.reserved_len)
    }

    /// The index of the frame at `address`; `None` if it is not managed.
    #[must_use]
    pub fn frame_index(&self, address: u64) -> (index: Option<u64>)
        requires
            self.first_frame + self.frames <= u64::MAX,
        ensures
            match index {
                Some(index) => self.index_of(address as int) == Some(index as int),
                None => self.index_of(address as int) is None,
            },
    {
        let frame: u64 = address / PAGE_SIZE;
        if address % PAGE_SIZE != 0 || frame < self.first_frame || frame >= self.first_frame
            + self.frames {
            return None;
        }
        Some(frame - self.first_frame)
    }

    /// Whether the frame at `address` overlaps a reserved range.
    fn is_reserved(&self, address: u64) -> (result: bool)
        requires
            self.reserved_len <= MAX_RESERVED_RANGES,
            address % PAGE_SIZE == 0,
            address + PAGE_SIZE <= u64::MAX,
        ensures
            result == reserved_frame(self.ranges(), address as int / PAGE_SIZE as int),
            result <==> exists|j: int|
                {
                    &&& 0 <= j < self.reserved_len
                    &&& (#[trigger] self.reserved@[j]).start < self.reserved@[j].end
                    &&& self.reserved@[j].start < address + 4096
                    &&& address < self.reserved@[j].end
                },
    {
        let end: u64 = address + PAGE_SIZE;
        let ghost frame = address as int / PAGE_SIZE as int;
        let mut i: usize = 0;
        while i < self.reserved_len
            invariant
                i <= self.reserved_len <= MAX_RESERVED_RANGES,
                address == frame * PAGE_SIZE,
                end == address + PAGE_SIZE,
                forall|r: int|
                    0 <= r < i ==> !(#[trigger] self.ranges()[r]).meets(
                        frame * PAGE_SIZE,
                        (frame + 1) * PAGE_SIZE,
                    ),
            decreases self.reserved_len - i,
        {
            if self.reserved[i].overlaps(address, end) {
                assert(self.ranges()[i as int] == self.reserved@[i as int]);
                return true;
            }
            i = i + 1;
        }
        assert forall|j: int| 0 <= j < self.reserved_len implies #[trigger] self.reserved@[j]
            == self.ranges()[j] by {}
        false
    }

    /// Whether the frame at `address` is kept back: in low memory, or in a reserved range.
    fn is_withheld(&self, address: u64) -> (result: bool)
        requires
            self.reserved_len <= MAX_RESERVED_RANGES,
            address % PAGE_SIZE == 0,
            address + PAGE_SIZE <= u64::MAX,
        ensures
            result == withheld(self.ranges(), address as int / PAGE_SIZE as int),
    {
        address < MIN_FREE_ADDR || self.is_reserved(address)
    }

    /// Whether the frame with this index may be handed out.
    fn is_allocatable(&self, index: u64) -> (result: bool)
        requires
            self.well_formed(),
            index < self.frames,
        ensures
            result == self.allocatable_at(index as int),
    {
        bit(self.allocatable, index)
    }

    /// Whether the frame with this index is handed out.
    fn is_used(&self, index: u64) -> (result: bool)
        requires
            self.well_formed(),
            index < self.frames,
        ensures
            result == self.used_at(index as int),
    {
        bit(self.used, index)
    }

    /// Whether the frame with this index is free.
    fn is_free(&self, index: u64) -> (result: bool)
        requires
            self.well_formed(),
            index < self.frames,
        ensures
            result == self.free_at(index as int),
    {
        self.is_allocatable(index) && !self.is_used(index)
    }

    /// Marks a free frame as handed out.
    fn mark_used(&mut self, index: u64)
        requires
            old(self).well_formed(),
            old(self).free_at(index as int),
        ensures
            final(self).well_formed(),
            final(self).took(old(self), index as int, 1),
    {
        proof {
            lemma_free_among_bounds(self.allocatable@, self.used@, self.frames as int);
            assert(bit_at(self.allocatable@, index as int));
        }
        set_bit(self.used, index, true);
        self.free_frames = self.free_frames - 1;
        proof {
            lemma_free_among(
                old(self).allocatable@,
                old(self).used@,
                self.allocatable@,
                self.used@,
                self.frames as int,
                index as int,
            );
            assert forall|i: int|
                0 <= i < 8 * self.allocatable@.len() && !#[trigger] bit_at(
                    self.used@,
                    i,
                ) implies bit_at(self.allocatable@, i) by {
                assert(!bit_at(old(self).used@, i));
            }
        }
    }

    /// Finds the lowest index from which `count` frames are free.
    fn find_free_run(&self, count: u64) -> (start: Option<u64>)
        requires
            self.well_formed(),
        ensures
            match start {
                Some(start) => count > 0 && self.first_free_run(start as int, count as int),
                None => count == 0 || forall|k: int|
                    !#[trigger] self.free_run(k, count as int),
            },
    {
        if count == 0 || count > self.frames {
            return None;
        }
        let mut run_start: u64 = 0;
        let mut run: u64 = 0;
        let mut index: u64 = 0;
        while index < self.frames
            invariant
                self.well_formed(),
                index <= self.frames,
                0 < count <= self.frames,
                run < count,
                run <= index,
                run > 0 ==> run_start == index - run,
                forall|i: int| index - run <= i < index ==> #[trigger] self.free_at(i),
                forall|k: int|
                    0 <= k < index - run ==> !#[trigger] self.free_run(k, count as int),
            decreases self.frames - index,
        {
            if !self.is_free(index) {
                proof {
                    assert forall|k: int| 0 <= k < index + 1 implies !#[trigger] self.free_run(
                        k,
                        count as int,
                    ) by {
                        if k >= index - run && self.free_run(k, count as int) {
                            assert(self.free_at(index as int));
                        }
                    }
                }
                run = 0;
                index = index + 1;
                continue;
            }
            if run == 0 {
                run_start = index;
            }
            run = run + 1;
            index = index + 1;
            if run == count {
                return Some(run_start);
            }
        }
        assert forall|k: int| !#[trigger] self.free_run(k, count as int) by {
            if k >= index - run && self.free_run(k, count as int) {
                assert(k + count <= self.frames);
            }
        }
        None
    }

    /// Hands out the free frame at the lowest address.
    pub fn allocate(&mut self) -> (frame: Option<PhysFrame>)
        requires
            old(self).well_formed(),
        ensures
            final(self).well_formed(),
            match frame {
                Some(frame) => exists|i: int|
                    {
                        &&& #[trigger] old(self).free_at(i)
                        &&& forall|k: int| 0 <= k < i ==> !#[trigger] old(self).free_at(k)
                        &&& frame.address == old(self).address_of(i)
                        &&& frame.address == (old(self).first_frame + i) * 4096
                        &&& final(self).took(old(self), i, 1)
                        &&& final(self).free_frames == old(self).free_frames - 1
                        &&& forall|k: int|
                            #[trigger] final(self).free_at(k) <==> old(self).free_at(k) && k != i
                    },
                None => {
                    &&& forall|i: int| !#[trigger] old(self).free_at(i)
                    &&& *final(self) == *old(self)
                },
            },
            final(self).first_frame == old(self).first_frame,
            final(self).frames == old(self).frames,
            final(self).ranges() == old(self).ranges(),
    {
        match self.find_free_run(1) {
            Some(index) => {
                proof {
                    assert(self.free_at(index as int));
                    assert forall|k: int| 0 <= k < index implies !#[trigger] self.free_at(k) by {
                        assert(!self.free_run(k, 1));
                    }
                }
                self.mark_used(index);
                proof {
                    assert(old(self).free_run(index as int, 1));
                    assert forall|k: int| #[trigger] self.free_at(k) <==> old(self).free_at(k) && k
                        != index by {
                        law_what_changes_hands(old(self), self, index as int, 1, k);
                    }
                    assert(old(self).free_at(index as int));
                }
                Some(PhysFrame::new((self.first_frame + index) * PAGE_SIZE))
            },
            None => {
                proof {
                    assert forall|i: int| !#[trigger] self.free_at(i) by {
                        assert(!self.free_run(i, 1));
                    }
                }
                None
            },
        }
    }

    /// Hands out `count` **consecutive** frames at the lowest address that has them.
    ///
    /// `None` if no stretch is long enough; fragments are never pieced together.
    pub fn alloc_contiguous(&mut self, count: usize) -> (range: Option<PhysRange>)
        requires
            old(self).well_formed(),
        ensures
            final(self).well_formed(),
            match range {
                Some(range) => exists|start: int|
                    {
                        &&& count > 0
                        &&& #[trigger] old(self).first_free_run(start, count as int)
                        &&& range.start == old(self).address_of(start)
                        &&& range.start == (old(self).first_frame + start) * 4096
                        &&& range.len == count * PAGE_SIZE
                        &&& range.len == count * 4096
                        &&& final(self).took(old(self), start, count as int)
                        &&& final(self).free_frames == old(self).free_frames - count
                        &&& forall|k: int|
                            #[trigger] final(self).free_at(k) <==> old(self).free_at(k) && !(start
                                <= k < start + count)
                    },
                None => {
                    &&& count == 0 || forall|start: int|
                        !#[trigger] old(self).free_run(start, count as int)
                    &&& *final(self) == *old(self)
                },
            },
            final(self).first_frame == old(self).first_frame,
            final(self).frames == old(self).frames,
            final(self).ranges() == old(self).ranges(),
    {
        if count == 0 {
            return None;
        }
        let count: u64 = count as u64;
        let start: u64 = match self.find_free_run(count) {
            Some(start) => start,
            None => return None,
        };
        let mut index: u64 = start;
        while index < start + count
            invariant
                start <= index <= start + count,
                start + count <= self.frames,
                old(self).free_run(start as int, count as int),
                self.well_formed(),
                self.took(old(self), start as int, index - start),
                old(self).used@.len() >= old(self).allocatable@.len(),
                old(self).allocatable@.len() == (old(self).frames + 7) / 8,
            decreases start + count - index,
        {
            assert(old(self).free_at(index as int));
            assert(bit_at(self.used@, index as int) == bit_at(old(self).used@, index as int));
            self.mark_used(index);
            index = index + 1;
        }
        proof {
            assert forall|k: int| #[trigger] self.free_at(k) <==> old(self).free_at(k) && !(start <= k
                < start + count) by {
                law_what_changes_hands(old(self), self, start as int, count as int, k);
            }
        }
        Some(
            PhysRange { start: (self.first_frame + start) * PAGE_SIZE, len: count * PAGE_SIZE },
        )
    }

    /// Gives a frame back.
    ///
    /// # Errors
    /// See [`FreeError`]; nothing has changed then.
    pub fn free(&mut self, frame: PhysFrame) -> (result: Result<(), FreeError>)
        requires
            old(self).well_formed(),
        ensures
            final(self).well_formed(),
            ({
                let index = old(self).index_of(frame.address as int);
                let number = frame.address as int / PAGE_SIZE as int;
                match result {
                    Ok(()) => {
                        &&& index is Some
                        &&& old(self).allocatable_at(index->0)
                        &&& old(self).used_at(index->0)
                        &&& final(self).gave_back(old(self), index->0)
                    },
                    Err(error) => {
                        &&& *final(self) == *old(self)
                        &&& error == (if index is None {
                            FreeError::NotManaged(frame.address)
                        } else if reserved_frame(old(self).ranges(), number) {
                            FreeError::Reserved(frame.address)
                        } else if !old(self).allocatable_at(index->0) {
                            FreeError::NotManaged(frame.address)
                        } else {
                            FreeError::AlreadyFree(frame.address)
                        })
                        &&& index is Some && old(self).allocatable_at(index->0) ==> old(
                            self,
                        ).free_at(index->0)
                    },
                }
            }),
            // The frame that was given back is free again, and no other frame has changed.
            result is Ok ==> {
                &&& final(self).free_frames == old(self).free_frames + 1
                &&& forall|k: int|
                    #[trigger] final(self).free_at(k) <==> old(self).free_at(k) || (
                    old(self).first_frame + k) * 4096 == frame.address
            },
            // Refused as reserved is exactly a managed frame with an address in one of the ranges.
            result matches Err(FreeError::Reserved(_)) <==> {
                &&& frame.address % 4096 == 0
                &&& old(self).first_frame * 4096 <= frame.address
                &&& frame.address < (old(self).first_frame + old(self).frames) * 4096
                &&& exists|j: int|
                    {
                        &&& 0 <= j < old(self).ranges().len()
                        &&& (#[trigger] old(self).ranges()[j]).start < old(self).ranges()[j].end
                        &&& old(self).ranges()[j].start < frame.address + 4096
                        &&& frame.address < old(self).ranges()[j].end
                    }
            },
            final(self).first_frame == old(self).first_frame,
            final(self).frames == old(self).frames,
            final(self).ranges() == old(self).ranges(),
    {
        proof {
            law_every_reserved_range_counts(self.ranges(), frame.address as int / 4096);
        }
        let index: u64 = match self.frame_index(frame.address) {
            Some(index) => index,
            None => return Err(FreeError::NotManaged(frame.address)),
        };
        if self.is_reserved(frame.address) {
            return Err(FreeError::Reserved(frame.address));
        }
        if !self.is_allocatable(index) {
            // Never part of what may be handed out: firmware memory, MMIO and the like.
            return Err(FreeError::NotManaged(frame.address));
        }
        if !self.is_used(index) {
            // Allocatable but not handed out: only a double free gets here.
            return Err(FreeError::AlreadyFree(frame.address));
        }
        proof {
            lemma_free_among_bounds(self.allocatable@, self.used@, self.frames as int);
        }
        set_bit(self.used, index, false);
        proof {
            lemma_free_among(
                old(self).allocatable@,
                old(self).used@,
                self.allocatable@,
                self.used@,
                self.frames as int,
                index as int,
            );
            lemma_free_among_bounds(self.allocatable@, self.used@, self.frames as int);
        }
        self.free_frames = self.free_frames + 1;
        proof {
            assert forall|k: int| #[trigger] self.free_at(k) <==> old(self).free_at(k) || (old(
                self,
            ).first_frame + k) * 4096 == frame.address by {
                law_what_changes_hands(old(self), self, index as int, 1, k);
            }
        }
        Ok(())
    }

    /// Whether the frame with this index has an address in `[start, end)`.
    pub open spec fn touches(&self, index: int, start: int, end: int) -> bool {
        &&& start < end
        &&& self.address_of(index) < end
        &&& start < self.address_of(index) + PAGE_SIZE
    }

    /// The lowest free frame that overlaps `[start, end)`.
    #[must_use]
    pub fn first_free_in(&self, start: u64, end: u64) -> (frame: Option<PhysFrame>)
        requires
            self.well_formed(),
        ensures
            match frame {
                Some(frame) => exists|i: int|
                    {
                        &&& #[trigger] self.free_at(i)
                        &&& frame.address == self.address_of(i)
                        &&& self.touches(i, start as int, end as int)
                        &&& forall|k: int|
                            #[trigger] self.free_at(k) && k < i ==> !self.touches(
                                k,
                                start as int,
                                end as int,
                            )
                    },
                None => forall|i: int|
                    #[trigger] self.free_at(i) ==> !self.touches(i, start as int, end as int),
            },
    {
        if start >= end {
            return None;
        }
        let first: u64 = start / PAGE_SIZE;
        let last: u64 = if end % PAGE_SIZE == 0 {
            end / PAGE_SIZE
        } else {
            end / PAGE_SIZE + 1
        };
        let mut frame: u64 = first;
        while frame < last
            invariant
                self.well_formed(),
                start < end,
                first == start / PAGE_SIZE,
                last == (end + PAGE_SIZE - 1) / PAGE_SIZE as int,
                first <= frame,
                forall|i: int|
                    #[trigger] self.free_at(i) && first <= self.first_frame + i ==> self.first_frame
                        + i >= frame,
            decreases last - frame,
        {
            if let Some(index) = self.frame_index(frame * PAGE_SIZE) {
                if self.is_free(index) {
                    assert(self.free_at(index as int));
                    return Some(PhysFrame::new(frame * PAGE_SIZE));
                }
            }
            frame = frame + 1;
        }
        None
    }
}

/// The bits of two bitmaps that lie one behind the other.
proof fn lemma_bits_of_both(lower: Seq<u8>, upper: Seq<u8>, half: int)
    requires
        lower.len() == half,
        upper.len() >= half,
    ensures
        forall|i: int|
            0 <= i < 16 * half ==> #[trigger] bit_at(lower + upper, i) == (if i < 8 * half {
                bit_at(lower, i)
            } else {
                bit_at(upper, i - 8 * half)
            }),
{
}

/// One more region either covers the frame or changes nothing.
proof fn lemma_conventional_step(regions: Seq<Region>, r: int, frame: int)
    requires
        0 <= r < regions.len(),
    ensures
        conventional_among(regions, r + 1, frame) == (conventional_among(regions, r, frame) || (
        regions[r].kind == MemoryKind::Conventional && covers(regions[r], frame))),
{
    if conventional_among(regions, r, frame) {
        let q = choose|q: int|
            0 <= q < r && (#[trigger] regions[q]).kind == MemoryKind::Conventional && covers(
                regions[q],
                frame,
            );
        assert(regions[q].kind == MemoryKind::Conventional);
    }
}

/// Clears the first bitmap and fills the first `half` bytes of the second.
fn clear(allocatable: &mut [u8], used: &mut [u8], half: usize)
    requires
        old(allocatable)@.len() == half,
        old(used)@.len() >= half,
    ensures
        final(allocatable)@.len() == half,
        final(used)@.len() == old(used)@.len(),
        final(used)@.skip(half as int) == old(used)@.skip(half as int),
        forall|i: int| 0 <= i < 8 * half ==> !#[trigger] bit_at(final(allocatable)@, i),
        forall|i: int| 0 <= i < 8 * half ==> #[trigger] bit_at(final(used)@, i),
{
    let mut at: usize = 0;
    while at < half
        invariant
            at <= half,
            allocatable@.len() == half,
            used@.len() == old(used)@.len(),
            used@.len() >= half,
            used@.skip(half as int) == old(used)@.skip(half as int),
            forall|i: int| 0 <= i < at ==> #[trigger] allocatable@[i] == 0x00,
            forall|i: int| 0 <= i < at ==> #[trigger] used@[i] == 0xFF,
        decreases half - at,
    {
        allocatable[at] = 0x00;
        used[at] = 0xFF;
        at = at + 1;
    }
    proof {
        assert forall|i: int| 0 <= i < 8 * half implies !#[trigger] bit_at(allocatable@, i) by {
            let k = (i % 8) as u8;
            assert(allocatable@[i / 8] == 0x00);
            assert(0u8 & (1u8 << k) == 0) by (bit_vector);
        }
        assert forall|i: int| 0 <= i < 8 * half implies #[trigger] bit_at(used@, i) by {
            let k = (i % 8) as u8;
            assert(used@[i / 8] == 0xFF);
            assert(0xFFu8 & (1u8 << k) != 0) by (bit_vector)
                requires
                    k < 8,
            ;
        }
    }
}

/// No free frame lies in low memory, whatever the managed window.
pub proof fn law_low_frames_are_never_free(allocator: &FrameAllocator, index: int)
    requires
        allocator.well_formed(),
        allocator.free_at(index),
    ensures
        allocator.address_of(index) >= MIN_FREE_ADDR,
{
    assert(bit_at(allocator.allocatable@, index));
}

/// No free frame overlaps a reserved range.
pub proof fn law_free_frames_are_not_reserved(allocator: &FrameAllocator, index: int)
    requires
        allocator.well_formed(),
        allocator.free_at(index),
    ensures
        !reserved_frame(allocator.ranges(), allocator.first_frame + index),
{
    assert(bit_at(allocator.allocatable@, index));
}

/// The bits behind the managed window are never allocatable and always used, so no frame outside
/// the window can be handed out.
pub proof fn law_trailing_bits_are_dead(allocator: &FrameAllocator, index: int)
    requires
        allocator.well_formed(),
        allocator.frames <= index < 8 * allocator.allocatable@.len(),
    ensures
        !allocator.allocatable_bit(index),
        allocator.used_at(index),
        !allocator.free_at(index),
{
    if !bit_at(allocator.used@, index) {
        assert(bit_at(allocator.allocatable@, index));
    }
}

/// Frames that were handed out are not free any more, so no frame is handed out twice; every
/// other frame is as free as before.
pub proof fn law_taken_frames_are_not_free(
    before: &FrameAllocator,
    after: &FrameAllocator,
    start: int,
    count: int,
    index: int,
)
    requires
        before.well_formed(),
        before.free_run(start, count),
        after.took(before, start, count),
    ensures
        start <= index < start + count ==> !after.free_at(index),
        !(start <= index < start + count) ==> after.free_at(index) == before.free_at(index),
{
    if 0 <= index < before.frames {
        assert(index < 8 * before.used@.len());
        assert(bit_at(after.used@, index) == (start <= index < start + count || bit_at(
            before.used@,
            index,
        )));
    }
}

/// Giving a frame back undoes handing it out: the same frames are free as before, so the next
/// request gets the same frame again.
pub proof fn law_free_undoes_allocate(
    before: &FrameAllocator,
    taken: &FrameAllocator,
    after: &FrameAllocator,
    start: int,
    index: int,
)
    requires
        before.well_formed(),
        before.free_at(start),
        taken.took(before, start, 1),
        after.gave_back(taken, start),
    ensures
        after.free_at(index) == before.free_at(index),
        after.free_frames == before.free_frames,
{
    if 0 <= index < before.frames {
        assert(index < 8 * before.used@.len());
        assert(bit_at(taken.used@, index) == (start <= index < start + 1 || bit_at(
            before.used@,
            index,
        )));
        assert(bit_at(after.used@, index) == (index != start && bit_at(taken.used@, index)));
    }
}

/// Every managed frame lies inside the window; with the default window none lies below 1 MiB.
pub proof fn law_frames_lie_in_the_window(config: Config, allocator: &FrameAllocator, index: int)
    requires
        allocator.first_frame == config.first_frame(),
        allocator.first_frame + allocator.frames == config.end_frame(),
        0 <= index < allocator.frames,
    ensures
        config.managed_start <= allocator.address_of(index),
        allocator.address_of(index) + PAGE_SIZE <= config.limit,
        allocator.index_of(allocator.address_of(index)) == Some(index),
{
}

/// There are never more free frames than managed ones.
pub proof fn law_free_count_is_bounded(allocator: &FrameAllocator)
    requires
        allocator.well_formed(),
    ensures
        allocator.free_frames <= allocator.frames,
        allocator.free_frames == 0 <==> forall|i: int| !#[trigger] allocator.free_at(i),
{
    lemma_free_among_bounds(allocator.allocatable@, allocator.used@, allocator.frames as int);
    if allocator.free_frames == 0 {
        assert forall|i: int| !#[trigger] allocator.free_at(i) by {
            if 0 <= i < allocator.frames {
                assert(!(bit_at(allocator.allocatable@, i) && !bit_at(allocator.used@, i)));
            }
        }
    } else {
        let i = choose|i: int|
            0 <= i < allocator.frames && #[trigger] bit_at(allocator.allocatable@, i) && !bit_at(
                allocator.used@,
                i,
            );
        assert(allocator.free_at(i));
    }
}

} // verus!
