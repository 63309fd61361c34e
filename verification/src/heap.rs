//! The kernel heap: a first-fit free list.
//!
//! * All state lives **inside the arena** the caller provides, in block headers; [`FreeList`]
//!   itself only keeps the entry point and the statistics.
//! * A block header is 24 bytes: `magic` (u32), padding (u32), `size` and `next` (8 bytes each),
//!   aligned to 8 bytes.
//! * The free list is kept in **address order**; freeing merges a block with its neighbours.
//! * The header of an allocated block sits **directly in front of** its payload, so `dealloc`
//!   finds it from the offset alone and needs no layout.
//! * `magic` tells free blocks from allocated ones, and `dealloc` follows the blocks from the start
//!   of the arena: a double free or a foreign offset is refused, even if old bytes in front of it
//!   look like a header. Where a damaged block in front stops it, the header alone decides.
//!
//! The contracts below hold of every arena, including one whose metadata was overwritten: they
//! follow the list through the bytes. [`crate::heap_model`] states what they mean for a heap in
//! good order.

use vstd::prelude::*;
use vstd::string::*;

use crate::bytes::{
    lemma_le32_at, lemma_le64_at, le32, le64, read_u32, read_u64, spliced, u32_at, u64_at,
    write_u32, write_u64,
};
use crate::heap_model::{law_allocate_keeps_order, law_dealloc_keeps_order, law_init, Block};
use crate::laws::heap::{
    law_a_block_is_freed, law_a_failed_request, law_a_fresh_heap, law_a_served_request,
    law_reasons_to_refuse_an_offset, law_room_is_used, law_which_offsets_are_taken_back,
};
use crate::math::{align_up, is_power_of_two, lemma_round_up, power_of_two, round_up};
use crate::text::{hex, push_hex};

verus! {

/// Length of a block header in bytes.
pub const HEADER_SIZE: usize = 24;

/// The smallest payload worth splitting off, in bytes.
pub const MIN_PAYLOAD: usize = 16;

/// The smallest block that is split off on its own (header and smallest payload).
pub const MIN_BLOCK: usize = HEADER_SIZE + MIN_PAYLOAD;

/// Alignment of block headers.
pub const HEADER_ALIGN: usize = 8;

/// Largest alignment a request may ask for.
pub const MAX_ALIGN: usize = 4096;

/// Magic of a free block ("FREE").
pub const MAGIC_FREE: u32 = 0x4652_4545;

/// Magic of an allocated block ("ALLO").
pub const MAGIC_ALLOC: u32 = 0x414C_4C4F;

/// End of the free list.
pub const NONE: usize = usize::MAX;

/// Why an offset could not be freed.
#[derive(Clone, Copy, PartialEq, Eq, Structural, Debug)]
pub enum FreeListError {
    /// The offset is outside the arena or not aligned like a header.
    OutOfArena {
        /// The offset that was given.
        offset: usize,
    },
    /// The offset lies in a block that is already free (a double free).
    AlreadyFree {
        /// The offset that was given.
        offset: usize,
    },
    /// No allocated block starts in front of the offset.
    NotAllocated {
        /// The offset that was given.
        offset: usize,
    },
    /// A header is damaged, for example its size leaves the arena.
    Corrupted {
        /// Where the damage was found.
        offset: usize,
    },
}

impl FreeListError {
    /// The message of this error.
    pub open spec fn message(self) -> Seq<char> {
        match self {
            FreeListError::OutOfArena { offset } => "堆偏移 0x"@ + hex(offset as nat)
                + " 不在堆区间内或未对齐"@,
            FreeListError::AlreadyFree { offset } => "堆偏移 0x"@ + hex(offset as nat)
                + " 重复释放"@,
            FreeListError::NotAllocated { offset } => "堆偏移 0x"@ + hex(offset as nat)
                + " 之前没有已分配的块头"@,
            FreeListError::Corrupted { offset } => "堆元数据在偏移 0x"@ + hex(offset as nat)
                + " 处已损坏"@,
        }
    }

    /// The message of this error.
    #[must_use]
    pub fn to_string(&self) -> (text: String)
        ensures
            text@ == self.message(),
    {
        let mut text = String::new();
        match *self {
            Self::OutOfArena { offset } => {
                text.append("堆偏移 0x");
                push_hex(&mut text, offset as u64);
                text.append(" 不在堆区间内或未对齐");
            },
            Self::AlreadyFree { offset } => {
                text.append("堆偏移 0x");
                push_hex(&mut text, offset as u64);
                text.append(" 重复释放");
            },
            Self::NotAllocated { offset } => {
                text.append("堆偏移 0x");
                push_hex(&mut text, offset as u64);
                text.append(" 之前没有已分配的块头");
            },
            Self::Corrupted { offset } => {
                text.append("堆元数据在偏移 0x");
                push_hex(&mut text, offset as u64);
                text.append(" 处已损坏");
            },
        }
        text
    }
}

/// Heap statistics.
#[derive(Clone, Copy, PartialEq, Eq, Structural, Debug)]
pub struct HeapStats {
    /// Number of free blocks.
    pub free_blocks: usize,
    /// Free payload bytes in total (without headers).
    pub free_bytes: usize,
    /// Payload bytes of the largest free block.
    pub largest_free: usize,
}

impl Default for HeapStats {
    fn default() -> (stats: Self)
        ensures
            stats == (HeapStats { free_blocks: 0, free_bytes: 0, largest_free: 0 }),
    {
        HeapStats { free_blocks: 0, free_bytes: 0, largest_free: 0 }
    }
}

/// The first-fit free list.
#[derive(Clone, Copy, PartialEq, Eq, Structural, Debug)]
pub struct FreeList {
    /// Offset of the first free block; [`NONE`] if there is none.
    pub(crate) head: usize,
    /// Length of the arena, rounded down to [`HEADER_ALIGN`].
    pub(crate) arena_len: usize,
    /// Number of free blocks.
    pub(crate) free_blocks: usize,
    /// Free payload bytes in total.
    pub(crate) free_bytes: usize,
    /// Payload bytes of the largest free block.
    pub(crate) largest_free: usize,
}

// ---------------------------------------------------------------------------------------------
// Block headers
// ---------------------------------------------------------------------------------------------

/// The header stored at `offset`: magic, size and link.
#[verifier::opaque]
pub open spec fn header_at(bytes: Seq<u8>, offset: int) -> (u32, usize, usize) {
    (u32_at(bytes, offset), u64_at(bytes, offset + 8) as usize, u64_at(bytes, offset + 16) as usize)
}

/// The arena after a header was written at `offset`.
#[verifier::opaque]
pub open spec fn with_header(
    bytes: Seq<u8>,
    offset: int,
    magic: u32,
    size: int,
    next: usize,
) -> Seq<u8> {
    spliced(bytes, offset, le32(magic) + le32(0) + le64(size as u64) + le64(next as u64))
}

/// A header read back is the header that was written, and only its 24 bytes change.
pub proof fn lemma_with_header(bytes: Seq<u8>, offset: int, magic: u32, size: int, next: usize)
    requires
        0 <= offset,
        offset + HEADER_SIZE <= bytes.len(),
        0 <= size <= usize::MAX,
    ensures
        with_header(bytes, offset, magic, size, next).len() == bytes.len(),
        header_at(with_header(bytes, offset, magic, size, next), offset) == (
            magic,
            size as usize,
            next,
        ),
        forall|i: int|
            0 <= i < bytes.len() && !(offset <= i < offset + HEADER_SIZE) ==> (
            #[trigger] with_header(bytes, offset, magic, size, next)[i]) == bytes[i],
        forall|other: int|
            (0 <= other && other + HEADER_SIZE <= offset) || offset + HEADER_SIZE <= other <=
                bytes.len() - HEADER_SIZE ==> (#[trigger] header_at(
                with_header(bytes, offset, magic, size, next),
                other,
            )) == header_at(bytes, other),
{
    reveal(header_at);
    reveal(with_header);
    let data = le32(magic) + le32(0) + le64(size as u64) + le64(next as u64);
    let after = with_header(bytes, offset, magic, size, next);
    assert(data.len() == HEADER_SIZE);
    assert forall|i: int| 0 <= i < 4 implies after[offset + i] == #[trigger] le32(magic)[i] by {
        assert(data[i] == le32(magic)[i]);
    }
    lemma_le32_at(after, offset, magic);
    assert forall|i: int| 0 <= i < 8 implies after[offset + 8 + i] == #[trigger] le64(
        size as u64,
    )[i] by {
        assert(data[i + 8] == le64(size as u64)[i]);
    }
    lemma_le64_at(after, offset + 8, size as u64);
    assert forall|i: int| 0 <= i < 8 implies after[offset + 16 + i] == #[trigger] le64(
        next as u64,
    )[i] by {
        assert(data[i + 16] == le64(next as u64)[i]);
    }
    lemma_le64_at(after, offset + 16, next as u64);
    assert forall|other: int|
        (0 <= other && other + HEADER_SIZE <= offset) || offset + HEADER_SIZE <= other <= bytes.len()
            - HEADER_SIZE implies #[trigger] header_at(after, other) == header_at(bytes, other) by {
        lemma_same_header(after, bytes, other);
    }
}

/// A header depends only on its own 24 bytes.
pub proof fn lemma_same_header(a: Seq<u8>, b: Seq<u8>, offset: int)
    requires
        forall|i: int| offset <= i < offset + HEADER_SIZE ==> a[i] == b[i],
    ensures
        header_at(a, offset) == header_at(b, offset),
{
    reveal(header_at);
}

/// Writes a block header.
pub fn write_header(arena: &mut [u8], offset: usize, magic: u32, size: usize, next: usize)
    requires
        offset + HEADER_SIZE <= old(arena).len(),
    ensures
        final(arena)@ == with_header(old(arena)@, offset as int, magic, size as int, next),
{
    write_u32(arena, offset, magic);
    write_u32(arena, offset + 4, 0);
    write_u64(arena, offset + 8, size as u64);
    write_u64(arena, offset + 16, next as u64);
    proof {
        reveal(with_header);
        let data = le32(magic) + le32(0) + le64(size as u64) + le64(next as u64);
        assert(data.len() == HEADER_SIZE);
        assert(arena@ =~= spliced(old(arena)@, offset as int, data));
    }
}

/// Reads a block header; `None` if it would leave the arena.
pub fn read_header(arena: &[u8], offset: usize) -> (header: Option<(u32, usize, usize)>)
    ensures
        header == (if offset + HEADER_SIZE <= arena@.len() {
            Some(header_at(arena@, offset as int))
        } else {
            None
        }),
{
    if arena.len() < HEADER_SIZE || offset > arena.len() - HEADER_SIZE {
        return None;
    }
    proof {
        reveal(header_at);
    }
    Some(
        (
            read_u32(arena, offset),
            read_u64(arena, offset + 8) as usize,
            read_u64(arena, offset + 16) as usize,
        ),
    )
}


// ---------------------------------------------------------------------------------------------
// Following the free list
// ---------------------------------------------------------------------------------------------

/// Whether a sound free block starts at `offset` of an arena of length `arena_len`.
pub open spec fn is_free_block(bytes: Seq<u8>, arena_len: int, offset: int) -> bool {
    let (magic, size, _) = header_at(bytes, offset);
    &&& offset + HEADER_SIZE <= bytes.len()
    &&& magic == MAGIC_FREE
    &&& size >= HEADER_SIZE
    &&& offset + size <= arena_len
}

/// Number, total payload and largest payload of the free blocks met from `current` on.
///
/// The walk ends at the end of the list, at a damaged block, or after `steps` blocks.
pub open spec fn chain_stats(bytes: Seq<u8>, arena_len: int, current: usize, steps: nat) -> (
    nat,
    nat,
    nat,
)
    decreases steps,
{
    if current == NONE || steps == 0 || !is_free_block(bytes, arena_len, current as int) {
        (0, 0, 0)
    } else {
        let (_, size, next) = header_at(bytes, current as int);
        let payload = (size - HEADER_SIZE) as nat;
        let rest = chain_stats(bytes, arena_len, next, (steps - 1) as nat);
        (rest.0 + 1, rest.1 + payload, if payload > rest.2 { payload } else { rest.2 })
    }
}

/// Where the payload of a request goes in a free block at `start`.
///
/// The header has to touch the payload, so the payload either follows the block's own header
/// directly, or leaves room for a free block of its own in front.
pub open spec fn payload_offset(start: int, align: int) -> int {
    let lowest = start + HEADER_SIZE;
    let nearest = round_up(lowest, align);
    if nearest == lowest || nearest >= lowest + MIN_BLOCK {
        nearest
    } else {
        round_up(lowest + MIN_BLOCK, align)
    }
}

/// What first fit decides about one free block.
#[derive(Clone, Copy, PartialEq, Eq, Structural, Debug)]
pub enum Verdict {
    /// The request fits: its payload goes to `payload`, what is left over starts at `tail_start`.
    Fits {
        /// Offset of the payload.
        payload: usize,
        /// First header-aligned offset behind the payload.
        tail_start: usize,
    },
    /// The block is too small; the next one is tried.
    TooSmall,
    /// An offset overflows or the block ends between two header positions; the search fails.
    Unusable,
}

/// What first fit decides about the free block `[start, end)`.
pub open spec fn verdict(start: int, end: int, size: int, align: int) -> Verdict {
    let lowest = start + HEADER_SIZE;
    let payload = payload_offset(start, align);
    let tail_start = round_up(payload + size, HEADER_ALIGN as int);
    if lowest + align - 1 > usize::MAX || (payload != round_up(lowest, align) && lowest + MIN_BLOCK
        + align - 1 > usize::MAX) || payload + size > usize::MAX {
        Verdict::Unusable
    } else if payload + size > end {
        Verdict::TooSmall
    } else if payload + size + HEADER_ALIGN - 1 > usize::MAX || tail_start > end {
        Verdict::Unusable
    } else {
        Verdict::Fits { payload: payload as usize, tail_start: tail_start as usize }
    }
}

/// The first free block from `current` on that takes the request: the block before it in the
/// list, and the block itself.
pub open spec fn first_fit(
    bytes: Seq<u8>,
    arena_len: int,
    previous: usize,
    current: usize,
    steps: nat,
    size: int,
    align: int,
) -> Option<(usize, usize)>
    decreases steps,
{
    if current == NONE || steps == 0 || !is_free_block(bytes, arena_len, current as int) {
        None
    } else {
        let (_, block_size, next) = header_at(bytes, current as int);
        match verdict(current as int, current + block_size, size, align) {
            Verdict::Fits { .. } => Some((previous, current)),
            Verdict::TooSmall => first_fit(
                bytes,
                arena_len,
                current,
                next,
                (steps - 1) as nat,
                size,
                align,
            ),
            Verdict::Unusable => None,
        }
    }
}

/// The arena and the list head after the free block `current` was split around a payload.
///
/// What is left behind the payload becomes a free block if it is large enough and else stays
/// with the allocation; a gap in front of the new header becomes a free block too.
pub open spec fn carved(
    bytes: Seq<u8>,
    head: usize,
    previous: usize,
    current: usize,
    payload: usize,
    tail_start: usize,
) -> (Seq<u8>, usize) {
    let (_, block_size, next) = header_at(bytes, current as int);
    let block_end = current + block_size;
    let header = payload - HEADER_SIZE;
    let has_tail = block_end - tail_start >= MIN_BLOCK;
    let alloc_end: int = if has_tail { tail_start as int } else { block_end };
    let allocated = with_header(bytes, header, MAGIC_ALLOC, alloc_end - header, NONE);
    let tailed = if has_tail {
        with_header(allocated, tail_start as int, MAGIC_FREE, block_end - tail_start, next)
    } else {
        allocated
    };
    let tail_link = if has_tail { tail_start } else { next };
    let fronted = if header > current {
        with_header(tailed, current as int, MAGIC_FREE, header - current, tail_link)
    } else {
        tailed
    };
    let link = if header > current { current } else { tail_link };
    if previous == NONE {
        (fronted, link)
    } else {
        let previous_size = header_at(bytes, previous as int).1;
        (with_header(fronted, previous as int, MAGIC_FREE, previous_size as int, link), head)
    }
}

/// What lies at an offset, found by following the blocks from the start of the arena.
pub enum Place {
    /// A block starts there.
    Start,
    /// It lies inside a free block.
    InFree,
    /// It lies inside an allocated block.
    InAllocated,
    /// A block in front of it is damaged, so the blocks do not tell.
    Unknown,
}

/// Follows the blocks from `at` on to the one that holds `header`.
pub open spec fn located(bytes: Seq<u8>, arena_len: int, at: int, header: int) -> Place
    decreases header - at,
{
    let (magic, size, _) = header_at(bytes, at);
    if at >= header {
        Place::Start
    } else if (magic != MAGIC_FREE && magic != MAGIC_ALLOC) || size < HEADER_SIZE || at + size
        > arena_len {
        Place::Unknown
    } else if at + size <= header {
        located(bytes, arena_len, at + size, header)
    } else if magic == MAGIC_FREE {
        Place::InFree
    } else {
        Place::InAllocated
    }
}

/// Where a block that is being freed belongs in the list.
pub enum Site {
    /// Between these two free blocks; either may be [`NONE`].
    Between(usize, usize),
    /// The block overlaps one that is free.
    Overlap,
    /// The list is damaged at this offset.
    Damaged(usize),
}

/// Finds the place of the block `[header, block_end)` in the address-ordered list.
pub open spec fn site(
    bytes: Seq<u8>,
    arena_len: int,
    previous: usize,
    current: usize,
    steps: nat,
    header: int,
    block_end: int,
) -> Site
    decreases steps,
{
    if current == NONE {
        Site::Between(previous, NONE)
    } else if steps == 0 || !is_free_block(bytes, arena_len, current as int) {
        Site::Damaged(current)
    } else {
        let (_, size, next) = header_at(bytes, current as int);
        if current >= block_end {
            Site::Between(previous, current)
        } else if current + size > header {
            Site::Overlap
        } else {
            site(bytes, arena_len, current, next, (steps - 1) as nat, header, block_end)
        }
    }
}

/// The free block in front of `target`; `None` if the list does not lead to `target`.
pub open spec fn predecessor(
    bytes: Seq<u8>,
    previous: usize,
    current: usize,
    steps: nat,
    target: usize,
) -> Option<usize>
    decreases steps,
{
    if current == NONE || steps == 0 {
        None
    } else if current == target {
        Some(previous)
    } else if current + HEADER_SIZE > bytes.len() {
        None
    } else {
        predecessor(bytes, current, header_at(bytes, current as int).2, (steps - 1) as nat, target)
    }
}


/// The arena, the list head and the blocks involved after `[header, header + block_size)` was
/// put between `previous` and `current`, merged with the neighbours that touch it.
///
/// `Err` gives the offset at which the list no longer leads to `previous`.
pub open spec fn released(
    bytes: Seq<u8>,
    head: usize,
    steps: nat,
    header: int,
    block_size: int,
    previous: usize,
    current: usize,
) -> Result<(Seq<u8>, usize), usize> {
    let previous_size = header_at(bytes, previous as int).1;
    let joins_next = current != NONE && header + block_size == current;
    let joins_previous = previous != NONE && previous + previous_size == header;
    let start: int = if joins_previous { previous as int } else { header };
    let size = block_size + (if joins_next { header_at(bytes, current as int).1 as int } else { 0 })
        + (if joins_previous { previous_size as int } else { 0 });
    let link = if joins_next { header_at(bytes, current as int).2 } else { current };
    let before = if joins_previous {
        predecessor(bytes, NONE, head, steps, previous)
    } else {
        Some(previous)
    };
    match before {
        None => Err(previous),
        Some(before) => {
            let merged = with_header(bytes, start, MAGIC_FREE, size, link);
            if before == NONE {
                Ok((merged, start as usize))
            } else {
                let before_size = header_at(merged, before as int).1;
                Ok(
                    (
                        with_header(
                            merged,
                            before as int,
                            MAGIC_FREE,
                            before_size as int,
                            start as usize,
                        ),
                        head,
                    ),
                )
            }
        },
    }
}

impl FreeList {
    /// Offset of the first free block; [`NONE`] if there is none.
    pub open(crate) spec fn head_offset(&self) -> usize {
        self.head
    }

    /// Length of the arena.
    pub open(crate) spec fn span(&self) -> usize {
        self.arena_len
    }

    /// The statistics.
    pub open(crate) spec fn counts(&self) -> HeapStats {
        HeapStats {
            free_blocks: self.free_blocks,
            free_bytes: self.free_bytes,
            largest_free: self.largest_free,
        }
    }

    /// The list before any arena was given to it.
    pub open(crate) spec fn spec_empty() -> FreeList {
        FreeList { head: NONE, arena_len: 0, free_blocks: 0, free_bytes: 0, largest_free: 0 }
    }

    /// Whether `bytes` has the length of the arena this list was made for.
    pub open(crate) spec fn matches_arena(&self, bytes: Seq<u8>) -> bool {
        bytes.len() - bytes.len() % 8 == self.arena_len
    }

    /// Upper bound on the number of blocks in the list.
    pub open(crate) spec fn block_limit(&self) -> nat {
        (self.arena_len / HEADER_ALIGN + 2) as nat
    }

    /// This list with the given head and the statistics of the free blocks in `bytes`.
    pub open(crate) spec fn recounted(&self, head: usize, bytes: Seq<u8>) -> FreeList {
        let stats = chain_stats(bytes, self.arena_len as int, head, self.block_limit());
        FreeList {
            head,
            arena_len: self.arena_len,
            free_blocks: stats.0 as usize,
            free_bytes: if stats.1 <= usize::MAX { stats.1 as usize } else { usize::MAX },
            largest_free: stats.2 as usize,
        }
    }

    /// List and arena after the whole arena was turned into one free block.
    pub open(crate) spec fn init_outcome(bytes: Seq<u8>) -> (FreeList, Seq<u8>) {
        let len = bytes.len() - bytes.len() % 8;
        if len < MIN_BLOCK {
            (Self::spec_empty(), bytes)
        } else {
            (
                FreeList {
                    head: 0,
                    arena_len: len as usize,
                    free_blocks: 1,
                    free_bytes: (len - HEADER_SIZE) as usize,
                    largest_free: (len - HEADER_SIZE) as usize,
                },
                with_header(bytes, 0, MAGIC_FREE, len, NONE),
            )
        }
    }

    /// Result, list and arena after a request for `size` bytes aligned to `align`.
    pub open(crate) spec fn alloc_outcome(&self, bytes: Seq<u8>, size: usize, align: usize) -> (
        Option<usize>,
        FreeList,
        Seq<u8>,
    ) {
        let fit = first_fit(
            bytes,
            self.arena_len as int,
            NONE,
            self.head,
            self.block_limit(),
            size as int,
            align as int,
        );
        if size == 0 || !power_of_two(align as nat) || align > MAX_ALIGN || !self.matches_arena(
            bytes,
        ) || fit is None {
            (None, *self, bytes)
        } else {
            let (previous, current) = fit->0;
            let block_end = current + header_at(bytes, current as int).1;
            let place = verdict(current as int, block_end, size as int, align as int);
            let (after, head) = carved(
                bytes,
                self.head,
                previous,
                current,
                place->payload,
                place->tail_start,
            );
            (Some(place->payload), self.recounted(head, after), after)
        }
    }

    /// Result, list and arena after the payload at `offset` was given back.
    pub open(crate) spec fn dealloc_outcome(&self, bytes: Seq<u8>, offset: usize) -> (
        Result<(), FreeListError>,
        FreeList,
        Seq<u8>,
    ) {
        let header = offset - HEADER_SIZE;
        let (magic, block_size, _) = header_at(bytes, header);
        let block_end = header + block_size;
        if !self.matches_arena(bytes) || offset < HEADER_SIZE || offset >= self.arena_len || offset
            % HEADER_ALIGN != 0 {
            (Err(FreeListError::OutOfArena { offset }), *self, bytes)
        } else if magic == MAGIC_FREE {
            (Err(FreeListError::AlreadyFree { offset }), *self, bytes)
        } else if magic != MAGIC_ALLOC {
            (Err(FreeListError::NotAllocated { offset }), *self, bytes)
        } else if block_size < HEADER_SIZE || block_end > self.arena_len {
            (Err(FreeListError::Corrupted { offset: header as usize }), *self, bytes)
        } else {
            match located(bytes, self.arena_len as int, 0, header) {
                Place::InFree => (Err(FreeListError::AlreadyFree { offset }), *self, bytes),
                Place::InAllocated => (Err(FreeListError::NotAllocated { offset }), *self, bytes),
                Place::Start | Place::Unknown => self.release_outcome(bytes, offset),
            }
        }
    }

    /// Result, list and arena after the allocated block in front of `offset` was released.
    pub open(crate) spec fn release_outcome(&self, bytes: Seq<u8>, offset: usize) -> (
        Result<(), FreeListError>,
        FreeList,
        Seq<u8>,
    ) {
        let header = offset - HEADER_SIZE;
        let block_size = header_at(bytes, header).1;
        match site(
            bytes,
            self.arena_len as int,
            NONE,
            self.head,
            self.block_limit(),
            header,
            header + block_size,
        ) {
            Site::Overlap => (Err(FreeListError::AlreadyFree { offset }), *self, bytes),
            Site::Damaged(at) => (Err(FreeListError::Corrupted { offset: at }), *self, bytes),
            Site::Between(previous, current) => match released(
                bytes,
                self.head,
                self.block_limit(),
                header,
                block_size as int,
                previous,
                current,
            ) {
                Err(at) => (Err(FreeListError::Corrupted { offset: at }), *self, bytes),
                Ok((after, head)) => (Ok(()), self.recounted(head, after), after),
            },
        }
    }

    /// The list before any arena was given to it: every request fails.
    #[must_use]
    pub fn empty() -> (list: Self)
        ensures
            list == Self::spec_empty(),
            list.head_offset() == usize::MAX,
            list.span() == 0,
            list.counts() == (HeapStats { free_blocks: 0, free_bytes: 0, largest_free: 0 }),
    {
        Self { head: NONE, arena_len: 0, free_blocks: 0, free_bytes: 0, largest_free: 0 }
    }

    /// Turns the whole arena into one free block.
    ///
    /// An arena shorter than [`MIN_BLOCK`] gives the empty list.
    #[must_use]
    pub fn init(arena: &mut [u8]) -> (list: Self)
        ensures
            list == Self::init_outcome(old(arena)@).0,
            final(arena)@ == Self::init_outcome(old(arena)@).1,
            final(arena)@.len() == old(arena)@.len(),
            list.well_formed(final(arena)@),
            ({
                let len = old(arena)@.len() - old(arena)@.len() % 8;
                if len >= 40 {
                    &&& list.represents(
                        final(arena)@,
                        seq![Block { start: 0, size: len, free: true }],
                    )
                    &&& list.span() == len
                    &&& forall|x: int|
                        24 <= x < old(arena)@.len() ==> #[trigger] final(arena)@[x] == old(
                            arena,
                        )@[x]
                } else {
                    list.span() == 0 && final(arena)@ == old(arena)@
                }
            }),
    {
        let arena_len: usize = arena.len() - arena.len() % HEADER_ALIGN;
        proof {
            law_a_fresh_heap(arena@);
        }
        if arena_len < MIN_BLOCK {
            return Self::empty();
        }
        write_header(arena, 0, MAGIC_FREE, arena_len, NONE);
        proof {
            lemma_with_header(old(arena)@, 0, MAGIC_FREE, arena_len as int, NONE);
        }
        let list = Self {
            head: 0,
            arena_len,
            free_blocks: 1,
            free_bytes: arena_len - HEADER_SIZE,
            largest_free: arena_len - HEADER_SIZE,
        };
        proof {
            law_init(list, old(arena)@);
        }
        list
    }

    /// Statistics.
    #[must_use]
    pub fn stats(&self) -> (stats: HeapStats)
        ensures
            stats == self.counts(),
    {
        HeapStats {
            free_blocks: self.free_blocks,
            free_bytes: self.free_bytes,
            largest_free: self.largest_free,
        }
    }

    /// Whether the list has no arena: it was not set up, or its arena was too small to use. A heap
    /// that is merely exhausted has one.
    #[must_use]
    pub fn is_empty(&self) -> (result: bool)
        ensures
            result == (self.span() == 0),
    {
        self.arena_len == 0
    }

    /// Offset of the first free block; [`NONE`] if there is none.
    #[must_use]
    pub fn head(&self) -> (offset: usize)
        ensures
            offset == self.head_offset(),
    {
        self.head
    }

    /// Length of the arena.
    #[must_use]
    pub fn arena_len(&self) -> (len: usize)
        ensures
            len == self.span(),
    {
        self.arena_len
    }

    /// Whether `arena` has the length of the one this list was made for.
    fn arena_matches(&self, arena: &[u8]) -> (result: bool)
        ensures
            result == self.matches_arena(arena@),
    {
        arena.len() - arena.len() % HEADER_ALIGN == self.arena_len
    }

    /// Upper bound on the number of blocks in the list: a damaged list cannot loop for ever.
    pub fn max_blocks(&self) -> (limit: usize)
        ensures
            limit == self.block_limit(),
            limit == self.span() / 8 + 2,
    {
        self.arena_len / HEADER_ALIGN + 2
    }

    /// Walks the free list and counts the statistics anew.
    fn recompute(&mut self, arena: &[u8])
        ensures
            *final(self) == old(self).recounted(old(self).head, arena@),
    {
        let mut free_blocks: usize = 0;
        let mut free_bytes: usize = 0;
        let mut largest_free: usize = 0;
        let mut current: usize = self.head;
        let mut guard: usize = 0;
        let limit: usize = self.max_blocks();
        let arena_len: usize = self.arena_len;
        let ghost total = chain_stats(arena@, arena_len as int, current, limit as nat);
        let ghost mut sum: nat = 0;
        while current != NONE && guard < limit
            invariant_except_break
                guard <= limit,
                free_blocks == guard,
                free_bytes == (if sum <= usize::MAX { sum as int } else { usize::MAX as int }),
                ({
                    let rest = chain_stats(
                        arena@,
                        arena_len as int,
                        current,
                        (limit - guard) as nat,
                    );
                    &&& total.0 == free_blocks + rest.0
                    &&& total.1 == sum + rest.1
                    &&& total.2 == (if largest_free > rest.2 { largest_free as nat } else { rest.2 })
                }),
            ensures
                total.0 == free_blocks,
                free_bytes == (if total.1 <= usize::MAX { total.1 as int } else { usize::MAX as int }),
                total.2 == largest_free,
            decreases limit - guard,
        {
            let (magic, size, next) = match read_header(arena, current) {
                Some(header) => header,
                None => break,
            };
            if magic != MAGIC_FREE || size < HEADER_SIZE || current > arena_len || size > arena_len
                - current {
                break;
            }
            guard = guard + 1;
            free_blocks = free_blocks + 1;
            let payload: usize = size - HEADER_SIZE;
            free_bytes = free_bytes.saturating_add(payload);
            proof {
                sum = sum + payload as nat;
            }
            if payload > largest_free {
                largest_free = payload;
            }
            current = next;
        }
        self.free_blocks = free_blocks;
        self.free_bytes = free_bytes;
        self.largest_free = largest_free;
    }

    /// Finds the free block in front of `target`.
    fn previous_free(&self, arena: &[u8], target: usize) -> (previous: Option<usize>)
        ensures
            previous == predecessor(arena@, NONE, self.head, self.block_limit(), target),
            previous is Some ==> previous->0 == NONE || previous->0 + HEADER_SIZE <= arena@.len(),
    {
        let mut previous: usize = NONE;
        let mut current: usize = self.head;
        let mut guard: usize = 0;
        let limit: usize = self.max_blocks();
        while current != NONE
            invariant
                guard <= limit,
                limit == self.block_limit(),
                previous == NONE || previous + HEADER_SIZE <= arena@.len(),
                predecessor(arena@, NONE, self.head, self.block_limit(), target) == predecessor(
                    arena@,
                    previous,
                    current,
                    (limit - guard) as nat,
                    target,
                ),
            decreases limit - guard,
        {
            if guard >= limit {
                return None;
            }
            guard = guard + 1;
            if current == target {
                return Some(previous);
            }
            let next: usize = match read_header(arena, current) {
                Some((_, _, next)) => next,
                None => return None,
            };
            previous = current;
            current = next;
        }
        None
    }

    /// Finds the first free block that takes the request: the block before it in the list, the
    /// block itself and how the request is placed in it.
    fn find_fit(&self, arena: &[u8], size: usize, align: usize) -> (fit: Option<
        (usize, usize, usize, usize),
    >)
        requires
            align > 0,
        ensures
            ({
                let found = first_fit(
                    arena@,
                    self.arena_len as int,
                    NONE,
                    self.head,
                    self.block_limit(),
                    size as int,
                    align as int,
                );
                match fit {
                    None => found is None,
                    Some((previous, current, payload, tail_start)) => {
                        &&& found == Some((previous, current))
                        &&& previous == NONE || is_free_block(
                            arena@,
                            self.arena_len as int,
                            previous as int,
                        )
                        &&& is_free_block(arena@, self.arena_len as int, current as int)
                        &&& verdict(
                            current as int,
                            current + header_at(arena@, current as int).1,
                            size as int,
                            align as int,
                        ) == Verdict::Fits { payload, tail_start }
                    },
                }
            }),
    {
        let mut previous: usize = NONE;
        let mut current: usize = self.head;
        let mut guard: usize = 0;
        let limit: usize = self.max_blocks();
        let arena_len: usize = self.arena_len;
        while current != NONE
            invariant
                guard <= limit,
                limit == self.block_limit(),
                arena_len == self.arena_len,
                align > 0,
                previous == NONE || is_free_block(arena@, arena_len as int, previous as int),
                first_fit(
                    arena@,
                    self.arena_len as int,
                    NONE,
                    self.head,
                    self.block_limit(),
                    size as int,
                    align as int,
                ) == first_fit(
                    arena@,
                    arena_len as int,
                    previous,
                    current,
                    (limit - guard) as nat,
                    size as int,
                    align as int,
                ),
            decreases limit - guard,
        {
            if guard >= limit {
                return None;  // the list looks like a cycle: failing beats hanging
            }
            guard = guard + 1;
            let (magic, block_size, next) = match read_header(arena, current) {
                Some(header) => header,
                None => return None,
            };
            if magic != MAGIC_FREE || block_size < HEADER_SIZE || current > arena_len || block_size
                > arena_len - current {
                return None;
            }
            match place(current, current + block_size, size, align) {
                Verdict::Fits { payload, tail_start } => {
                    return Some((previous, current, payload, tail_start));
                },
                Verdict::TooSmall => {},
                Verdict::Unusable => return None,
            }
            previous = current;
            current = next;
        }
        None
    }

    /// Allocates `size` bytes aligned to `align` and returns the **offset** of the payload.
    ///
    /// `None` means that the request is malformed, that no free block takes it, or that the
    /// metadata is damaged; nothing has changed then.
    #[verifier::rlimit(40)]
    pub fn allocate(&mut self, arena: &mut [u8], size: usize, align: usize) -> (result: Option<usize>)
        ensures
            result == old(self).alloc_outcome(old(arena)@, size, align).0,
            *final(self) == old(self).alloc_outcome(old(arena)@, size, align).1,
            final(arena)@ == old(self).alloc_outcome(old(arena)@, size, align).2,
            final(self).span() == old(self).span(),
            result matches Some(offset) ==> {
                &&& HEADER_SIZE <= offset
                &&& offset + size <= old(self).span()
                &&& offset % align == 0
                &&& power_of_two(align as nat)
                &&& align <= MAX_ALIGN
            },
            old(self).well_formed(old(arena)@) ==> final(self).well_formed(final(arena)@),
            result is None ==> *final(self) == *old(self) && final(arena)@ == old(arena)@,
            // On a heap in good order the request is served whenever a free block has room for
            // it: an aligned offset `m` directly behind the block's header, or far enough from its
            // start for a block in front, with the whole payload inside the block.
            forall|blocks: Seq<Block>, f: int, m: int|
                {
                    &&& #[trigger] old(self).represents(old(arena)@, blocks)
                    &&& 0 < size
                    &&& exists|k: nat| align == #[trigger] vstd::arithmetic::power2::pow2(k)
                    &&& align <= 4096
                    &&& 0 <= f < blocks.len()
                    &&& (#[trigger] blocks[f]).free
                    &&& #[trigger] (m % align as int) == 0
                    &&& m == blocks[f].start + 24 || m >= blocks[f].start + 64
                    &&& m + size <= blocks[f].start + blocks[f].size
                } ==> result is Some && result->0 <= m,
            // And only then: the offset that is handed out is such an offset of a free block.
            forall|blocks: Seq<Block>|
                result is Some && #[trigger] old(self).represents(old(arena)@, blocks) ==> {
                    &&& 0 < size
                    &&& exists|k: nat| align == #[trigger] vstd::arithmetic::power2::pow2(k)
                    &&& align <= 4096
                    &&& result->0 as int % align as int == 0
                    &&& exists|f: int|
                        {
                            &&& 0 <= f < blocks.len()
                            &&& (#[trigger] blocks[f]).free
                            &&& result->0 == blocks[f].start + 24 || result->0 >= blocks[f].start
                                + 64
                            &&& result->0 + size <= blocks[f].start + blocks[f].size
                        }
                },
    {
        proof {
            if self.well_formed(arena@) {
                law_allocate_keeps_order(*self, arena@, size, align);
            }
            law_a_failed_request(*self, arena@, size, align);
            let outcome = self.alloc_outcome(arena@, size, align).0;
            assert forall|blocks: Seq<Block>, f: int, m: int|
                {
                    &&& #[trigger] self.represents(arena@, blocks)
                    &&& 0 < size
                    &&& exists|k: nat| align == #[trigger] vstd::arithmetic::power2::pow2(k)
                    &&& align <= 4096
                    &&& 0 <= f < blocks.len()
                    &&& (#[trigger] blocks[f]).free
                    &&& #[trigger] (m % align as int) == 0
                    &&& m == blocks[f].start + 24 || m >= blocks[f].start + 64
                    &&& m + size <= blocks[f].start + blocks[f].size
                } implies outcome is Some && outcome->0 <= m by {
                law_room_is_used(*self, arena@, blocks, f, m, size, align);
            }
            assert forall|blocks: Seq<Block>|
                outcome is Some && #[trigger] self.represents(arena@, blocks) implies {
                &&& 0 < size
                &&& exists|k: nat| align == #[trigger] vstd::arithmetic::power2::pow2(k)
                &&& align <= 4096
                &&& outcome->0 as int % align as int == 0
                &&& exists|f: int|
                    {
                        &&& 0 <= f < blocks.len()
                        &&& (#[trigger] blocks[f]).free
                        &&& outcome->0 == blocks[f].start + 24 || outcome->0 >= blocks[f].start + 64
                        &&& outcome->0 + size <= blocks[f].start + blocks[f].size
                    }
            } by {
                let f = law_a_served_request(*self, arena@, blocks, size, align);
                assert(blocks[f].free);
            }
        }
        if size == 0 || !is_power_of_two(align as u64) || align > MAX_ALIGN || self.head == NONE
            || !self.arena_matches(arena) {
            return None;
        }
        let (previous, current, payload, tail_start) = match self.find_fit(arena, size, align) {
            Some(fit) => fit,
            None => return None,
        };
        let (_, block_size, next) = match read_header(arena, current) {
            Some(header) => header,
            None => return None,
        };
        let previous_size: usize = if previous == NONE {
            0
        } else {
            match read_header(arena, previous) {
                Some(header) => header.1,
                None => return None,
            }
        };
        let block_end: usize = current + block_size;
        proof {
            lemma_round_up(current + HEADER_SIZE, align as int);
            lemma_round_up(current + HEADER_SIZE + MIN_BLOCK, align as int);
            lemma_round_up(payload + size, HEADER_ALIGN as int);
        }
        let header: usize = payload - HEADER_SIZE;
        let has_tail: bool = block_end - tail_start >= MIN_BLOCK;
        let alloc_end: usize = if has_tail { tail_start } else { block_end };

        // The header of the allocation, then the free blocks behind and in front of it.
        write_header(arena, header, MAGIC_ALLOC, alloc_end - header, NONE);
        proof {
            lemma_with_header(old(arena)@, header as int, MAGIC_ALLOC, alloc_end - header, NONE);
        }
        let mut link: usize = next;
        if has_tail {
            let ghost before = arena@;
            write_header(arena, tail_start, MAGIC_FREE, block_end - tail_start, link);
            proof {
                lemma_with_header(
                    before,
                    tail_start as int,
                    MAGIC_FREE,
                    block_end - tail_start,
                    link,
                );
            }
            link = tail_start;
        }
        if header > current {
            let ghost before = arena@;
            write_header(arena, current, MAGIC_FREE, header - current, link);
            proof {
                lemma_with_header(before, current as int, MAGIC_FREE, header - current, link);
            }
            link = current;
        }
        // The new blocks take the place of `current` in the list.

        if previous == NONE {
            self.head = link;
        } else {
            write_header(arena, previous, MAGIC_FREE, previous_size, link);
        }
        self.recompute(arena);
        Some(payload)
    }

    /// Finds where the block `[header, block_end)` belongs in the list.
    fn find_site(&self, arena: &[u8], header: usize, block_end: usize) -> (found: Site)
        requires
            header < block_end,
        ensures
            found == site(
                arena@,
                self.arena_len as int,
                NONE,
                self.head,
                self.block_limit(),
                header as int,
                block_end as int,
            ),
            found matches Site::Between(previous, current) ==> {
                &&& previous == NONE || (is_free_block(
                    arena@,
                    self.arena_len as int,
                    previous as int,
                ) && previous + header_at(arena@, previous as int).1 <= header)
                &&& current == NONE || (is_free_block(
                    arena@,
                    self.arena_len as int,
                    current as int,
                ) && block_end <= current)
            },
    {
        let mut previous: usize = NONE;
        let mut current: usize = self.head;
        let mut guard: usize = 0;
        let limit: usize = self.max_blocks();
        let arena_len: usize = self.arena_len;
        while current != NONE
            invariant
                guard <= limit,
                limit == self.block_limit(),
                arena_len == self.arena_len,
                header < block_end,
                previous == NONE || (is_free_block(arena@, arena_len as int, previous as int)
                    && previous + header_at(arena@, previous as int).1 <= header),
                site(
                    arena@,
                    self.arena_len as int,
                    NONE,
                    self.head,
                    self.block_limit(),
                    header as int,
                    block_end as int,
                ) == site(
                    arena@,
                    arena_len as int,
                    previous,
                    current,
                    (limit - guard) as nat,
                    header as int,
                    block_end as int,
                ),
            decreases limit - guard,
        {
            if guard >= limit {
                return Site::Damaged(current);
            }
            guard = guard + 1;
            let (magic, size, next) = match read_header(arena, current) {
                Some(header) => header,
                None => return Site::Damaged(current),
            };
            if magic != MAGIC_FREE || size < HEADER_SIZE || current > arena_len || size > arena_len
                - current {
                return Site::Damaged(current);
            }
            if current >= header {
                if current < block_end {
                    return Site::Overlap;
                }
                return Site::Between(previous, current);
            }
            if current + size > header {
                return Site::Overlap;
            }
            previous = current;
            current = next;
        }
        Site::Between(previous, NONE)
    }

    /// Follows the blocks from the start of the arena to the one that holds `header`.
    fn locate(&self, arena: &[u8], header: usize) -> (found: Place)
        requires
            header + HEADER_SIZE <= arena.len(),
        ensures
            found == located(arena@, self.arena_len as int, 0, header as int),
    {
        let arena_len: usize = self.arena_len;
        let mut at: usize = 0;
        while at < header
            invariant
                at <= header,
                arena_len == self.arena_len,
                header + HEADER_SIZE <= arena@.len(),
                located(arena@, arena_len as int, 0, header as int) == located(
                    arena@,
                    arena_len as int,
                    at as int,
                    header as int,
                ),
            decreases header - at,
        {
            let (magic, size, _) = match read_header(arena, at) {
                Some(header) => header,
                None => return Place::Unknown,
            };
            if (magic != MAGIC_FREE && magic != MAGIC_ALLOC) || size < HEADER_SIZE || at > arena_len
                || size > arena_len - at {
                return Place::Unknown;
            }
            if size > header - at {
                return if magic == MAGIC_FREE {
                    Place::InFree
                } else {
                    Place::InAllocated
                };
            }
            at = at + size;
        }
        Place::Start
    }

    /// Gives back the payload at `offset`, which `allocate` has returned.
    ///
    /// # Errors
    /// See [`FreeListError`]; nothing has changed then.
    #[verifier::rlimit(40)]
    pub fn dealloc(&mut self, arena: &mut [u8], offset: usize) -> (result: Result<
        (),
        FreeListError,
    >)
        ensures
            result == old(self).dealloc_outcome(old(arena)@, offset).0,
            *final(self) == old(self).dealloc_outcome(old(arena)@, offset).1,
            final(arena)@ == old(self).dealloc_outcome(old(arena)@, offset).2,
            final(self).span() == old(self).span(),
            result is Err ==> *final(self) == *old(self) && final(arena)@ == old(arena)@,
            old(self).well_formed(old(arena)@) ==> {
                &&& result is Ok <==> old(self).is_live(old(arena)@, offset)
                &&& final(self).well_formed(final(arena)@)
            },
            // On a heap in good order exactly the payloads of allocated blocks are taken back; one
            // whose block is free is reported as such.
            forall|blocks: Seq<Block>|
                #[trigger] old(self).represents(old(arena)@, blocks) ==> {
                    &&& result is Ok <==> exists|k: int|
                        0 <= k < blocks.len() && !(#[trigger] blocks[k]).free && offset
                            == blocks[k].start + 24
                    &&& (exists|k: int|
                        0 <= k < blocks.len() && (#[trigger] blocks[k]).free && offset
                            == blocks[k].start + 24) ==> result == Err::<(), FreeListError>(
                        FreeListError::AlreadyFree { offset },
                    )
                },
            // The block and the free blocks that touch it become one free block.
            forall|blocks: Seq<Block>, k: int|
                #[trigger] old(self).represents(old(arena)@, blocks) && 0 <= k < blocks.len() && !(
                #[trigger] blocks[k]).free && offset == blocks[k].start + 24 ==> {
                    let from = if k > 0 && blocks[k - 1].free { k - 1 } else { k };
                    let to = if k + 1 < blocks.len() && blocks[k + 1].free { k + 1 } else { k };
                    let merged = Block {
                        start: blocks[from].start,
                        size: blocks[to].start + blocks[to].size - blocks[from].start,
                        free: true,
                    };
                    final(self).represents(
                        final(arena)@,
                        blocks.take(from) + seq![merged] + blocks.skip(to + 1),
                    )
                },
            (result matches Err(FreeListError::OutOfArena { .. })) <==> old(arena)@.len() - old(
                arena,
            )@.len() % 8 != old(self).span() || offset < 24 || offset >= old(self).span() || offset
                % 8 != 0,
    {
        proof {
            law_dealloc_keeps_order(*self, arena@, offset);
            law_reasons_to_refuse_an_offset(*self, arena@, offset);
            let (outcome, list, after) = self.dealloc_outcome(arena@, offset);
            assert forall|blocks: Seq<Block>| #[trigger] self.represents(arena@, blocks) implies {
                &&& outcome is Ok <==> exists|k: int|
                    0 <= k < blocks.len() && !(#[trigger] blocks[k]).free && offset
                        == blocks[k].start + 24
                &&& (exists|k: int|
                    0 <= k < blocks.len() && (#[trigger] blocks[k]).free && offset
                        == blocks[k].start + 24) ==> outcome == Err::<(), FreeListError>(
                    FreeListError::AlreadyFree { offset },
                )
            } by {
                law_which_offsets_are_taken_back(*self, arena@, blocks, offset);
            }
            assert forall|blocks: Seq<Block>, k: int| #[trigger]
                self.represents(arena@, blocks) && 0 <= k < blocks.len() && !(
                #[trigger] blocks[k]).free && offset == blocks[k].start + 24 implies {
                let from = if k > 0 && blocks[k - 1].free { k - 1 } else { k };
                let to = if k + 1 < blocks.len() && blocks[k + 1].free { k + 1 } else { k };
                let merged = Block {
                    start: blocks[from].start,
                    size: blocks[to].start + blocks[to].size - blocks[from].start,
                    free: true,
                };
                list.represents(after, blocks.take(from) + seq![merged] + blocks.skip(to + 1))
            } by {
                law_a_block_is_freed(*self, arena@, blocks, k);
            }
        }
        self.release(arena, offset)
    }

    /// Follows the list and the blocks, and puts the block back into the list.
    fn release(&mut self, arena: &mut [u8], offset: usize) -> (result: Result<(), FreeListError>)
        ensures
            result == old(self).dealloc_outcome(old(arena)@, offset).0,
            *final(self) == old(self).dealloc_outcome(old(arena)@, offset).1,
            final(arena)@ == old(self).dealloc_outcome(old(arena)@, offset).2,
    {
        if !self.arena_matches(arena) || offset < HEADER_SIZE || offset >= self.arena_len || offset
            % HEADER_ALIGN != 0 {
            return Err(FreeListError::OutOfArena { offset });
        }
        let header: usize = offset - HEADER_SIZE;
        let (magic, block_size, _) = match read_header(arena, header) {
            Some(header) => header,
            None => return Err(FreeListError::Corrupted { offset: header }),
        };
        if magic == MAGIC_FREE {
            return Err(FreeListError::AlreadyFree { offset });
        }
        if magic != MAGIC_ALLOC {
            return Err(FreeListError::NotAllocated { offset });
        }
        // An allocation may have absorbed a tail that is too small to stand alone, so an
        // allocated block only has to hold its header.

        if block_size < HEADER_SIZE || block_size > self.arena_len - header {
            return Err(FreeListError::Corrupted { offset: header });
        }
        match self.locate(arena, header) {
            Place::InFree => return Err(FreeListError::AlreadyFree { offset }),
            Place::InAllocated => return Err(FreeListError::NotAllocated { offset }),
            // Damage in front is no reason to keep a sound block.
            Place::Start | Place::Unknown => {},
        }
        let block_end: usize = header + block_size;
        let (previous, current) = match self.find_site(arena, header, block_end) {
            Site::Overlap => return Err(FreeListError::AlreadyFree { offset }),
            Site::Damaged(at) => return Err(FreeListError::Corrupted { offset: at }),
            Site::Between(previous, current) => (previous, current),
        };

        // Merge: swallow the free block behind, then let the free block in front grow over this.
        let mut start: usize = header;
        let mut size: usize = block_size;
        let mut before: usize = previous;
        let mut link: usize = current;
        if current != NONE && block_end == current {
            let (_, next_size, next_next) = match read_header(arena, current) {
                Some(header) => header,
                None => return Err(FreeListError::Corrupted { offset: current }),
            };
            size = size + next_size;
            link = next_next;
        }
        if previous != NONE {
            let (_, previous_size, _) = match read_header(arena, previous) {
                Some(header) => header,
                None => return Err(FreeListError::Corrupted { offset: previous }),
            };
            if previous + previous_size == header {
                start = previous;
                size = size + previous_size;
                before = match self.previous_free(arena, previous) {
                    Some(before) => before,
                    None => return Err(FreeListError::Corrupted { offset: start }),
                };
            }
        }
        write_header(arena, start, MAGIC_FREE, size, link);
        proof {
            lemma_with_header(old(arena)@, start as int, MAGIC_FREE, size as int, link);
        }
        if before == NONE {
            self.head = start;
        } else {
            let (_, before_size, _) = match read_header(arena, before) {
                Some(header) => header,
                None => return Err(FreeListError::Corrupted { offset: before }),
            };
            write_header(arena, before, MAGIC_FREE, before_size, start);
        }
        self.recompute(arena);
        Ok(())
    }
}

/// Decides how a request is placed in the free block `[start, end)`.
fn place(start: usize, end: usize, size: usize, align: usize) -> (decision: Verdict)
    requires
        align > 0,
        start + HEADER_SIZE <= end,
    ensures
        decision == verdict(start as int, end as int, size as int, align as int),
{
    let lowest: usize = start + HEADER_SIZE;
    proof {
        lemma_round_up(lowest as int, align as int);
        lemma_round_up(lowest + MIN_BLOCK, align as int);
    }
    let mut payload: usize = match align_up(lowest, align) {
        Some(nearest) => nearest,
        None => return Verdict::Unusable,
    };
    let gap: usize = payload - lowest;
    if gap > 0 && gap < MIN_BLOCK {
        let raised: usize = match lowest.checked_add(MIN_BLOCK) {
            Some(raised) => raised,
            None => return Verdict::Unusable,
        };
        payload = match align_up(raised, align) {
            Some(payload) => payload,
            None => return Verdict::Unusable,
        };
    }
    let payload_end: usize = match payload.checked_add(size) {
        Some(payload_end) => payload_end,
        None => return Verdict::Unusable,
    };
    if payload_end > end {
        return Verdict::TooSmall;
    }
    let tail_start: usize = match align_up(payload_end, HEADER_ALIGN) {
        Some(tail_start) => tail_start,
        None => return Verdict::Unusable,
    };
    proof {
        lemma_round_up(payload + size, HEADER_ALIGN as int);
    }
    if tail_start > end {
        return Verdict::Unusable;
    }
    Verdict::Fits { payload, tail_start }
}

} // verus!
