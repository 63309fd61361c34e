//! The heap: when a request is served, where its payload goes, and what it does to the blocks.

use vstd::arithmetic::power2::pow2;
use vstd::prelude::*;

use crate::bytes::{u32_at, u64_at};
use crate::heap::{
    first_fit, header_at, lemma_with_header, located, payload_offset, site, FreeList, FreeListError,
    HeapStats, Site, MAGIC_FREE, NONE,
};
use crate::heap_model::{
    after_allocate, after_dealloc, fits, free_count, free_largest, free_total, law_allocate,
    law_allocate_fails, law_dealloc, law_init, law_only_live_payloads_are_freed, lemma_align,
    lemma_lowest_fit, lemma_next_free, lemma_payload_aligned, lemma_payload_offset, lemma_sound,
    next_free, pieces, stored, valid_request, Block,
};
use crate::math::{law_powers_of_two, lemma_round_up, round_up};

verus! {

/// A request is served whenever there is room for it. Whatever free block has an aligned offset
/// `m` that directly follows the block's header, or leaves 40 bytes in front for a block of its
/// own, and behind which the payload ends inside the block: the request succeeds, at `m` or lower.
pub proof fn law_room_is_used(
    list: FreeList,
    bytes: Seq<u8>,
    blocks: Seq<Block>,
    f: int,
    m: int,
    size: usize,
    align: usize,
)
    requires
        list.represents(bytes, blocks),
        0 < size,
        exists|k: nat| align == #[trigger] pow2(k),
        align <= 4096,
        0 <= f < blocks.len(),
        blocks[f].free,
        m % align as int == 0,
        m == blocks[f].start + 24 || m >= blocks[f].start + 64,
        m + size <= blocks[f].start + blocks[f].size,
    ensures
        list.alloc_outcome(bytes, size, align).0 is Some,
        list.alloc_outcome(bytes, size, align).0->0 <= m,
{
    law_powers_of_two(align as nat);
    lemma_align(align as nat);
    lemma_payload_offset(blocks[f].start, align as int);
    assert(fits(blocks[f], size as int, align as int));
    let q = lemma_lowest_fit(blocks, 0, f, size as int, align as int);
    law_allocate(list, bytes, blocks, q, size, align);
    lemma_sound(list, bytes, blocks, q);
    lemma_sound(list, bytes, blocks, f);
    lemma_payload_offset(blocks[q].start, align as int);
    if q < f {
        lemma_before(list, bytes, blocks, q, f);
    }
}

/// Blocks further on in the row lie further on in the arena.
proof fn lemma_before(list: FreeList, bytes: Seq<u8>, blocks: Seq<Block>, i: int, j: int)
    requires
        list.represents(bytes, blocks),
        0 <= i < j < blocks.len(),
    ensures
        blocks[i].end() <= blocks[j].start,
    decreases j - i,
{
    lemma_sound(list, bytes, blocks, j - 1);
    assert(blocks[j - 1].end() == blocks[j].start);
    if i < j - 1 {
        lemma_before(list, bytes, blocks, i, j - 1);
    }
}

/// What a served request was given, and what became of the row: the payload lies at an aligned
/// offset in a free block. The block of the allocation starts 24 bytes in front of it and ends at
/// the next multiple of 8 behind it, or at the end of the free block if less than 40 bytes would
/// be left over. What is left in front and behind are free blocks. Every other block is as it was,
/// and no byte of an allocated block has changed.
pub proof fn law_a_served_request(
    list: FreeList,
    bytes: Seq<u8>,
    blocks: Seq<Block>,
    size: usize,
    align: usize,
) -> (f: int)
    requires
        list.represents(bytes, blocks),
        list.alloc_outcome(bytes, size, align).0 is Some,
    ensures
        0 < size,
        exists|k: nat| align == #[trigger] pow2(k),
        align <= 4096,
        0 <= f < blocks.len(),
        blocks[f].free,
        ({
            let (result, after_list, after) = list.alloc_outcome(bytes, size, align);
            let (start, end) = (blocks[f].start, blocks[f].start + blocks[f].size);
            let payload = result->0 as int;
            let next = (payload + size + 7) / 8 * 8;
            let stop = if end - next >= 40 { next } else { end };
            let front = if payload == start + 24 {
                Seq::empty()
            } else {
                seq![Block { start, size: payload - 24 - start, free: true }]
            };
            let taken = Block { start: payload - 24, size: stop - payload + 24, free: false };
            let back = if stop == end {
                Seq::empty()
            } else {
                seq![Block { start: stop, size: end - stop, free: true }]
            };
            &&& payload % align as int == 0
            &&& payload == start + 24 || payload >= start + 64
            &&& payload + size <= stop <= end
            &&& after_list.represents(
                after,
                blocks.take(f) + front + seq![taken] + back + blocks.skip(f + 1),
            )
            &&& after_list.span() == list.span()
            &&& after.len() == bytes.len()
            &&& forall|j: int, x: int|
                0 <= j < blocks.len() && !(#[trigger] blocks[j]).free && blocks[j].start <= x
                    < blocks[j].start + blocks[j].size ==> #[trigger] after[x] == bytes[x]
        }),
{
    let a = align as int;
    if !valid_request(size, align) || forall|j: int|
        0 <= j < blocks.len() ==> !(#[trigger] blocks[j].free && fits(blocks[j], size as int, a)) {
        law_allocate_fails(list, bytes, blocks, size, align);
    }
    let j = choose|j: int|
        0 <= j < blocks.len() && (#[trigger] blocks[j]).free && fits(blocks[j], size as int, a);
    let f = lemma_lowest_fit(blocks, 0, j, size as int, a);
    law_allocate(list, bytes, blocks, f, size, align);
    law_powers_of_two(align as nat);
    lemma_align(align as nat);
    lemma_sound(list, bytes, blocks, f);
    let b = blocks[f];
    let payload = payload_offset(b.start, a);
    lemma_payload_offset(b.start, a);
    lemma_payload_aligned(b.start, align as nat);
    lemma_round_up(payload + size, 8);
    let next = (payload + size + 7) / 8 * 8;
    assert(next == round_up(payload + size, 8));
    let end = b.start + b.size;
    let stop = if end - next >= 40 { next } else { end };
    let front = if payload == b.start + 24 {
        Seq::empty()
    } else {
        seq![Block { start: b.start, size: payload - 24 - b.start, free: true }]
    };
    let taken = Block { start: payload - 24, size: stop - payload + 24, free: false };
    let back = if stop == end {
        Seq::empty()
    } else {
        seq![Block { start: stop, size: end - stop, free: true }]
    };
    assert(pieces(b, size as int, a) =~= front + seq![taken] + back);
    assert(after_allocate(blocks, f, size as int, a) =~= blocks.take(f) + front + seq![taken] + back
        + blocks.skip(f + 1));
    f
}

/// A request that fails changes nothing, whatever the arena holds; so does one for an arena of
/// another length, and one to a list that has no arena.
pub proof fn law_a_failed_request(list: FreeList, bytes: Seq<u8>, size: usize, align: usize)
    ensures
        list.alloc_outcome(bytes, size, align).0 is None ==> list.alloc_outcome(
            bytes,
            size,
            align,
        ).1 == list && list.alloc_outcome(bytes, size, align).2 == bytes,
        bytes.len() - bytes.len() % 8 != list.span() ==> list.alloc_outcome(
            bytes,
            size,
            align,
        ).0 is None,
        list.head_offset() == usize::MAX ==> list.alloc_outcome(bytes, size, align).0 is None,
        list.alloc_outcome(bytes, size, align).0 is Some ==> 0 < size && align <= 4096 && exists|k: nat|
            align == #[trigger] pow2(k),
{
    law_powers_of_two(align as nat);
}

/// Giving back a live payload: its block and the free blocks that touch it in front and behind
/// become one free block. Every other block is as it was, and no byte of an allocated block has
/// changed.
pub proof fn law_a_block_is_freed(list: FreeList, bytes: Seq<u8>, blocks: Seq<Block>, k: int)
    requires
        list.represents(bytes, blocks),
        0 <= k < blocks.len(),
        !blocks[k].free,
    ensures
        ({
            let (result, after_list, after) = list.dealloc_outcome(
                bytes,
                (blocks[k].start + 24) as usize,
            );
            let from = if k > 0 && blocks[k - 1].free { k - 1 } else { k };
            let to = if k + 1 < blocks.len() && blocks[k + 1].free { k + 1 } else { k };
            let merged = Block {
                start: blocks[from].start,
                size: blocks[to].start + blocks[to].size - blocks[from].start,
                free: true,
            };
            &&& blocks[k].start + 24 <= usize::MAX
            &&& result is Ok
            &&& after_list.represents(
                after,
                blocks.take(from) + seq![merged] + blocks.skip(to + 1),
            )
            &&& after_list.span() == list.span()
            &&& after.len() == bytes.len()
            &&& forall|j: int, x: int|
                0 <= j < blocks.len() && j != k && !(#[trigger] blocks[j]).free && blocks[j].start
                    <= x < blocks[j].start + blocks[j].size ==> #[trigger] after[x] == bytes[x]
        }),
{
    law_dealloc(list, bytes, blocks, k);
    lemma_sound(list, bytes, blocks, k);
    let from = if k > 0 && blocks[k - 1].free { k - 1 } else { k };
    let to = if k + 1 < blocks.len() && blocks[k + 1].free { k + 1 } else { k };
    let merged = Block {
        start: blocks[from].start,
        size: blocks[to].start + blocks[to].size - blocks[from].start,
        free: true,
    };
    assert(after_dealloc(blocks, k) =~= blocks.take(from) + seq![merged] + blocks.skip(to + 1));
}

/// Which offsets are taken back, and how the others are refused. On a heap in good order exactly
/// the payloads of allocated blocks are taken back.
pub proof fn law_which_offsets_are_taken_back(
    list: FreeList,
    bytes: Seq<u8>,
    blocks: Seq<Block>,
    offset: usize,
)
    requires
        list.represents(bytes, blocks),
    ensures
        ({
            let (result, after_list, after) = list.dealloc_outcome(bytes, offset);
            &&& result is Ok <==> exists|k: int|
                0 <= k < blocks.len() && !(#[trigger] blocks[k]).free && offset == blocks[k].start
                    + 24
            &&& (exists|k: int|
                0 <= k < blocks.len() && (#[trigger] blocks[k]).free && offset == blocks[k].start
                    + 24) ==> result == Err::<(), _>(FreeListError::AlreadyFree { offset })
            &&& result is Err ==> after_list == list && after == bytes
        }),
{
    law_only_live_payloads_are_freed(list, bytes, blocks, offset);
    if exists|k: int|
        0 <= k < blocks.len() && (#[trigger] blocks[k]).free && offset == blocks[k].start + 24 {
        let k = choose|k: int|
            0 <= k < blocks.len() && (#[trigger] blocks[k]).free && offset == blocks[k].start + 24;
        lemma_sound(list, bytes, blocks, k);
    }
}

/// What the bytes in front of an offset decide, whatever the rest of the arena holds.
pub proof fn law_reasons_to_refuse_an_offset(list: FreeList, bytes: Seq<u8>, offset: usize)
    ensures
        ({
            let result = list.dealloc_outcome(bytes, offset).0;
            let magic = u32_at(bytes, offset - 24);
            let size = u64_at(bytes, offset - 16) as usize;
            if bytes.len() - bytes.len() % 8 != list.span() || offset < 24 || offset >= list.span()
                || offset % 8 != 0 {
                result == Err::<(), _>(FreeListError::OutOfArena { offset })
            } else if magic == 0x4652_4545 {
                result == Err::<(), _>(FreeListError::AlreadyFree { offset })
            } else if magic != 0x414C_4C4F {
                result == Err::<(), _>(FreeListError::NotAllocated { offset })
            } else if size < 24 || offset - 24 + size > list.span() {
                result == Err::<(), _>(FreeListError::Corrupted { offset: (offset - 24) as usize })
            } else {
                !(result matches Err(FreeListError::OutOfArena { .. }))
            }
        }),
{
    reveal(header_at);
}

/// A fresh heap is one free block over the arena without its last `len % 8` bytes; behind the
/// block's header nothing changes. An arena of less than 40 such bytes gives a list without one.
pub proof fn law_a_fresh_heap(bytes: Seq<u8>)
    requires
        bytes.len() <= usize::MAX,
    ensures
        ({
            let (list, after) = FreeList::init_outcome(bytes);
            let len = bytes.len() - bytes.len() % 8;
            if len >= 40 {
                &&& list.represents(after, seq![Block { start: 0, size: len, free: true }])
                &&& list.span() == len
                &&& after.len() == bytes.len()
                &&& forall|x: int| 24 <= x < bytes.len() ==> #[trigger] after[x] == bytes[x]
            } else {
                &&& after == bytes
                &&& list == FreeList::spec_empty()
                &&& list.head_offset() == usize::MAX
                &&& list.span() == 0
                &&& list.counts() == (HeapStats { free_blocks: 0, free_bytes: 0, largest_free: 0 })
            }
        }),
{
    let (list, after) = FreeList::init_outcome(bytes);
    let len = bytes.len() - bytes.len() % 8;
    if len >= 40 {
        law_init(list, bytes);
        lemma_with_header(bytes, 0, MAGIC_FREE, len, NONE);
    }
}

/// What a heap in good order is: blocks of more than 24 bytes, each a multiple of 8, that lie side
/// by side from the start of the arena to its end, no two free ones next to each other. Each
/// starts with its magic (`FREE` or `ALLO`) and its length; a free one holds the offset of the
/// next free block, and the list that of the first, or the largest number if there is none.
pub proof fn law_the_row_of_blocks(list: FreeList, bytes: Seq<u8>, blocks: Seq<Block>, i: int)
    requires
        list.represents(bytes, blocks),
        0 <= i < blocks.len(),
    ensures
        list.span() == bytes.len() - bytes.len() % 8,
        blocks[0].start == 0,
        blocks[blocks.len() - 1].start + blocks[blocks.len() - 1].size == list.span(),
        blocks[i].size > 24,
        blocks[i].size % 8 == 0,
        i + 1 < blocks.len() ==> blocks[i].start + blocks[i].size == blocks[i + 1].start && !(
        blocks[i].free && blocks[i + 1].free),
        u32_at(bytes, blocks[i].start) == (if blocks[i].free { 0x4652_4545u32 } else { 0x414C_4C4F }),
        u64_at(bytes, blocks[i].start + 8) as usize == blocks[i].size,
        blocks[i].free ==> is_next_free(
            blocks,
            i + 1,
            u64_at(bytes, blocks[i].start + 16) as usize,
        ),
        is_next_free(blocks, 0, list.head_offset()),
{
    reveal(header_at);
    assert(stored(bytes, blocks, i));
    if i + 1 < blocks.len() {
        assert(blocks[i].end() == blocks[i + 1].start);
    }
    assert(blocks[0].start == 0);
    lemma_sound(list, bytes, blocks, 0);
    let q = lemma_next_free(blocks, i + 1);
    if q < blocks.len() {
        lemma_sound(list, bytes, blocks, q);
    }
    let r = lemma_next_free(blocks, 0);
    if r < blocks.len() {
        lemma_sound(list, bytes, blocks, r);
    }
    lemma_is_next_free(blocks, i + 1, q);
    lemma_is_next_free(blocks, 0, r);
}

/// Whether `offset` is the start of the first free block at or behind index `i`, or the largest
/// number if none is free there.
pub open spec fn is_next_free(blocks: Seq<Block>, i: int, offset: usize) -> bool {
    if exists|q: int| i <= q < blocks.len() && (#[trigger] blocks[q]).free {
        exists|q: int|
            {
                &&& i <= q < blocks.len()
                &&& (#[trigger] blocks[q]).free
                &&& blocks[q].start == offset
                &&& forall|m: int| i <= m < q ==> !(#[trigger] blocks[m]).free
            }
    } else {
        offset == usize::MAX
    }
}

proof fn lemma_is_next_free(blocks: Seq<Block>, i: int, q: int)
    requires
        0 <= i <= q <= blocks.len(),
        forall|m: int| i <= m < q ==> !(#[trigger] blocks[m]).free,
        q < blocks.len() ==> blocks[q].free && 0 <= blocks[q].start <= usize::MAX,
    ensures
        is_next_free(blocks, i, next_free(blocks, i)),
    decreases q - i,
{
    if i < q {
        assert(!blocks[i].free);
        lemma_is_next_free(blocks, i + 1, q);
    }
}

/// The statistics: how many blocks are free, how many bytes they hold behind their headers, and
/// how many the largest of them holds.
pub proof fn law_the_statistics(list: FreeList, bytes: Seq<u8>, blocks: Seq<Block>)
    requires
        list.represents(bytes, blocks),
    ensures
        list.counts().free_blocks == blocks.filter(|b: Block| b.free).len(),
        list.counts().free_bytes == blocks.fold_left(
            0int,
            |sum: int, b: Block|
                if b.free {
                    sum + b.size - 24
                } else {
                    sum
                },
        ),
        forall|i: int|
            0 <= i < blocks.len() && (#[trigger] blocks[i]).free ==> blocks[i].size - 24
                <= list.counts().largest_free,
        list.counts().largest_free > 0 ==> exists|i: int|
            0 <= i < blocks.len() && (#[trigger] blocks[i]).free && blocks[i].size - 24
                == list.counts().largest_free,
{
    assert forall|i: int| 0 <= i < blocks.len() implies (#[trigger] blocks[i]).size >= 24 by {
        lemma_sound(list, bytes, blocks, i);
    }
    lemma_count(blocks);
    lemma_total(blocks);
    lemma_largest(blocks, 0);
}

proof fn lemma_count(blocks: Seq<Block>)
    ensures
        free_count(blocks, 0) == blocks.filter(|b: Block| b.free).len(),
    decreases blocks.len(),
{
    reveal(Seq::filter);
    if blocks.len() > 0 {
        lemma_count(blocks.drop_last());
        lemma_last(blocks, 0);
    }
}

proof fn lemma_total(blocks: Seq<Block>)
    requires
        forall|i: int| 0 <= i < blocks.len() ==> (#[trigger] blocks[i]).size >= 24,
    ensures
        free_total(blocks, 0) == blocks.fold_left(
            0int,
            |sum: int, b: Block|
                if b.free {
                    sum + b.size - 24
                } else {
                    sum
                },
        ),
    decreases blocks.len(),
{
    if blocks.len() > 0 {
        let rest = blocks.drop_last();
        assert forall|i: int| 0 <= i < rest.len() implies (#[trigger] rest[i]).size >= 24 by {
            assert(rest[i] == blocks[i]);
        }
        lemma_total(rest);
        lemma_last(blocks, 0);
        assert(blocks.last().size >= 24);
    }
}

/// The last block adds to the number and the bytes of the free blocks.
proof fn lemma_last(blocks: Seq<Block>, i: int)
    requires
        0 <= i < blocks.len(),
    ensures
        free_count(blocks, i) == free_count(blocks.drop_last(), i) + (if blocks.last().free {
            1nat
        } else {
            0
        }),
        free_total(blocks, i) == free_total(blocks.drop_last(), i) + (if blocks.last().free {
            (blocks.last().size - 24) as nat
        } else {
            0
        }),
    decreases blocks.len() - i,
{
    let rest = blocks.drop_last();
    if i + 1 < blocks.len() {
        assert(rest[i] == blocks[i]);
        lemma_last(blocks, i + 1);
    } else {
        assert(free_count(blocks, i + 1) == 0 && free_total(blocks, i + 1) == 0);
        assert(free_count(rest, i) == 0 && free_total(rest, i) == 0);
    }
}

proof fn lemma_largest(blocks: Seq<Block>, i: int)
    requires
        0 <= i <= blocks.len(),
        forall|j: int| 0 <= j < blocks.len() ==> (#[trigger] blocks[j]).size >= 24,
    ensures
        forall|j: int|
            i <= j < blocks.len() && (#[trigger] blocks[j]).free ==> blocks[j].size - 24
                <= free_largest(blocks, i),
        free_largest(blocks, i) > 0 ==> exists|j: int|
            i <= j < blocks.len() && (#[trigger] blocks[j]).free && blocks[j].size - 24
                == free_largest(blocks, i),
    decreases blocks.len() - i,
{
    if i < blocks.len() {
        lemma_largest(blocks, i + 1);
    }
}

/// Whether the bytes at `offset` look like a free block that ends inside the arena.
pub open spec fn reads_free(bytes: Seq<u8>, span: int, offset: int) -> bool {
    &&& offset + 24 <= bytes.len()
    &&& u32_at(bytes, offset) == 0x4652_4545
    &&& u64_at(bytes, offset + 8) as usize >= 24
    &&& offset + u64_at(bytes, offset + 8) as usize <= span
}

/// What a damaged list leads to. The search follows the links from the head, past the blocks that
/// are too small, and ends at the first offset of the path that is no free block: the request fails
/// there, and nothing behind it is looked at. If the path ends at a block with room, the request is
/// served from it; if that block ends between two multiples of 8 where the payload would end, it
/// fails.
pub proof fn law_the_search_follows_the_list(
    list: FreeList,
    bytes: Seq<u8>,
    path: Seq<usize>,
    size: usize,
    align: usize,
)
    requires
        list.span() == bytes.len() - bytes.len() % 8,
        0 < size,
        exists|k: nat| align == #[trigger] pow2(k),
        align <= 4096,
        list.span() + size + 16384 <= usize::MAX,
        0 < path.len() <= list.span() / 8,
        path[0] == list.head_offset(),
        forall|i: int|
            #![trigger path[i]]
            0 <= i < path.len() - 1 ==> {
                &&& path[i] != usize::MAX
                &&& reads_free(bytes, list.span() as int, path[i] as int)
                &&& payload_offset(path[i] as int, align as int) + size > path[i] + u64_at(
                    bytes,
                    path[i] + 8,
                ) as usize
                &&& path[i + 1] == u64_at(bytes, path[i] + 16) as usize
            },
    ensures
        ({
            let result = list.alloc_outcome(bytes, size, align).0;
            let last = path.last();
            let end = last + u64_at(bytes, last + 8) as usize;
            let payload = payload_offset(last as int, align as int);
            &&& last == usize::MAX || !reads_free(bytes, list.span() as int, last as int)
                ==> result is None
            &&& last != usize::MAX && reads_free(bytes, list.span() as int, last as int) && (payload
                + size + 7) / 8 * 8 <= end ==> result == Some(payload as usize)
            &&& last != usize::MAX && reads_free(bytes, list.span() as int, last as int) && payload
                + size <= end < (payload + size + 7) / 8 * 8 ==> result is None
        }),
{
    law_powers_of_two(align as nat);
    lemma_align(align as nat);
    reveal(header_at);
    lemma_search(list, bytes, path, 0, NONE, list.block_limit(), size, align);
    let last = path.last();
    if last != usize::MAX && reads_free(bytes, list.span() as int, last as int) {
        lemma_payload_offset(last as int, align as int);
        lemma_round_up(last + 24, align as int);
        lemma_round_up(last + 64, align as int);
        let payload = payload_offset(last as int, align as int);
        lemma_round_up(payload + size, 8);
        assert((payload + size + 7) / 8 * 8 == round_up(payload + size, 8));
    }
}

proof fn lemma_search(
    list: FreeList,
    bytes: Seq<u8>,
    path: Seq<usize>,
    i: int,
    previous: usize,
    steps: nat,
    size: usize,
    align: usize,
)
    requires
        0 < size,
        0 < align <= 4096,
        list.span() + size + 16384 <= usize::MAX,
        0 <= i < path.len(),
        path.len() - i < steps,
        forall|j: int|
            #![trigger path[j]]
            0 <= j < path.len() - 1 ==> {
                &&& path[j] != usize::MAX
                &&& reads_free(bytes, list.span() as int, path[j] as int)
                &&& payload_offset(path[j] as int, align as int) + size > path[j] + u64_at(
                    bytes,
                    path[j] + 8,
                ) as usize
                &&& path[j + 1] == u64_at(bytes, path[j] + 16) as usize
            },
    ensures
        ({
            let found = first_fit(
                bytes,
                list.span() as int,
                previous,
                path[i],
                steps,
                size as int,
                align as int,
            );
            let last = path.last();
            let end = last + u64_at(bytes, last + 8) as usize;
            let payload = payload_offset(last as int, align as int);
            &&& last == usize::MAX || !reads_free(bytes, list.span() as int, last as int)
                ==> found is None
            &&& last != usize::MAX && reads_free(bytes, list.span() as int, last as int) && (payload
                + size + 7) / 8 * 8 <= end ==> (found matches Some((_, block)) && block == last)
            &&& last != usize::MAX && reads_free(bytes, list.span() as int, last as int) && payload
                + size <= end < (payload + size + 7) / 8 * 8 ==> found is None
        }),
    decreases path.len() - i,
{
    reveal(header_at);
    let at = path[i] as int;
    lemma_payload_offset(at, align as int);
    lemma_round_up(at + 24, align as int);
    lemma_round_up(at + 64, align as int);
    let payload = payload_offset(at, align as int);
    lemma_round_up(payload + size, 8);
    assert((payload + size + 7) / 8 * 8 == round_up(payload + size, 8));
    if i < path.len() - 1 {
        assert(path[i] != usize::MAX);
        lemma_search(list, bytes, path, i + 1, path[i], (steps - 1) as nat, size, align);
    }
}

/// What a damaged list means for giving a block back. The blocks in front of it in the list are
/// passed by; the first offset of the path that is no free block is reported as the damage, and a
/// free block that reaches into the block as a double free. Nothing has changed then.
pub proof fn law_a_damaged_list_is_reported(
    list: FreeList,
    bytes: Seq<u8>,
    path: Seq<usize>,
    offset: usize,
)
    requires
        list.span() == bytes.len() - bytes.len() % 8,
        24 <= offset < list.span(),
        offset % 8 == 0,
        u32_at(bytes, offset - 24) == 0x414C_4C4F,
        u64_at(bytes, offset - 16) as usize >= 24,
        offset - 24 + u64_at(bytes, offset - 16) as usize <= list.span(),
        located(bytes, list.span() as int, 0, offset - 24) is Start || located(
            bytes,
            list.span() as int,
            0,
            offset - 24,
        ) is Unknown,
        0 < path.len() <= list.span() / 8,
        path[0] == list.head_offset(),
        forall|i: int|
            #![trigger path[i]]
            0 <= i < path.len() - 1 ==> {
                &&& path[i] != usize::MAX
                &&& reads_free(bytes, list.span() as int, path[i] as int)
                &&& path[i] + u64_at(bytes, path[i] + 8) as usize <= offset - 24
                &&& path[i + 1] == u64_at(bytes, path[i] + 16) as usize
            },
        path.last() != usize::MAX,
    ensures
        ({
            let last = path.last();
            let free = reads_free(bytes, list.span() as int, last as int);
            let size = u64_at(bytes, last + 8) as usize;
            let end = offset - 24 + u64_at(bytes, offset - 16) as usize;
            let (result, after_list, after) = list.dealloc_outcome(bytes, offset);
            &&& !free ==> result == Err::<(), _>(FreeListError::Corrupted { offset: last })
            &&& free && last < end && last + size > offset - 24 ==> result == Err::<(), _>(
                FreeListError::AlreadyFree { offset },
            )
            &&& result is Err ==> after_list == list && after == bytes
        }),
{
    reveal(header_at);
    let end = offset - 24 + u64_at(bytes, offset - 16) as usize;
    lemma_site_path(list, bytes, path, 0, NONE, list.block_limit(), offset - 24, end);
}

proof fn lemma_site_path(
    list: FreeList,
    bytes: Seq<u8>,
    path: Seq<usize>,
    i: int,
    previous: usize,
    steps: nat,
    header: int,
    end: int,
)
    requires
        header < end,
        0 <= i < path.len(),
        path.len() - i < steps,
        forall|j: int|
            #![trigger path[j]]
            0 <= j < path.len() - 1 ==> {
                &&& path[j] != usize::MAX
                &&& reads_free(bytes, list.span() as int, path[j] as int)
                &&& path[j] + u64_at(bytes, path[j] + 8) as usize <= header
                &&& path[j + 1] == u64_at(bytes, path[j] + 16) as usize
            },
        path.last() != usize::MAX,
    ensures
        ({
            let last = path.last();
            let free = reads_free(bytes, list.span() as int, last as int);
            let size = u64_at(bytes, last + 8) as usize;
            let found = site(bytes, list.span() as int, previous, path[i], steps, header, end);
            &&& !free ==> found == Site::Damaged(last)
            &&& free && last < end && last + size > header ==> found == Site::Overlap
        }),
    decreases path.len() - i,
{
    reveal(header_at);
    if i < path.len() - 1 {
        assert(path[i] != usize::MAX);
        lemma_site_path(list, bytes, path, i + 1, path[i], (steps - 1) as nat, header, end);
    }
}

/// How an offset is found among the blocks: from the start of the arena, each block leads to the
/// next. An offset that such a walk reaches is the start of a block; one that it passes lies inside
/// the block where the walk stood; damage on the way leaves it open.
pub proof fn law_an_offset_is_located(
    bytes: Seq<u8>,
    span: int,
    stops: Seq<int>,
    header: int,
)
    requires
        stops.len() > 0,
        stops[0] == 0,
        0 <= header,
        forall|i: int|
            #![trigger stops[i]]
            0 <= i < stops.len() - 1 ==> {
                let size = u64_at(bytes, stops[i] + 8) as usize;
                &&& u32_at(bytes, stops[i]) == 0x4652_4545 || u32_at(bytes, stops[i]) == 0x414C_4C4F
                &&& size >= 24
                &&& stops[i] + size <= span
                &&& stops[i] + size <= header
                &&& stops[i + 1] == stops[i] + size
            },
    ensures
        ({
            let last = stops.last();
            let magic = u32_at(bytes, last);
            let size = u64_at(bytes, last + 8) as usize;
            let sound = (magic == 0x4652_4545 || magic == 0x414C_4C4F) && size >= 24 && last + size
                <= span;
            let found = located(bytes, span, 0, header);
            &&& last == header ==> found is Start
            &&& last < header && !sound ==> found is Unknown
            &&& last < header < last + size && sound && magic == 0x4652_4545 ==> found is InFree
            &&& last < header < last + size && sound && magic == 0x414C_4C4F ==> found is InAllocated
        }),
{
    lemma_located_path(bytes, span, stops, 0, header);
}

proof fn lemma_located_path(bytes: Seq<u8>, span: int, stops: Seq<int>, i: int, header: int)
    requires
        0 <= i < stops.len(),
        0 <= stops[i],
        forall|j: int|
            #![trigger stops[j]]
            0 <= j < stops.len() - 1 ==> {
                let size = u64_at(bytes, stops[j] + 8) as usize;
                &&& u32_at(bytes, stops[j]) == 0x4652_4545 || u32_at(bytes, stops[j]) == 0x414C_4C4F
                &&& size >= 24
                &&& stops[j] + size <= span
                &&& stops[j] + size <= header
                &&& stops[j + 1] == stops[j] + size
            },
    ensures
        ({
            let last = stops.last();
            let magic = u32_at(bytes, last);
            let size = u64_at(bytes, last + 8) as usize;
            let sound = (magic == 0x4652_4545 || magic == 0x414C_4C4F) && size >= 24 && last + size
                <= span;
            let found = located(bytes, span, stops[i], header);
            &&& last == header ==> found is Start
            &&& last < header && !sound ==> found is Unknown
            &&& last < header < last + size && sound && magic == 0x4652_4545 ==> found is InFree
            &&& last < header < last + size && sound && magic == 0x414C_4C4F ==> found is InAllocated
        }),
    decreases stops.len() - i,
{
    reveal(header_at);
    if i < stops.len() - 1 {
        assert(stops[i] + 24 <= header);
        lemma_located_path(bytes, span, stops, i + 1, header);
    }
}

} // verus!
