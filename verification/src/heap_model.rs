//! What the free list means for a heap in good order.
//!
//! A heap in good order is a row of blocks that covers the arena without gaps. This module says
//! how such a row is stored in the arena ([`FreeList::represents`]), and proves what `allocate`
//! and `dealloc` do to it.

use vstd::prelude::*;

use crate::heap::{
    carved, chain_stats, first_fit, header_at, is_free_block, lemma_same_header, lemma_with_header,
    located, payload_offset, predecessor, released, site, verdict, with_header, FreeList,
    FreeListError, Place, Site, Verdict, HEADER_ALIGN, HEADER_SIZE, MAGIC_ALLOC, MAGIC_FREE,
    MAX_ALIGN, MIN_BLOCK, NONE,
};
use crate::math::{lemma_powers_divide, lemma_round_up, power_of_two, round_up};

verus! {

/// One block of the heap, header included.
pub struct Block {
    /// Offset of the block's header.
    pub start: int,
    /// Length of the block, header included.
    pub size: int,
    /// Whether the block is free.
    pub free: bool,
}

impl Block {
    /// The offset behind the block.
    pub open spec fn end(self) -> int {
        self.start + self.size
    }
}

/// Whether the blocks cover `[from, to)` in address order and without gaps.
pub open spec fn tiles(blocks: Seq<Block>, from: int, to: int) -> bool {
    &&& forall|i: int|
        0 <= i < blocks.len() ==> #[trigger] blocks[i].size > HEADER_SIZE && blocks[i].size % 8
            == 0
    &&& forall|i: int, j: int|
        0 <= i && j == i + 1 && j < blocks.len() ==> #[trigger] blocks[i].end()
            == #[trigger] blocks[j].start
    &&& if blocks.len() == 0 {
        from == to
    } else {
        blocks[0].start == from && blocks[blocks.len() - 1].end() == to
    }
}

/// Offset of the first free block at or behind index `i`; [`NONE`] if there is none.
pub open spec fn next_free(blocks: Seq<Block>, i: int) -> usize
    decreases blocks.len() - i,
{
    if i < 0 || i >= blocks.len() {
        NONE
    } else if blocks[i].free {
        blocks[i].start as usize
    } else {
        next_free(blocks, i + 1)
    }
}

/// Offset of the last free block in front of index `i`; [`NONE`] if there is none.
pub open spec fn prev_free(blocks: Seq<Block>, i: int) -> usize
    decreases i,
{
    if i <= 0 || i > blocks.len() {
        NONE
    } else if blocks[i - 1].free {
        blocks[i - 1].start as usize
    } else {
        prev_free(blocks, i - 1)
    }
}

/// Number of free blocks at or behind index `i`.
pub open spec fn free_count(blocks: Seq<Block>, i: int) -> nat
    decreases blocks.len() - i,
{
    if i < 0 || i >= blocks.len() {
        0
    } else {
        free_count(blocks, i + 1) + (if blocks[i].free { 1nat } else { 0 })
    }
}

/// Free payload bytes at or behind index `i`.
pub open spec fn free_total(blocks: Seq<Block>, i: int) -> nat
    decreases blocks.len() - i,
{
    if i < 0 || i >= blocks.len() {
        0
    } else {
        free_total(blocks, i + 1) + (if blocks[i].free { (blocks[i].size - HEADER_SIZE) as nat } else {
            0
        })
    }
}

/// The largest free payload at or behind index `i`; 0 if no block is free there.
pub open spec fn free_largest(blocks: Seq<Block>, i: int) -> nat
    decreases blocks.len() - i,
{
    if i < 0 || i >= blocks.len() {
        0
    } else {
        let rest = free_largest(blocks, i + 1);
        if blocks[i].free && blocks[i].size - HEADER_SIZE > rest {
            (blocks[i].size - HEADER_SIZE) as nat
        } else {
            rest
        }
    }
}

/// Whether block `i` is written down in `bytes`: its header, and its link if it is free.
pub open spec fn stored(bytes: Seq<u8>, blocks: Seq<Block>, i: int) -> bool {
    let (magic, size, next) = header_at(bytes, blocks[i].start);
    &&& magic == (if blocks[i].free { MAGIC_FREE } else { MAGIC_ALLOC })
    &&& size == blocks[i].size
    &&& blocks[i].free ==> next == next_free(blocks, i + 1)
}

/// Whether no two neighbours are both free.
pub open spec fn coalesced(blocks: Seq<Block>) -> bool {
    forall|i: int, j: int|
        0 <= i && j == i + 1 && j < blocks.len() ==> !(#[trigger] blocks[i].free
            && #[trigger] blocks[j].free)
}

impl FreeList {
    /// Whether this list and the arena hold exactly these blocks.
    pub open(crate) spec fn represents(&self, bytes: Seq<u8>, blocks: Seq<Block>) -> bool {
        &&& self.links(bytes, blocks)
        &&& self.free_blocks == free_count(blocks, 0)
        &&& self.free_bytes == free_total(blocks, 0)
        &&& self.largest_free == free_largest(blocks, 0)
    }

    /// The part of [`FreeList::represents`] that does not speak of the statistics.
    pub open(crate) spec fn links(&self, bytes: Seq<u8>, blocks: Seq<Block>) -> bool {
        &&& self.matches_arena(bytes)
        &&& blocks.len() > 0
        &&& tiles(blocks, 0, self.arena_len as int)
        &&& coalesced(blocks)
        &&& self.head == next_free(blocks, 0)
        &&& forall|i: int| 0 <= i < blocks.len() ==> #[trigger] stored(bytes, blocks, i)
    }

    /// Whether the heap is in good order: not yet initialised, or a row of blocks.
    pub open(crate) spec fn well_formed(&self, bytes: Seq<u8>) -> bool {
        *self == Self::spec_empty() || exists|blocks: Seq<Block>| self.represents(bytes, blocks)
    }

    /// Whether `offset` is the payload of a block that is allocated.
    pub open(crate) spec fn is_live(&self, bytes: Seq<u8>, offset: usize) -> bool {
        exists|blocks: Seq<Block>, k: int|
            #![trigger self.represents(bytes, blocks), blocks[k]]
            {
                &&& self.represents(bytes, blocks)
                &&& 0 <= k < blocks.len()
                &&& !blocks[k].free
                &&& offset == blocks[k].start + HEADER_SIZE
            }
    }
}

// ---------------------------------------------------------------------------------------------
// Rows of blocks
// ---------------------------------------------------------------------------------------------

/// Blocks lie in address order, at multiples of 8, inside the range.
proof fn lemma_order(blocks: Seq<Block>, from: int, to: int, i: int, j: int)
    requires
        tiles(blocks, from, to),
        from % 8 == 0,
        0 <= i <= j < blocks.len(),
    ensures
        i < j ==> blocks[i].end() <= blocks[j].start,
        blocks[i].start % 8 == 0,
        blocks[i].start >= from + 24 * i,
        blocks[j].end() <= to,
        blocks[i].end() <= to,
        blocks[i].end() % 8 == 0,
    decreases i,
{
    if i > 0 {
        lemma_order(blocks, from, to, i - 1, i - 1);
        assert(blocks[i - 1].end() == blocks[i].start);
    }
    lemma_below(blocks, from, to, j);
    lemma_below(blocks, from, to, i);
    lemma_between(blocks, from, to, i, j);
}

proof fn lemma_between(blocks: Seq<Block>, from: int, to: int, i: int, j: int)
    requires
        tiles(blocks, from, to),
        0 <= i <= j < blocks.len(),
    ensures
        i < j ==> blocks[i].end() <= blocks[j].start,
    decreases j - i,
{
    if i < j {
        lemma_between(blocks, from, to, i, j - 1);
        assert(blocks[j - 1].end() == blocks[j].start);
    }
}

proof fn lemma_below(blocks: Seq<Block>, from: int, to: int, i: int)
    requires
        tiles(blocks, from, to),
        0 <= i < blocks.len(),
    ensures
        blocks[i].end() <= to,
    decreases blocks.len() - i,
{
    if i + 1 < blocks.len() {
        lemma_below(blocks, from, to, i + 1);
        assert(blocks[i].end() == blocks[i + 1].start);
    }
}

/// Two rows side by side are a row.
proof fn lemma_tiles_join(a: Seq<Block>, b: Seq<Block>, from: int, mid: int, to: int)
    requires
        tiles(a, from, mid),
        tiles(b, mid, to),
    ensures
        tiles(a + b, from, to),
{
    let s = a + b;
    assert forall|i: int| 0 <= i < s.len() implies #[trigger] s[i].size > HEADER_SIZE && s[i].size
        % 8 == 0 by {
        if i < a.len() {
            assert(s[i] == a[i]);
        } else {
            assert(s[i] == b[i - a.len()]);
        }
    }
    assert forall|i: int, j: int| 0 <= i && j == i + 1 && j < s.len() implies #[trigger] s[i].end()
        == #[trigger] s[j].start by {
        if j < a.len() {
            assert(a[i].end() == a[j].start);
        } else if i >= a.len() {
            assert(b[i - a.len()].end() == b[j - a.len()].start);
        }
    }
}

/// The blocks in front of index `k`, and those from index `k` on, are rows.
proof fn lemma_tiles_split(blocks: Seq<Block>, from: int, to: int, k: int)
    requires
        tiles(blocks, from, to),
        0 <= k <= blocks.len(),
    ensures
        k < blocks.len() ==> tiles(blocks.take(k), from, blocks[k].start) && tiles(
            blocks.skip(k),
            blocks[k].start,
            to,
        ),
        k == blocks.len() ==> tiles(blocks.take(k), from, to) && tiles(blocks.skip(k), to, to),
{
    let a = blocks.take(k);
    let b = blocks.skip(k);
    assert forall|i: int, j: int| 0 <= i && j == i + 1 && j < b.len() implies #[trigger] b[i].end()
        == #[trigger] b[j].start by {
        assert(blocks[i + k].end() == blocks[j + k].start);
    }
    assert forall|i: int, j: int| 0 <= i && j == i + 1 && j < a.len() implies #[trigger] a[i].end()
        == #[trigger] a[j].start by {
        assert(blocks[i].end() == blocks[j].start);
    }
    if 0 < k < blocks.len() {
        assert(blocks[k - 1].end() == blocks[k].start);
    }
}

/// Blocks that are not free can be skipped when looking for the next free one.
proof fn lemma_next_free_skip(blocks: Seq<Block>, i: int, j: int)
    requires
        0 <= i <= j <= blocks.len(),
        forall|m: int| i <= m < j ==> !#[trigger] blocks[m].free,
    ensures
        next_free(blocks, i) == next_free(blocks, j),
    decreases j - i,
{
    if i < j {
        lemma_next_free_skip(blocks, i + 1, j);
    }
}

/// The next free block depends only on the blocks from `i` on.
proof fn lemma_next_free_shift(a: Seq<Block>, b: Seq<Block>, i: int, d: int)
    requires
        0 <= i <= a.len(),
        0 <= i + d,
        b.len() == a.len() + d,
        forall|j: int| i <= j < a.len() ==> #[trigger] b[j + d] == a[j],
    ensures
        next_free(b, i + d) == next_free(a, i),
    decreases a.len() - i,
{
    if i < a.len() {
        assert(b[i + d] == a[i]);
        lemma_next_free_shift(a, b, i + 1, d);
    }
}

/// The next free block depends only on the blocks up to the first free one.
proof fn lemma_next_free_prefix(a: Seq<Block>, b: Seq<Block>, i: int, p: int)
    requires
        0 <= i <= p < a.len(),
        p < b.len(),
        a[p].free,
        forall|j: int| i <= j <= p ==> #[trigger] b[j] == a[j],
    ensures
        next_free(b, i) == next_free(a, i),
    decreases p - i,
{
    assert(b[i] == a[i]);
    assert(b[p] == a[p]);
    if i < p && !a[i].free {
        lemma_next_free_prefix(a, b, i + 1, p);
    }
}

/// The index of the last free block in front of `k`; -1 if there is none.
proof fn lemma_prev_free(blocks: Seq<Block>, k: int) -> (p: int)
    requires
        0 <= k <= blocks.len(),
    ensures
        -1 <= p < k,
        p >= 0 ==> blocks[p].free && prev_free(blocks, k) == blocks[p].start as usize,
        p < 0 ==> prev_free(blocks, k) == NONE,
        forall|m: int| p < m < k ==> !#[trigger] blocks[m].free,
    decreases k,
{
    if k == 0 {
        -1
    } else if blocks[k - 1].free {
        k - 1
    } else {
        lemma_prev_free(blocks, k - 1)
    }
}


// ---------------------------------------------------------------------------------------------
// Placing a request in a block
// ---------------------------------------------------------------------------------------------

/// Whether `size` and `align` make a request that can be served at all.
pub open spec fn valid_request(size: usize, align: usize) -> bool {
    0 < size && power_of_two(align as nat) && align <= MAX_ALIGN
}

/// Whether the request fits into the block.
pub open spec fn fits(block: Block, size: int, align: int) -> bool {
    payload_offset(block.start, align) + size <= block.end()
}

/// A supported alignment divides the size of the address space, and is below 8 or a multiple of 8.
pub(crate) proof fn lemma_align(align: nat)
    requires
        power_of_two(align),
        align <= MAX_ALIGN,
    ensures
        align > 0,
        (usize::MAX + 1) % align as int == 0,
        align % 8 == 0 || align == 1 || align == 2 || align == 4,
{
    reveal_with_fuel(power_of_two, 14);
    assert(align == 1 || align == 2 || align == 4 || align == 8 || align == 16 || align == 32
        || align == 64 || align == 128 || align == 256 || align == 512 || align == 1024 || align
        == 2048 || align == 4096);
}

/// The payload goes to the lowest aligned offset that leaves no gap or a usable one.
pub proof fn lemma_payload_offset(start: int, align: int)
    requires
        align > 0,
    ensures
        payload_offset(start, align) % align == 0,
        payload_offset(start, align) == start + HEADER_SIZE || payload_offset(start, align) >= start
            + HEADER_SIZE + MIN_BLOCK,
        forall|m: int|
            #[trigger] (m % align) == 0 && (m == start + HEADER_SIZE || m >= start + HEADER_SIZE
                + MIN_BLOCK) ==> payload_offset(start, align) <= m,
{
    lemma_round_up(start + HEADER_SIZE, align);
    lemma_round_up(start + HEADER_SIZE + MIN_BLOCK, align);
}

/// Header positions stay multiples of 8.
pub(crate) proof fn lemma_payload_aligned(start: int, align: nat)
    requires
        power_of_two(align),
        align <= MAX_ALIGN,
        start % 8 == 0,
    ensures
        payload_offset(start, align as int) % 8 == 0,
{
    lemma_align(align);
    lemma_payload_offset(start, align as int);
    let payload = payload_offset(start, align as int);
    if align % 8 == 0 {
        let a = align as int;
        vstd::arithmetic::div_mod::lemma_fundamental_div_mod(payload, a);
        let q = payload / a;
        let r = a / 8;
        assert(payload == (q * r) * 8) by (nonlinear_arith)
            requires
                payload == a * q,
                a == 8 * r,
        ;
    } else {
        let lowest = start + HEADER_SIZE;
        assert(lowest % align as int == 0);
        assert(payload <= lowest);
    }
}

/// On a block that ends at a header position, first fit takes exactly the blocks that fit, and
/// gives up only where the payload would end behind the address space.
proof fn lemma_verdict(start: int, end: int, size: int, align: nat)
    requires
        power_of_two(align),
        align <= MAX_ALIGN,
        0 <= start,
        end % 8 == 0,
        end <= usize::MAX,
        size > 0,
    ensures
        match verdict(start, end, size, align as int) {
            Verdict::Fits { payload, tail_start } => {
                &&& payload == payload_offset(start, align as int)
                &&& tail_start == round_up(payload + size, 8)
                &&& payload + size <= end
                &&& payload + size <= tail_start <= end
                &&& tail_start % 8 == 0
            },
            Verdict::TooSmall => payload_offset(start, align as int) + size > end,
            Verdict::Unusable => payload_offset(start, align as int) + size > usize::MAX,
        },
{
    let a = align as int;
    lemma_align(align);
    let lowest = start + HEADER_SIZE;
    let payload = payload_offset(start, a);
    lemma_payload_offset(start, a);
    lemma_round_up(lowest, a);
    lemma_round_up(lowest + MIN_BLOCK, a);
    lemma_round_up(payload + size, 8);
    assert(usize::MAX % 8 == 7);
    if payload <= usize::MAX {
        // The last multiple of `align` below the end of the address space.
        let last = usize::MAX + 1 - a;
        if payload > last {
            let d = usize::MAX + 1 - payload;
            assert(0 < d < a);
            let k = (usize::MAX + 1) / a;
            let q = payload / a;
            vstd::arithmetic::div_mod::lemma_fundamental_div_mod(usize::MAX + 1, a);
            vstd::arithmetic::div_mod::lemma_fundamental_div_mod(payload, a);
            assert(d == a * (k - q)) by (nonlinear_arith)
                requires
                    d == a * k - a * q,
            ;
            assert(false) by (nonlinear_arith)
                requires
                    0 < d < a,
                    d == a * (k - q),
            ;
        }
    }
}

/// A free block further on never takes a payload at a lower offset.
proof fn lemma_payload_monotone(first: int, second: int, align: int)
    requires
        align > 0,
        first + 2 * HEADER_SIZE <= second,
    ensures
        payload_offset(first, align) <= payload_offset(second, align),
{
    lemma_payload_offset(first, align);
    lemma_payload_offset(second, align);
}

// ---------------------------------------------------------------------------------------------
// Following the list through a row of blocks
// ---------------------------------------------------------------------------------------------

/// Every block of the row has a readable header, and a free one is a sound free block.
pub(crate) proof fn lemma_sound(list: FreeList, bytes: Seq<u8>, blocks: Seq<Block>, i: int)
    requires
        list.links(bytes, blocks),
        0 <= i < blocks.len(),
    ensures
        0 <= blocks[i].start,
        blocks[i].start % 8 == 0,
        blocks[i].end() % 8 == 0,
        blocks[i].start + HEADER_SIZE <= bytes.len(),
        blocks[i].end() <= list.arena_len,
        blocks[i].start < NONE,
        stored(bytes, blocks, i),
        blocks[i].free ==> is_free_block(bytes, list.arena_len as int, blocks[i].start),
        blocks.len() <= list.block_limit(),
{
    lemma_order(blocks, 0, list.arena_len as int, i, i);
    lemma_order(blocks, 0, list.arena_len as int, blocks.len() - 1, blocks.len() - 1);
    assert(stored(bytes, blocks, i));
}

/// The search through the list finds the first block that is free and fits.
proof fn lemma_first_fit(
    list: FreeList,
    bytes: Seq<u8>,
    blocks: Seq<Block>,
    i: int,
    k: int,
    steps: nat,
    size: usize,
    align: usize,
)
    requires
        list.links(bytes, blocks),
        valid_request(size, align),
        0 <= i <= k <= blocks.len(),
        forall|j: int|
            i <= j < k ==> !(#[trigger] blocks[j].free && fits(
                blocks[j],
                size as int,
                align as int,
            )),
        k < blocks.len() ==> blocks[k].free && fits(blocks[k], size as int, align as int),
        steps >= blocks.len() - i,
    ensures
        first_fit(
            bytes,
            list.arena_len as int,
            prev_free(blocks, i),
            next_free(blocks, i),
            steps,
            size as int,
            align as int,
        ) == (if k < blocks.len() {
            Some((prev_free(blocks, k), blocks[k].start as usize))
        } else {
            None
        }),
    decreases blocks.len() - i,
{
    if i < blocks.len() {
        let b = blocks[i];
        lemma_sound(list, bytes, blocks, i);
        if !b.free {
            lemma_first_fit(list, bytes, blocks, i + 1, k, steps, size, align);
        } else {
            lemma_verdict(b.start, b.end(), size as int, align as nat);
            match verdict(b.start, b.end(), size as int, align as int) {
                Verdict::Fits { .. } => {
                    assert(fits(b, size as int, align as int));
                },
                Verdict::TooSmall => {
                    lemma_first_fit(list, bytes, blocks, i + 1, k, (steps - 1) as nat, size, align);
                },
                Verdict::Unusable => {
                    if k < blocks.len() {
                        lemma_sound(list, bytes, blocks, k);
                        lemma_align(align as nat);
                        if k > i {
                            lemma_order(blocks, 0, list.arena_len as int, i + 1, k);
                            lemma_order(blocks, 0, list.arena_len as int, i, i + 1);
                            assert(!(blocks[i].free && blocks[i + 1].free));
                            lemma_payload_monotone(b.start, blocks[k].start, align as int);
                        }
                    }
                },
            }
        }
    }
}

/// The statistics counted along the list are those of the row.
proof fn lemma_stats(list: FreeList, bytes: Seq<u8>, blocks: Seq<Block>, i: int, steps: nat)
    requires
        list.links(bytes, blocks),
        0 <= i <= blocks.len(),
        steps >= blocks.len() - i,
    ensures
        chain_stats(bytes, list.arena_len as int, next_free(blocks, i), steps) == (
            free_count(blocks, i),
            free_total(blocks, i),
            free_largest(blocks, i),
        ),
        i < blocks.len() ==> free_total(blocks, i) <= list.arena_len - blocks[i].start,
        i == blocks.len() ==> free_total(blocks, i) == 0,
        free_largest(blocks, i) <= free_total(blocks, i),
        free_count(blocks, i) <= blocks.len() - i,
    decreases blocks.len() - i,
{
    if i < blocks.len() {
        lemma_sound(list, bytes, blocks, i);
        if i + 1 < blocks.len() {
            assert(blocks[i].end() == blocks[i + 1].start);
        }
        lemma_stats(
            list,
            bytes,
            blocks,
            i + 1,
            if blocks[i].free {
                (steps - 1) as nat
            } else {
                steps
            },
        );
    }
}

/// Counting anew gives the statistics of the row.
proof fn lemma_recounted(list: FreeList, head: usize, bytes: Seq<u8>, blocks: Seq<Block>)
    requires
        (FreeList { head, ..list }).links(bytes, blocks),
    ensures
        list.recounted(head, bytes).represents(bytes, blocks),
{
    let linked = FreeList { head, ..list };
    lemma_sound(linked, bytes, blocks, 0);
    lemma_stats(linked, bytes, blocks, 0, linked.block_limit());
    let counted = list.recounted(head, bytes);
    assert(counted.matches_arena(bytes));
}


// ---------------------------------------------------------------------------------------------
// Replacing a stretch of the row
// ---------------------------------------------------------------------------------------------

/// The row with the blocks `a..b` replaced by `mid`.
pub open spec fn replaced(blocks: Seq<Block>, a: int, b: int, mid: Seq<Block>) -> Seq<Block> {
    blocks.take(a) + mid + blocks.skip(b)
}

/// Behind the replaced stretch, the next free block is the same as before.
proof fn lemma_replaced_suffix(blocks: Seq<Block>, a: int, b: int, mid: Seq<Block>, i: int)
    requires
        0 <= a <= b <= i <= blocks.len(),
    ensures
        next_free(replaced(blocks, a, b, mid), i - b + a + mid.len()) == next_free(blocks, i),
{
    let new = replaced(blocks, a, b, mid);
    let d = a + mid.len() - b;
    assert forall|j: int| i <= j < blocks.len() implies #[trigger] new[j + d] == blocks[j] by {}
    lemma_next_free_shift(blocks, new, i, d);
}

/// Replacing a stretch of the row by blocks that are properly written down, and relinking the
/// free block in front of it, gives a heap in good order.
proof fn lemma_replaced(
    list: FreeList,
    bytes: Seq<u8>,
    blocks: Seq<Block>,
    a: int,
    b: int,
    mid: Seq<Block>,
    after: Seq<u8>,
    head: usize,
)
    requires
        list.links(bytes, blocks),
        0 <= a < b <= blocks.len(),
        mid.len() > 0,
        tiles(mid, blocks[a].start, blocks[b - 1].end()),
        coalesced(replaced(blocks, a, b, mid)),
        after.len() == bytes.len(),
        forall|m: int|
            a <= m < a + mid.len() ==> #[trigger] stored(after, replaced(blocks, a, b, mid), m),
        forall|i: int|
            0 <= i < blocks.len() && !(a <= i < b) && (#[trigger] blocks[i]).start != prev_free(
                blocks,
                a,
            ) ==> header_at(after, blocks[i].start) == header_at(bytes, blocks[i].start),
        prev_free(blocks, a) != NONE ==> header_at(after, prev_free(blocks, a) as int) == (
            MAGIC_FREE,
            header_at(bytes, prev_free(blocks, a) as int).1,
            next_free(replaced(blocks, a, b, mid), a),
        ) && head == list.head,
        prev_free(blocks, a) == NONE ==> head == next_free(replaced(blocks, a, b, mid), a),
    ensures
        (FreeList { head, ..list }).links(after, replaced(blocks, a, b, mid)),
{
    let len = list.arena_len as int;
    let new = replaced(blocks, a, b, mid);
    let d = a + mid.len() - b;
    lemma_sound(list, bytes, blocks, a);
    lemma_tiles_split(blocks, 0, len, a);
    lemma_tiles_split(blocks, 0, len, b);
    if b < blocks.len() {
        assert(blocks[b - 1].end() == blocks[b].start);
    }
    lemma_tiles_join(blocks.take(a), mid, 0, blocks[a].start, blocks[b - 1].end());
    lemma_tiles_join(
        blocks.take(a) + mid,
        blocks.skip(b),
        0,
        blocks[b - 1].end(),
        len,
    );
    let p = lemma_prev_free(blocks, a);
    if p >= 0 {
        lemma_sound(list, bytes, blocks, p);
        lemma_next_free_prefix(blocks, new, 0, p);
    } else {
        assert forall|m: int| 0 <= m < a implies !#[trigger] new[m].free by {
            assert(new[m] == blocks[m]);
        }
        lemma_next_free_skip(new, 0, a);
    }
    assert forall|i: int| 0 <= i < new.len() implies #[trigger] stored(after, new, i) by {
        if i < a {
            assert(new[i] == blocks[i]);
            lemma_sound(list, bytes, blocks, i);
            if i == p {
                assert forall|m: int| i + 1 <= m < a implies !#[trigger] new[m].free by {
                    assert(new[m] == blocks[m]);
                }
                lemma_next_free_skip(new, i + 1, a);
            } else {
                if p >= 0 {
                    if i < p {
                        lemma_order(blocks, 0, len, i, p);
                        lemma_next_free_prefix(blocks, new, i + 1, p);
                    } else {
                        lemma_order(blocks, 0, len, p, i);
                    }
                }
                assert(blocks[i].start != prev_free(blocks, a));
            }
        } else if i >= a + mid.len() {
            let o = i - d;
            assert(new[i] == blocks[o]);
            lemma_sound(list, bytes, blocks, o);
            if p >= 0 {
                lemma_order(blocks, 0, len, p, o);
            }
            assert(blocks[o].start != prev_free(blocks, a));
            lemma_replaced_suffix(blocks, a, b, mid, o + 1);
        }
    }
}

/// The blocks that a free block is split into for a request.
pub open spec fn pieces(block: Block, size: int, align: int) -> Seq<Block> {
    let payload = payload_offset(block.start, align);
    let header = payload - HEADER_SIZE;
    let tail_start = round_up(payload + size, 8);
    let has_tail = block.end() - tail_start >= MIN_BLOCK;
    let alloc_end = if has_tail { tail_start } else { block.end() };
    let front = if header > block.start {
        seq![Block { start: block.start, size: header - block.start, free: true }]
    } else {
        Seq::<Block>::empty()
    };
    let tail = if has_tail {
        seq![Block { start: tail_start, size: block.end() - tail_start, free: true }]
    } else {
        Seq::<Block>::empty()
    };
    front + seq![Block { start: header, size: alloc_end - header, free: false }] + tail
}

/// The row after a request was served from block `k`.
pub open spec fn after_allocate(blocks: Seq<Block>, k: int, size: int, align: int) -> Seq<Block> {
    replaced(blocks, k, k + 1, pieces(blocks[k], size, align))
}

/// Whether block `k` is the one at the lowest address that is free and large enough.
pub open spec fn is_first_fit(blocks: Seq<Block>, k: int, size: int, align: int) -> bool {
    &&& 0 <= k < blocks.len()
    &&& blocks[k].free
    &&& fits(blocks[k], size, align)
    &&& forall|j: int| 0 <= j < k ==> !(#[trigger] blocks[j].free && fits(blocks[j], size, align))
}

/// The pieces cover the block they were cut from.
proof fn lemma_pieces(block: Block, size: int, align: nat)
    requires
        power_of_two(align),
        align <= MAX_ALIGN,
        size > 0,
        block.start % 8 == 0,
        block.size % 8 == 0,
        fits(block, size, align as int),
    ensures
        tiles(pieces(block, size, align as int), block.start, block.end()),
        round_up(payload_offset(block.start, align as int) + size, 8) <= block.end(),
{
    let payload = payload_offset(block.start, align as int);
    lemma_align(align);
    lemma_payload_offset(block.start, align as int);
    lemma_payload_aligned(block.start, align);
    lemma_round_up(payload + size, 8);
}

/// What splitting a free block writes: the headers of the pieces, the link of the block in front,
/// and nothing else.
proof fn lemma_carved(
    bytes: Seq<u8>,
    head: usize,
    previous: usize,
    current: usize,
    payload: usize,
    tail_start: usize,
)
    requires
        ({
            let block_end = current + header_at(bytes, current as int).1;
            &&& block_end <= bytes.len() <= usize::MAX
            &&& payload == current + HEADER_SIZE || payload >= current + HEADER_SIZE + MIN_BLOCK
            &&& payload <= tail_start <= block_end
            &&& previous == NONE || previous + HEADER_SIZE <= current
        }),
    ensures
        ({
            let (_, block_size, next) = header_at(bytes, current as int);
            let block_end = current + block_size;
            let header = payload - HEADER_SIZE;
            let has_tail = block_end - tail_start >= MIN_BLOCK;
            let alloc_end: int = if has_tail { tail_start as int } else { block_end };
            let tail_link = if has_tail { tail_start } else { next };
            let link = if header > current { current } else { tail_link };
            let (after, new_head) = carved(bytes, head, previous, current, payload, tail_start);
            &&& after.len() == bytes.len()
            &&& header_at(after, header) == (MAGIC_ALLOC, (alloc_end - header) as usize, NONE)
            &&& has_tail ==> header_at(after, tail_start as int) == (
                MAGIC_FREE,
                (block_end - tail_start) as usize,
                next,
            )
            &&& header > current ==> header_at(after, current as int) == (
                MAGIC_FREE,
                (header - current) as usize,
                tail_link,
            )
            &&& previous != NONE ==> header_at(after, previous as int) == (
                MAGIC_FREE,
                header_at(bytes, previous as int).1,
                link,
            ) && new_head == head
            &&& previous == NONE ==> new_head == link
            &&& forall|i: int|
                0 <= i < bytes.len() && !(current <= i < block_end) && !(previous != NONE && previous
                    <= i < previous + HEADER_SIZE) ==> #[trigger] after[i] == bytes[i]
        }),
{
    let (_, block_size, next) = header_at(bytes, current as int);
    let block_end = current + block_size;
    let header = payload - HEADER_SIZE;
    let has_tail = block_end - tail_start >= MIN_BLOCK;
    let alloc_end: int = if has_tail { tail_start as int } else { block_end };
    let w1 = with_header(bytes, header, MAGIC_ALLOC, alloc_end - header, NONE);
    lemma_with_header(bytes, header, MAGIC_ALLOC, alloc_end - header, NONE);
    let w2 = if has_tail {
        with_header(w1, tail_start as int, MAGIC_FREE, block_end - tail_start, next)
    } else {
        w1
    };
    if has_tail {
        lemma_with_header(w1, tail_start as int, MAGIC_FREE, block_end - tail_start, next);
    }
    let tail_link = if has_tail { tail_start } else { next };
    let w3 = if header > current {
        with_header(w2, current as int, MAGIC_FREE, header - current, tail_link)
    } else {
        w2
    };
    if header > current {
        lemma_with_header(w2, current as int, MAGIC_FREE, header - current, tail_link);
    }
    let link = if header > current { current } else { tail_link };
    if previous != NONE {
        let previous_size = header_at(bytes, previous as int).1;
        lemma_with_header(w3, previous as int, MAGIC_FREE, previous_size as int, link);
    }
}

/// Serving a request from a free block leaves no two free neighbours.
proof fn lemma_pieces_coalesced(blocks: Seq<Block>, k: int, size: int, align: int)
    requires
        coalesced(blocks),
        0 <= k < blocks.len(),
        blocks[k].free,
    ensures
        coalesced(after_allocate(blocks, k, size, align)),
{
    let mid = pieces(blocks[k], size, align);
    let new = replaced(blocks, k, k + 1, mid);
    assert forall|i: int, j: int| 0 <= i && j == i + 1 && j < new.len() implies !(
    #[trigger] new[i].free && #[trigger] new[j].free) by {
        if j < k {
            assert(new[i] == blocks[i] && new[j] == blocks[j]);
        } else if j == k {
            assert(new[i] == blocks[k - 1]);
            assert(!(blocks[k - 1].free && blocks[k].free));
        } else if i >= k + mid.len() {
            let d = mid.len() - 1;
            assert(new[i] == blocks[i - d] && new[j] == blocks[j - d]);
        } else if j == k + mid.len() {
            assert(new[j] == blocks[k + 1]);
            assert(!(blocks[k].free && blocks[k + 1].free));
        } else {
            assert(new[i] == mid[i - k] && new[j] == mid[j - k]);
        }
    }
}

/// Other blocks of the row are disjoint from block `k`.
proof fn lemma_apart(list: FreeList, bytes: Seq<u8>, blocks: Seq<Block>, k: int, i: int)
    requires
        list.links(bytes, blocks),
        0 <= k < blocks.len(),
        0 <= i < blocks.len(),
        i != k,
    ensures
        blocks[i].end() <= blocks[k].start || blocks[k].end() <= blocks[i].start,
        i < k ==> blocks[i].end() <= blocks[k].start,
        i > k ==> blocks[k].end() <= blocks[i].start,
{
    if i < k {
        lemma_order(blocks, 0, list.arena_len as int, i, k);
    } else {
        lemma_order(blocks, 0, list.arena_len as int, k, i);
    }
}

/// A request takes the free block at the lowest address that is large enough. Its payload goes
/// to the lowest suitable offset in it, what is left over in front and behind stays free, and no
/// byte of an allocated block changes.
pub proof fn law_allocate(
    list: FreeList,
    bytes: Seq<u8>,
    blocks: Seq<Block>,
    k: int,
    size: usize,
    align: usize,
)
    requires
        list.represents(bytes, blocks),
        valid_request(size, align),
        is_first_fit(blocks, k, size as int, align as int),
    ensures
        ({
            let (result, after_list, after) = list.alloc_outcome(bytes, size, align);
            &&& result == Some(payload_offset(blocks[k].start, align as int) as usize)
            &&& after_list.represents(
                after,
                after_allocate(blocks, k, size as int, align as int),
            )
            &&& after.len() == bytes.len()
            &&& forall|j: int, i: int|
                0 <= j < blocks.len() && !(#[trigger] blocks[j]).free && blocks[j].start <= i
                    < blocks[j].end() ==> #[trigger] after[i] == bytes[i]
        }),
{
    let a = align as int;
    let b = blocks[k];
    lemma_sound(list, bytes, blocks, k);
    lemma_first_fit(list, bytes, blocks, 0, k, list.block_limit(), size, align);
    lemma_verdict(b.start, b.end(), size as int, align as nat);
    lemma_align(align as nat);
    lemma_payload_offset(b.start, a);
    lemma_pieces(b, size as int, align as nat);
    lemma_pieces_coalesced(blocks, k, size as int, a);
    let payload = payload_offset(b.start, a) as usize;
    let tail_start = round_up(payload + size, 8) as usize;
    let previous = prev_free(blocks, k);
    let p = lemma_prev_free(blocks, k);
    if p >= 0 {
        lemma_sound(list, bytes, blocks, p);
        lemma_apart(list, bytes, blocks, k, p);
    }
    let (after, head) = carved(bytes, list.head, previous, b.start as usize, payload, tail_start);
    lemma_carved(bytes, list.head, previous, b.start as usize, payload, tail_start);
    lemma_pieces_linked(list, bytes, blocks, k, size, align, after);
    let mid = pieces(b, size as int, a);
    let new = replaced(blocks, k, k + 1, mid);
    assert forall|i: int|
        0 <= i < blocks.len() && !(k <= i < k + 1) && (#[trigger] blocks[i]).start != prev_free(
            blocks,
            k,
        ) implies header_at(after, blocks[i].start) == header_at(bytes, blocks[i].start) by {
        lemma_sound(list, bytes, blocks, i);
        lemma_apart(list, bytes, blocks, k, i);
        if p >= 0 {
            lemma_apart(list, bytes, blocks, p, i);
        }
        lemma_same_header(after, bytes, blocks[i].start);
    }
    lemma_replaced(list, bytes, blocks, k, k + 1, mid, after, head);
    lemma_recounted(list, head, after, new);
    assert forall|j: int, i: int|
        0 <= j < blocks.len() && !(#[trigger] blocks[j]).free && blocks[j].start <= i
            < blocks[j].end() implies #[trigger] after[i] == bytes[i] by {
        lemma_sound(list, bytes, blocks, j);
        lemma_apart(list, bytes, blocks, k, j);
        if p >= 0 {
            lemma_apart(list, bytes, blocks, p, j);
        }
    }
}

/// The pieces of a split block are linked as they are written.
proof fn lemma_pieces_linked(
    list: FreeList,
    bytes: Seq<u8>,
    blocks: Seq<Block>,
    k: int,
    size: usize,
    align: usize,
    after: Seq<u8>,
)
    requires
        list.links(bytes, blocks),
        0 <= k < blocks.len(),
        blocks[k].free,
        blocks[k].start <= payload_offset(blocks[k].start, align as int) - HEADER_SIZE,
        ({
            let b = blocks[k];
            let next = header_at(bytes, b.start).2;
            let payload = payload_offset(b.start, align as int);
            let tail_start = round_up(payload + size, 8);
            let header = payload - HEADER_SIZE;
            let has_tail = b.end() - tail_start >= MIN_BLOCK;
            let alloc_end: int = if has_tail { tail_start as int } else { b.end() };
            &&& payload + size <= tail_start <= b.end() <= usize::MAX
            &&& header_at(after, header) == (MAGIC_ALLOC, (alloc_end - header) as usize, NONE)
            &&& has_tail ==> header_at(after, tail_start) == (
                MAGIC_FREE,
                (b.end() - tail_start) as usize,
                next,
            )
            &&& header > b.start ==> header_at(after, b.start) == (
                MAGIC_FREE,
                (header - b.start) as usize,
                if has_tail { tail_start as usize } else { next },
            )
        }),
    ensures
        ({
            let b = blocks[k];
            let next = header_at(bytes, b.start).2;
            let payload = payload_offset(b.start, align as int);
            let tail_start = round_up(payload + size, 8);
            let has_tail = b.end() - tail_start >= MIN_BLOCK;
            let new = after_allocate(blocks, k, size as int, align as int);
            let mid = pieces(b, size as int, align as int);
            &&& next_free(new, k) == (if payload - HEADER_SIZE > b.start {
                b.start as usize
            } else if has_tail {
                tail_start as usize
            } else {
                next
            })
            &&& forall|m: int| k <= m < k + mid.len() ==> #[trigger] stored(after, new, m)
        }),
{
    let b = blocks[k];
    lemma_sound(list, bytes, blocks, k);
    let payload = payload_offset(b.start, align as int);
    let tail_start = round_up(payload + size, 8);
    let has_front = payload - HEADER_SIZE > b.start;
    let has_tail = b.end() - tail_start >= MIN_BLOCK;
    let mid = pieces(b, size as int, align as int);
    let new = after_allocate(blocks, k, size as int, align as int);
    let next = header_at(bytes, b.start).2;
    lemma_replaced_suffix(blocks, k, k + 1, mid, k + 1);
    let f: int = if has_front { 1 } else { 0 };
    let t: int = if has_tail { 1 } else { 0 };
    assert(mid.len() == f + 1 + t);
    assert(next_free(new, k + mid.len()) == next);
    assert(new[k + f] == mid[f]);
    if has_tail {
        assert(new[k + f + 1] == mid[f + 1]);
    }
    if has_front {
        assert(new[k] == mid[0]);
    }
    let tail_link = if has_tail { tail_start as usize } else { next };
    assert(next_free(new, k + f + 1) == tail_link);
    assert(next_free(new, k + f) == tail_link);
    assert forall|m: int| k <= m < k + mid.len() implies #[trigger] stored(after, new, m) by {
        if m == k + f {
        } else if m < k + f {
            assert(m == k);
        } else {
            assert(m == k + f + 1);
        }
    }
}

/// A request that no free block can take, or a malformed one, fails and changes nothing.
pub proof fn law_allocate_fails(
    list: FreeList,
    bytes: Seq<u8>,
    blocks: Seq<Block>,
    size: usize,
    align: usize,
)
    requires
        list.represents(bytes, blocks),
        !valid_request(size, align) || forall|j: int|
            0 <= j < blocks.len() ==> !(#[trigger] blocks[j].free && fits(
                blocks[j],
                size as int,
                align as int,
            )),
    ensures
        list.alloc_outcome(bytes, size, align) == (None::<usize>, list, bytes),
{
    if valid_request(size, align) {
        lemma_sound(list, bytes, blocks, 0);
        lemma_first_fit(list, bytes, blocks, 0, blocks.len() as int, list.block_limit(), size, align);
    }
}


// ---------------------------------------------------------------------------------------------
// Freeing
// ---------------------------------------------------------------------------------------------

/// The index of the first free block at or behind `i`; the length of the row if there is none.
pub(crate) proof fn lemma_next_free(blocks: Seq<Block>, i: int) -> (q: int)
    requires
        0 <= i <= blocks.len(),
    ensures
        i <= q <= blocks.len(),
        q < blocks.len() ==> blocks[q].free && next_free(blocks, i) == blocks[q].start as usize,
        q == blocks.len() ==> next_free(blocks, i) == NONE,
        forall|m: int| i <= m < q ==> !#[trigger] blocks[m].free,
    decreases blocks.len() - i,
{
    if i == blocks.len() || blocks[i].free {
        i
    } else {
        lemma_next_free(blocks, i + 1)
    }
}

/// The place of an allocated block is between the free blocks around it.
proof fn lemma_site(list: FreeList, bytes: Seq<u8>, blocks: Seq<Block>, i: int, k: int, steps: nat)
    requires
        list.links(bytes, blocks),
        0 <= i <= k < blocks.len(),
        !blocks[k].free,
        steps >= blocks.len() - i,
    ensures
        site(
            bytes,
            list.arena_len as int,
            prev_free(blocks, i),
            next_free(blocks, i),
            steps,
            blocks[k].start,
            blocks[k].end(),
        ) == Site::Between(prev_free(blocks, k), next_free(blocks, k + 1)),
    decreases k - i,
{
    lemma_sound(list, bytes, blocks, i);
    if i == k {
        let q = lemma_next_free(blocks, k + 1);
        lemma_next_free_skip(blocks, k, k + 1);
        if q < blocks.len() {
            lemma_sound(list, bytes, blocks, q);
            lemma_apart(list, bytes, blocks, k, q);
        }
    } else if blocks[i].free {
        lemma_apart(list, bytes, blocks, k, i);
        lemma_site(list, bytes, blocks, i + 1, k, (steps - 1) as nat);
    } else {
        lemma_site(list, bytes, blocks, i + 1, k, steps);
    }
}

/// Walking to a free block finds the free block in front of it.
proof fn lemma_predecessor(
    list: FreeList,
    bytes: Seq<u8>,
    blocks: Seq<Block>,
    i: int,
    p: int,
    steps: nat,
)
    requires
        list.links(bytes, blocks),
        0 <= i <= p < blocks.len(),
        blocks[p].free,
        steps >= blocks.len() - i,
    ensures
        predecessor(
            bytes,
            prev_free(blocks, i),
            next_free(blocks, i),
            steps,
            blocks[p].start as usize,
        ) == Some(prev_free(blocks, p)),
    decreases p - i,
{
    lemma_sound(list, bytes, blocks, i);
    lemma_sound(list, bytes, blocks, p);
    if i < p {
        lemma_apart(list, bytes, blocks, p, i);
        lemma_predecessor(
            list,
            bytes,
            blocks,
            i + 1,
            p,
            if blocks[i].free {
                (steps - 1) as nat
            } else {
                steps
            },
        );
    }
}

/// First of the blocks that freeing block `k` merges.
pub open spec fn merge_from(blocks: Seq<Block>, k: int) -> int {
    if k > 0 && blocks[k - 1].free {
        k - 1
    } else {
        k
    }
}

/// Index behind the last of the blocks that freeing block `k` merges.
pub open spec fn merge_to(blocks: Seq<Block>, k: int) -> int {
    if k + 1 < blocks.len() && blocks[k + 1].free {
        k + 2
    } else {
        k + 1
    }
}

/// The row after block `k` was freed: it and its free neighbours have become one free block.
pub open spec fn after_dealloc(blocks: Seq<Block>, k: int) -> Seq<Block> {
    let a = merge_from(blocks, k);
    let b = merge_to(blocks, k);
    let start = blocks[a].start;
    replaced(
        blocks,
        a,
        b,
        seq![Block { start, size: blocks[b - 1].end() - start, free: true }],
    )
}

/// Freeing a block leaves no two free neighbours.
proof fn lemma_dealloc_coalesced(blocks: Seq<Block>, k: int)
    requires
        coalesced(blocks),
        0 <= k < blocks.len(),
    ensures
        coalesced(after_dealloc(blocks, k)),
{
    let a = merge_from(blocks, k);
    let b = merge_to(blocks, k);
    let new = after_dealloc(blocks, k);
    let d = b - a - 1;
    assert forall|i: int, j: int| 0 <= i && j == i + 1 && j < new.len() implies !(
    #[trigger] new[i].free && #[trigger] new[j].free) by {
        if j < a {
            assert(new[i] == blocks[i] && new[j] == blocks[j]);
        } else if j == a {
            assert(new[i] == blocks[a - 1]);
            assert(a < k ==> !(blocks[a - 1].free && blocks[a].free));
        } else if i == a {
            assert(new[j] == blocks[b]);
            assert(b > k + 1 ==> !(blocks[b - 1].free && blocks[b].free));
        } else {
            assert(new[i] == blocks[i + d] && new[j] == blocks[j + d]);
        }
    }
}

/// The neighbours that touch an allocated block in memory are the ones next to it in the row.
proof fn lemma_neighbours(list: FreeList, bytes: Seq<u8>, blocks: Seq<Block>, k: int)
    requires
        list.links(bytes, blocks),
        0 <= k < blocks.len(),
        !blocks[k].free,
    ensures
        ({
            let previous = prev_free(blocks, k);
            let current = next_free(blocks, k + 1);
            &&& (previous != NONE && previous + header_at(bytes, previous as int).1
                == blocks[k].start) == (merge_from(blocks, k) == k - 1)
            &&& (current != NONE && blocks[k].end() == current) == (merge_to(blocks, k) == k + 2)
            &&& merge_from(blocks, k) == k - 1 ==> {
                &&& previous == blocks[k - 1].start
                &&& header_at(bytes, previous as int).1 == blocks[k - 1].size
                &&& predecessor(bytes, NONE, list.head, list.block_limit(), previous) == Some(
                    prev_free(blocks, k - 1),
                )
            }
            &&& merge_to(blocks, k) == k + 2 ==> {
                &&& current == blocks[k + 1].start
                &&& header_at(bytes, current as int).1 == blocks[k + 1].size
                &&& header_at(bytes, current as int).2 == next_free(blocks, k + 2)
            }
        }),
{
    lemma_sound(list, bytes, blocks, k);
    let p = lemma_prev_free(blocks, k);
    let q = lemma_next_free(blocks, k + 1);
    if p >= 0 {
        lemma_sound(list, bytes, blocks, p);
    }
    if q < blocks.len() {
        lemma_sound(list, bytes, blocks, q);
    }
    if k > 0 {
        lemma_sound(list, bytes, blocks, k - 1);
        assert(blocks[k - 1].end() == blocks[k].start);
        if 0 <= p < k - 1 {
            lemma_apart(list, bytes, blocks, k - 1, p);
        }
        if blocks[k - 1].free {
            lemma_predecessor(list, bytes, blocks, 0, k - 1, list.block_limit());
        }
    }
    if k + 1 < blocks.len() {
        lemma_sound(list, bytes, blocks, k + 1);
        assert(blocks[k].end() == blocks[k + 1].start);
        if k + 1 < q < blocks.len() {
            lemma_apart(list, bytes, blocks, k + 1, q);
        }
    }
}

/// What freeing block `k` writes.
proof fn lemma_released(list: FreeList, bytes: Seq<u8>, blocks: Seq<Block>, k: int)
    requires
        list.links(bytes, blocks),
        0 <= k < blocks.len(),
        !blocks[k].free,
    ensures
        ({
            let a = merge_from(blocks, k);
            let b = merge_to(blocks, k);
            let start = blocks[a].start;
            let size = blocks[b - 1].end() - start;
            let before = prev_free(blocks, a);
            let merged = with_header(bytes, start, MAGIC_FREE, size, next_free(blocks, b));
            released(
                bytes,
                list.head,
                list.block_limit(),
                blocks[k].start,
                blocks[k].size,
                prev_free(blocks, k),
                next_free(blocks, k + 1),
            ) == Ok::<(Seq<u8>, usize), usize>(
                if before == NONE {
                    (merged, start as usize)
                } else {
                    (
                        with_header(
                            merged,
                            before as int,
                            MAGIC_FREE,
                            header_at(merged, before as int).1 as int,
                            start as usize,
                        ),
                        list.head,
                    )
                },
            )
        }),
{
    lemma_neighbours(list, bytes, blocks, k);
    lemma_sound(list, bytes, blocks, k);
    let a = merge_from(blocks, k);
    let b = merge_to(blocks, k);
    if k > 0 {
        assert(blocks[k - 1].end() == blocks[k].start);
    }
    if k + 1 < blocks.len() {
        assert(blocks[k].end() == blocks[k + 1].start);
    }
}

/// The arena after block `k` was freed: the header of the merged block, and the link to it.
spec fn freed(bytes: Seq<u8>, blocks: Seq<Block>, k: int) -> Seq<u8> {
    let a = merge_from(blocks, k);
    let b = merge_to(blocks, k);
    let start = blocks[a].start;
    let size = blocks[b - 1].end() - start;
    let before = prev_free(blocks, a);
    let merged = with_header(bytes, start, MAGIC_FREE, size, next_free(blocks, b));
    if before == NONE {
        merged
    } else {
        with_header(
            merged,
            before as int,
            MAGIC_FREE,
            header_at(merged, before as int).1 as int,
            start as usize,
        )
    }
}

/// The bytes that freeing block `k` changes.
proof fn lemma_freed(list: FreeList, bytes: Seq<u8>, blocks: Seq<Block>, k: int) -> (o: int)
    requires
        list.links(bytes, blocks),
        0 <= k < blocks.len(),
        !blocks[k].free,
    ensures
        ({
            let a = merge_from(blocks, k);
            let b = merge_to(blocks, k);
            let start = blocks[a].start;
            let before = prev_free(blocks, a);
            let after = freed(bytes, blocks, k);
            &&& -1 <= o < a
            &&& o < 0 ==> before == NONE
            &&& o >= 0 ==> blocks[o].free && before == blocks[o].start && before != NONE
            &&& after.len() == bytes.len()
            &&& header_at(after, start) == (
                MAGIC_FREE,
                (blocks[b - 1].end() - start) as usize,
                next_free(blocks, b),
            )
            &&& before != NONE ==> header_at(after, before as int) == (
                MAGIC_FREE,
                header_at(bytes, before as int).1,
                start as usize,
            )
            &&& forall|x: int|
                0 <= x < bytes.len() && !(start <= x < start + HEADER_SIZE) && !(o >= 0
                    && blocks[o].start <= x < blocks[o].start + HEADER_SIZE) ==> #[trigger] after[x]
                    == bytes[x]
        }),
{
    let a = merge_from(blocks, k);
    let b = merge_to(blocks, k);
    let start = blocks[a].start;
    let size = blocks[b - 1].end() - start;
    let before = prev_free(blocks, a);
    let merged = with_header(bytes, start, MAGIC_FREE, size, next_free(blocks, b));
    lemma_sound(list, bytes, blocks, a);
    lemma_sound(list, bytes, blocks, b - 1);
    lemma_order(blocks, 0, list.arena_len as int, a, b - 1);
    lemma_with_header(bytes, start, MAGIC_FREE, size, next_free(blocks, b));
    let o = lemma_prev_free(blocks, a);
    if o >= 0 {
        lemma_sound(list, bytes, blocks, o);
        lemma_apart(list, bytes, blocks, a, o);
        lemma_with_header(
            merged,
            before as int,
            MAGIC_FREE,
            header_at(merged, before as int).1 as int,
            start as usize,
        );
    }
    o
}

/// The merged block is linked as it is written.
proof fn lemma_freed_links(list: FreeList, bytes: Seq<u8>, blocks: Seq<Block>, k: int)
    requires
        list.links(bytes, blocks),
        0 <= k < blocks.len(),
        !blocks[k].free,
    ensures
        ({
            let a = merge_from(blocks, k);
            let head = if prev_free(blocks, a) == NONE {
                blocks[a].start as usize
            } else {
                list.head
            };
            (FreeList { head, ..list }).links(freed(bytes, blocks, k), after_dealloc(blocks, k))
        }),
{
    let a = merge_from(blocks, k);
    let b = merge_to(blocks, k);
    let before = prev_free(blocks, a);
    let start = blocks[a].start;
    let size = blocks[b - 1].end() - start;
    let after = freed(bytes, blocks, k);
    let o = lemma_freed(list, bytes, blocks, k);
    let head = if before == NONE { start as usize } else { list.head };
    lemma_sound(list, bytes, blocks, a);
    lemma_sound(list, bytes, blocks, b - 1);
    lemma_order(blocks, 0, list.arena_len as int, a, b - 1);
    let mid = seq![Block { start, size, free: true }];
    let new = after_dealloc(blocks, k);
    assert(tiles(mid, start, blocks[b - 1].end()));
    lemma_replaced_suffix(blocks, a, b, mid, b);
    assert(new[a] == mid[0]);
    assert(stored(after, new, a));
    assert(forall|m: int| a <= m < a + mid.len() ==> #[trigger] stored(after, new, m));
    lemma_dealloc_coalesced(blocks, k);
    assert forall|i: int|
        0 <= i < blocks.len() && !(a <= i < b) && (#[trigger] blocks[i]).start
            != before implies header_at(after, blocks[i].start) == header_at(
        bytes,
        blocks[i].start,
    ) by {
        lemma_untouched(list, bytes, blocks, a, o, i, after);
        lemma_same_header(after, bytes, blocks[i].start);
    }
    lemma_replaced(list, bytes, blocks, a, b, mid, after, head);
}

/// Following the blocks ends in the one that holds the offset.
proof fn lemma_located(
    list: FreeList,
    bytes: Seq<u8>,
    blocks: Seq<Block>,
    i: int,
    k: int,
    header: int,
)
    requires
        list.links(bytes, blocks),
        0 <= i <= k < blocks.len(),
        blocks[k].start <= header < blocks[k].end(),
    ensures
        located(bytes, list.arena_len as int, blocks[i].start, header) == (if header
            == blocks[k].start {
            Place::Start
        } else if blocks[k].free {
            Place::InFree
        } else {
            Place::InAllocated
        }),
    decreases k - i,
{
    lemma_sound(list, bytes, blocks, i);
    if i < k {
        lemma_order(blocks, 0, list.arena_len as int, i, k);
        assert(blocks[i].end() == blocks[i + 1].start);
        lemma_located(list, bytes, blocks, i + 1, k, header);
    }
}

/// The block that holds an offset.
proof fn lemma_block_of(list: FreeList, bytes: Seq<u8>, blocks: Seq<Block>, i: int, at: int) -> (k:
    int)
    requires
        list.links(bytes, blocks),
        0 <= i < blocks.len(),
        blocks[i].start <= at < list.arena_len,
    ensures
        i <= k < blocks.len(),
        blocks[k].start <= at < blocks[k].end(),
    decreases blocks.len() - i,
{
    if at < blocks[i].end() {
        i
    } else {
        assert(i + 1 < blocks.len());
        assert(blocks[i].end() == blocks[i + 1].start);
        lemma_block_of(list, bytes, blocks, i + 1, at)
    }
}

/// Freeing an allocated block succeeds. The block and the free neighbours it touches become one
/// free block, and no byte of another allocated block changes.
pub proof fn law_dealloc(list: FreeList, bytes: Seq<u8>, blocks: Seq<Block>, k: int)
    requires
        list.represents(bytes, blocks),
        0 <= k < blocks.len(),
        !blocks[k].free,
    ensures
        ({
            let offset = (blocks[k].start + HEADER_SIZE) as usize;
            let (result, after_list, after) = list.dealloc_outcome(bytes, offset);
            &&& result == Ok::<(), FreeListError>(())
            &&& after_list.represents(after, after_dealloc(blocks, k))
            &&& after.len() == bytes.len()
            &&& forall|j: int, i: int|
                0 <= j < blocks.len() && j != k && !(#[trigger] blocks[j]).free && blocks[j].start
                    <= i < blocks[j].end() ==> #[trigger] after[i] == bytes[i]
        }),
{
    lemma_sound(list, bytes, blocks, k);
    lemma_located(list, bytes, blocks, 0, k, blocks[k].start);
    lemma_site(list, bytes, blocks, 0, k, list.block_limit());
    lemma_released(list, bytes, blocks, k);
    let a = merge_from(blocks, k);
    let after = freed(bytes, blocks, k);
    let o = lemma_freed(list, bytes, blocks, k);
    let head = if prev_free(blocks, a) == NONE { blocks[a].start as usize } else { list.head };
    assert(prev_free(blocks, 0) == NONE);
    assert(list.dealloc_outcome(bytes, (blocks[k].start + HEADER_SIZE) as usize) == (
        Ok::<(), FreeListError>(()),
        list.recounted(head, after),
        after,
    ));
    lemma_freed_links(list, bytes, blocks, k);
    lemma_recounted(list, head, after, after_dealloc(blocks, k));
    assert forall|j: int, i: int|
        0 <= j < blocks.len() && j != k && !(#[trigger] blocks[j]).free && blocks[j].start <= i
            < blocks[j].end() implies #[trigger] after[i] == bytes[i] by {
        lemma_untouched(list, bytes, blocks, a, o, j, after);
    }
}

/// A block other than the two whose headers were written keeps its bytes.
proof fn lemma_untouched(
    list: FreeList,
    bytes: Seq<u8>,
    blocks: Seq<Block>,
    a: int,
    o: int,
    i: int,
    after: Seq<u8>,
)
    requires
        list.links(bytes, blocks),
        0 <= a < blocks.len(),
        -1 <= o < a,
        0 <= i < blocks.len(),
        i != a,
        i != o,
        forall|x: int|
            0 <= x < bytes.len() && !(blocks[a].start <= x < blocks[a].start + HEADER_SIZE) && !(o
                >= 0 && blocks[o].start <= x < blocks[o].start + HEADER_SIZE) ==> #[trigger] after[x]
                == bytes[x],
    ensures
        forall|x: int| blocks[i].start <= x < blocks[i].end() ==> #[trigger] after[x] == bytes[x],
{
    lemma_sound(list, bytes, blocks, i);
    lemma_sound(list, bytes, blocks, a);
    lemma_apart(list, bytes, blocks, a, i);
    if o >= 0 {
        lemma_sound(list, bytes, blocks, o);
        lemma_apart(list, bytes, blocks, o, i);
    }
}

// ---------------------------------------------------------------------------------------------
// What callers rely on
// ---------------------------------------------------------------------------------------------

/// A fresh heap is one free block that covers the arena.
pub proof fn law_init(list: FreeList, bytes: Seq<u8>)
    requires
        bytes.len() <= usize::MAX,
        bytes.len() - bytes.len() % 8 >= MIN_BLOCK,
        list.head_offset() == 0,
        list.span() == bytes.len() - bytes.len() % 8,
        list.counts().free_blocks == 1,
        list.counts().free_bytes == list.span() - HEADER_SIZE,
        list.counts().largest_free == list.span() - HEADER_SIZE,
    ensures
        list.represents(
            with_header(bytes, 0, MAGIC_FREE, list.span() as int, NONE),
            seq![Block { start: 0, size: list.span() as int, free: true }],
        ),
{
    let len = list.arena_len as int;
    let blocks = seq![Block { start: 0, size: len, free: true }];
    let after = with_header(bytes, 0, MAGIC_FREE, len, NONE);
    lemma_with_header(bytes, 0, MAGIC_FREE, len, NONE);
    reveal_with_fuel(next_free, 2);
    reveal_with_fuel(free_count, 2);
    reveal_with_fuel(free_total, 2);
    reveal_with_fuel(free_largest, 2);
    assert(stored(after, blocks, 0));
}

/// Two different blocks of a heap never overlap, and every block lies inside the arena.
pub proof fn law_blocks_are_disjoint(
    list: FreeList,
    bytes: Seq<u8>,
    blocks: Seq<Block>,
    i: int,
    j: int,
)
    requires
        list.represents(bytes, blocks),
        0 <= i < blocks.len(),
        0 <= j < blocks.len(),
        i != j,
    ensures
        blocks[i].end() <= blocks[j].start || blocks[j].end() <= blocks[i].start,
        0 <= blocks[i].start,
        blocks[i].end() <= list.span(),
{
    lemma_sound(list, bytes, blocks, i);
    lemma_apart(list, bytes, blocks, i, j);
}

/// The payload of a served request is aligned as asked, lies in a block of its own behind that
/// block's header, and every block that was allocated before is still there, apart from it.
pub proof fn law_allocation_is_usable(
    list: FreeList,
    bytes: Seq<u8>,
    blocks: Seq<Block>,
    k: int,
    size: usize,
    align: usize,
) -> (m: int)
    requires
        list.represents(bytes, blocks),
        valid_request(size, align),
        is_first_fit(blocks, k, size as int, align as int),
    ensures
        ({
            let payload = list.alloc_outcome(bytes, size, align).0->0;
            let row = after_allocate(blocks, k, size as int, align as int);
            &&& payload as int % align as int == 0
            &&& payload % HEADER_ALIGN == 0
            &&& 0 <= m < row.len()
            &&& !row[m].free
            &&& row[m].start + HEADER_SIZE == payload
            &&& payload + size <= row[m].end()
            &&& payload + size <= list.span()
            &&& forall|j: int|
                0 <= j < blocks.len() && !(#[trigger] blocks[j]).free ==> exists|n: int|
                    0 <= n < row.len() && n != m && row[n] == blocks[j]
        }),
{
    law_allocate(list, bytes, blocks, k, size, align);
    let b = blocks[k];
    let a = align as int;
    lemma_sound(list, bytes, blocks, k);
    lemma_align(align as nat);
    lemma_payload_offset(b.start, a);
    lemma_payload_aligned(b.start, align as nat);
    lemma_pieces(b, size as int, align as nat);
    let payload = payload_offset(b.start, a);
    lemma_round_up(payload + size, 8);
    let mid = pieces(b, size as int, a);
    let row = after_allocate(blocks, k, size as int, a);
    let f: int = if payload - HEADER_SIZE > b.start { 1 } else { 0 };
    assert(row[k + f] == mid[f]);
    assert forall|j: int| 0 <= j < blocks.len() && !(#[trigger] blocks[j]).free implies exists|n: int|
        0 <= n < row.len() && n != k + f && row[n] == blocks[j] by {
        if j < k {
            assert(row[j] == blocks[j]);
        } else {
            assert(row[j + mid.len() - 1] == blocks[j]);
        }
    }
    k + f
}

/// A request for more than the arena holds behind one header fails and changes nothing.
pub proof fn law_oversized_requests_fail(
    list: FreeList,
    bytes: Seq<u8>,
    blocks: Seq<Block>,
    size: usize,
    align: usize,
)
    requires
        list.represents(bytes, blocks),
        size > list.span() - HEADER_SIZE,
    ensures
        list.alloc_outcome(bytes, size, align) == (None::<usize>, list, bytes),
{
    if valid_request(size, align) {
        lemma_align(align as nat);
        assert forall|j: int| 0 <= j < blocks.len() implies !(#[trigger] blocks[j].free && fits(
            blocks[j],
            size as int,
            align as int,
        )) by {
            lemma_sound(list, bytes, blocks, j);
            lemma_payload_offset(blocks[j].start, align as int);
        }
    }
    law_allocate_fails(list, bytes, blocks, size, align);
}

/// Only the headers matter: whatever is written to payloads leaves the heap in good order.
pub proof fn law_payload_writes_are_harmless(
    list: FreeList,
    bytes: Seq<u8>,
    blocks: Seq<Block>,
    written: Seq<u8>,
)
    requires
        list.represents(bytes, blocks),
        written.len() == bytes.len(),
        forall|j: int, i: int|
            0 <= j < blocks.len() && (#[trigger] blocks[j]).start <= i < blocks[j].start
                + HEADER_SIZE ==> #[trigger] written[i] == bytes[i],
    ensures
        list.represents(written, blocks),
{
    assert forall|j: int| 0 <= j < blocks.len() implies #[trigger] stored(written, blocks, j) by {
        assert(stored(bytes, blocks, j));
        lemma_same_header(written, bytes, blocks[j].start);
    }
}

/// Once nothing is allocated any more, the heap is one free block again and no byte is lost.
pub proof fn law_all_free_is_one_block(list: FreeList, bytes: Seq<u8>, blocks: Seq<Block>)
    requires
        list.represents(bytes, blocks),
        forall|i: int| 0 <= i < blocks.len() ==> (#[trigger] blocks[i]).free,
    ensures
        blocks =~= seq![Block { start: 0, size: list.span() as int, free: true }],
        list.head_offset() == 0,
        list.counts().free_blocks == 1,
        list.counts().free_bytes == list.span() - HEADER_SIZE,
        list.counts().largest_free == list.span() - HEADER_SIZE,
{
    if blocks.len() > 1 {
        assert(!(blocks[0].free && blocks[1].free));
    }
    reveal_with_fuel(next_free, 2);
    reveal_with_fuel(free_count, 2);
    reveal_with_fuel(free_total, 2);
    reveal_with_fuel(free_largest, 2);
}

/// An offset whose header would lie in a free block is never accepted, and nothing changes.
pub proof fn law_free_space_is_not_freed_again(
    list: FreeList,
    bytes: Seq<u8>,
    blocks: Seq<Block>,
    f: int,
    offset: usize,
)
    requires
        list.represents(bytes, blocks),
        0 <= f < blocks.len(),
        blocks[f].free,
        blocks[f].start <= offset - HEADER_SIZE < blocks[f].end(),
    ensures
        list.dealloc_outcome(bytes, offset).0 is Err,
        list.dealloc_outcome(bytes, offset).1 == list,
        list.dealloc_outcome(bytes, offset).2 == bytes,
{
    let header = offset - HEADER_SIZE;
    lemma_sound(list, bytes, blocks, f);
    lemma_located(list, bytes, blocks, 0, f, header);
}

/// Whether `offset` is the payload of an allocated block of the row.
pub open spec fn live(blocks: Seq<Block>, offset: int) -> bool {
    exists|k: int|
        0 <= k < blocks.len() && !(#[trigger] blocks[k]).free && offset == blocks[k].start
            + HEADER_SIZE
}

/// Exactly the live payloads can be given back: an offset is accepted if and only if an allocated
/// block starts in front of it. Any other offset, given back before or never handed out, is
/// refused, and nothing changes.
pub proof fn law_only_live_payloads_are_freed(
    list: FreeList,
    bytes: Seq<u8>,
    blocks: Seq<Block>,
    offset: usize,
)
    requires
        list.represents(bytes, blocks),
    ensures
        ({
            let (result, after_list, after) = list.dealloc_outcome(bytes, offset);
            &&& result is Ok <==> live(blocks, offset as int)
            &&& result is Err ==> after_list == list && after == bytes
        }),
{
    if live(blocks, offset as int) {
        let k = choose|k: int|
            0 <= k < blocks.len() && !(#[trigger] blocks[k]).free && offset == blocks[k].start
                + HEADER_SIZE;
        law_dealloc(list, bytes, blocks, k);
    } else if HEADER_SIZE <= offset < list.arena_len {
        let header = offset - HEADER_SIZE;
        lemma_sound(list, bytes, blocks, 0);
        let k = lemma_block_of(list, bytes, blocks, 0, header);
        lemma_sound(list, bytes, blocks, k);
        lemma_located(list, bytes, blocks, 0, k, header);
    }
}

/// A served request makes one payload live, the one that was handed out, and it was not live
/// before. Every other payload is as live as it was.
pub proof fn law_allocate_makes_one_payload_live(
    list: FreeList,
    bytes: Seq<u8>,
    blocks: Seq<Block>,
    k: int,
    size: usize,
    align: usize,
    offset: int,
)
    requires
        list.represents(bytes, blocks),
        valid_request(size, align),
        is_first_fit(blocks, k, size as int, align as int),
    ensures
        ({
            let handed = list.alloc_outcome(bytes, size, align).0->0;
            let row = after_allocate(blocks, k, size as int, align as int);
            &&& live(row, offset) <==> live(blocks, offset) || offset == handed
            &&& !live(blocks, handed as int)
        }),
{
    law_allocate(list, bytes, blocks, k, size, align);
    lemma_sound(list, bytes, blocks, k);
    lemma_align(align as nat);
    let payload = payload_offset(blocks[k].start, align as int);
    lemma_payload_offset(blocks[k].start, align as int);
    lemma_live_after_allocate(blocks, k, size as int, align as int, offset);
    if live(blocks, payload) {
        let j = choose|j: int|
            0 <= j < blocks.len() && !(#[trigger] blocks[j]).free && payload == blocks[j].start
                + HEADER_SIZE;
        lemma_apart(list, bytes, blocks, k, j);
    }
}

/// Cutting a free block into pieces adds one allocated block to the row.
proof fn lemma_live_after_allocate(blocks: Seq<Block>, k: int, size: int, align: int, offset: int)
    requires
        0 <= k < blocks.len(),
        blocks[k].free,
        align > 0,
    ensures
        live(after_allocate(blocks, k, size, align), offset) <==> live(blocks, offset) || offset
            == payload_offset(blocks[k].start, align),
{
    let row = after_allocate(blocks, k, size, align);
    let mid = pieces(blocks[k], size, align);
    let payload = payload_offset(blocks[k].start, align);
    lemma_payload_offset(blocks[k].start, align);
    let f: int = if payload - HEADER_SIZE > blocks[k].start { 1 } else { 0 };
    assert(row.len() == blocks.len() - 1 + mid.len());
    assert(row[k + f] == mid[f]);
    assert(!mid[f].free && mid[f].start + HEADER_SIZE == payload);
    assert(forall|i: int| 0 <= i < mid.len() && i != f ==> (#[trigger] mid[i]).free);
    if live(row, offset) {
        let n = choose|n: int|
            0 <= n < row.len() && !(#[trigger] row[n]).free && offset == row[n].start
                + HEADER_SIZE;
        if n < k {
            assert(row[n] == blocks[n]);
        } else if n >= k + mid.len() {
            assert(row[n] == blocks[n - mid.len() + 1]);
        } else {
            assert(row[n] == mid[n - k]);
        }
    }
    if live(blocks, offset) {
        let j = choose|j: int|
            0 <= j < blocks.len() && !(#[trigger] blocks[j]).free && offset == blocks[j].start
                + HEADER_SIZE;
        let n = if j < k { j } else { j + mid.len() - 1 };
        assert(row[n] == blocks[j]);
    }
}

/// A payload that was given back is not live any more; every other payload is as live as it was.
pub proof fn law_dealloc_ends_one_payload(
    list: FreeList,
    bytes: Seq<u8>,
    blocks: Seq<Block>,
    k: int,
    offset: int,
)
    requires
        list.represents(bytes, blocks),
        0 <= k < blocks.len(),
        !blocks[k].free,
    ensures
        live(after_dealloc(blocks, k), offset) <==> live(blocks, offset) && offset
            != blocks[k].start + HEADER_SIZE,
{
    let row = after_dealloc(blocks, k);
    let a = merge_from(blocks, k);
    let b = merge_to(blocks, k);
    assert(row.len() == a + 1 + blocks.len() - b);
    if live(row, offset) {
        let n = choose|n: int|
            0 <= n < row.len() && !(#[trigger] row[n]).free && offset == row[n].start
                + HEADER_SIZE;
        let j = if n < a { n } else { n - a - 1 + b };
        assert(n != a);
        assert(row[n] == blocks[j]);
        lemma_apart(list, bytes, blocks, k, j);
    }
    if live(blocks, offset) && offset != blocks[k].start + HEADER_SIZE {
        let j = choose|j: int|
            0 <= j < blocks.len() && !(#[trigger] blocks[j]).free && offset == blocks[j].start
                + HEADER_SIZE;
        let n = if j < a { j } else { j + a + 1 - b };
        assert(j < a || j >= b);
        assert(row[n] == blocks[j]);
    }
}

/// Freeing the same payload twice in a row is reported as such, and changes nothing.
pub proof fn law_double_free(list: FreeList, bytes: Seq<u8>, blocks: Seq<Block>, k: int)
    requires
        list.represents(bytes, blocks),
        0 <= k < blocks.len(),
        !blocks[k].free,
    ensures
        ({
            let offset = (blocks[k].start + HEADER_SIZE) as usize;
            let (_, after_list, after) = list.dealloc_outcome(bytes, offset);
            after_list.dealloc_outcome(after, offset) == (
                Err::<(), FreeListError>(FreeListError::AlreadyFree { offset }),
                after_list,
                after,
            )
        }),
{
    let header = blocks[k].start;
    let offset = (header + HEADER_SIZE) as usize;
    lemma_sound(list, bytes, blocks, k);
    law_dealloc(list, bytes, blocks, k);
    lemma_site(list, bytes, blocks, 0, k, list.block_limit());
    lemma_released(list, bytes, blocks, k);
    let (_, after_list, after) = list.dealloc_outcome(bytes, offset);
    let row = after_dealloc(blocks, k);
    let a = merge_from(blocks, k);
    let b = merge_to(blocks, k);
    let o = lemma_freed(list, bytes, blocks, k);
    assert(after == freed(bytes, blocks, k));
    if a < k {
        lemma_untouched(list, bytes, blocks, a, o, k, after);
        lemma_same_header(after, bytes, header);
        lemma_sound(after_list, after, row, 0);
        lemma_sound(list, bytes, blocks, a);
        lemma_order(blocks, 0, list.arena_len as int, a, k);
        lemma_order(blocks, 0, list.arena_len as int, k, b - 1);
        assert(row[a].free && row[a].start == blocks[a].start);
        lemma_located(after_list, after, row, 0, a, header);
    }
}

/// After a block was freed, a request that it served can be served again, at the same offset or
/// a lower one; at the same offset if nothing in front of it is free and large enough.
///
/// One shape is left out: a free block in front that is too small for a block of its own. Merging
/// with it moves the start of the free space by less than a usable gap, which an alignment above
/// 32 may have to skip.
pub proof fn law_freed_block_is_reused(
    list: FreeList,
    bytes: Seq<u8>,
    blocks: Seq<Block>,
    k: int,
    size: usize,
    align: usize,
)
    requires
        list.represents(bytes, blocks),
        valid_request(size, align),
        0 <= k < blocks.len(),
        !blocks[k].free,
        (blocks[k].start + HEADER_SIZE) % align as int == 0,
        blocks[k].start + HEADER_SIZE + size <= blocks[k].end(),
        k > 0 && blocks[k - 1].free && blocks[k - 1].size < MIN_BLOCK ==> align <= 32,
    ensures
        ({
            let offset = (blocks[k].start + HEADER_SIZE) as usize;
            let (_, after_list, after) = list.dealloc_outcome(bytes, offset);
            let again = after_list.alloc_outcome(after, size, align).0;
            &&& again is Some
            &&& again->0 <= offset
            &&& (k > 0 ==> !blocks[k - 1].free) && (forall|j: int|
                0 <= j < k ==> !(#[trigger] blocks[j].free && fits(
                    blocks[j],
                    size as int,
                    align as int,
                ))) ==> again->0 == offset
        }),
{
    let offset = (blocks[k].start + HEADER_SIZE) as usize;
    law_dealloc(list, bytes, blocks, k);
    let (_, after_list, after) = list.dealloc_outcome(bytes, offset);
    let row = after_dealloc(blocks, k);
    let a = merge_from(blocks, k);
    let b = merge_to(blocks, k);
    lemma_align(align as nat);
    lemma_order(blocks, 0, list.arena_len as int, k, b - 1);
    lemma_payload_offset(blocks[a].start, align as int);
    if a < k {
        assert(blocks[a].end() == blocks[k].start);
        if blocks[a].size < MIN_BLOCK {
            assert(blocks[a].size == 32);
            lemma_below_by_32(offset as int, align as nat);
            assert((offset - 32) % align as int == 0);
        }
    }
    assert(payload_offset(blocks[a].start, align as int) <= offset);
    assert(row[a].free && row[a].start == blocks[a].start && row[a].end() == blocks[b - 1].end());
    assert(fits(row[a], size as int, align as int));
    let q = lemma_lowest_fit(row, 0, a, size as int, align as int);
    law_allocate(after_list, after, row, q, size, align);
    lemma_sound(after_list, after, row, q);
    lemma_sound(list, bytes, blocks, k);
    lemma_payload_offset(row[q].start, align as int);
    if q < a {
        lemma_apart(after_list, after, row, a, q);
        assert(row[q] == blocks[q]);
        assert(blocks[q].free && fits(blocks[q], size as int, align as int));
    }
}

/// Small alignments are kept 32 bytes further down.
proof fn lemma_below_by_32(offset: int, align: nat)
    requires
        power_of_two(align),
        align <= 32,
        offset % align as int == 0,
    ensures
        (offset - 32) % align as int == 0,
{
    reveal_with_fuel(power_of_two, 7);
    let a = align as int;
    let steps = lemma_powers_divide(align, 32);
    vstd::arithmetic::div_mod::lemma_fundamental_div_mod(offset, a);
    let parts = offset / a - steps;
    assert(offset - 32 == parts * a) by (nonlinear_arith)
        requires
            offset == a * (offset / a),
            32 == steps * a,
            parts == offset / a - steps,
    ;
    vstd::arithmetic::div_mod::lemma_mod_multiples_basic(parts, a);
}

/// The lowest block that takes a request, given one that does.
pub(crate) proof fn lemma_lowest_fit(blocks: Seq<Block>, i: int, k: int, size: int, align: int) -> (q: int)
    requires
        0 <= i <= k < blocks.len(),
        blocks[k].free,
        fits(blocks[k], size, align),
        forall|j: int| 0 <= j < i ==> !(#[trigger] blocks[j].free && fits(blocks[j], size, align)),
    ensures
        is_first_fit(blocks, q, size, align),
        i <= q <= k,
    decreases k - i,
{
    if blocks[i].free && fits(blocks[i], size, align) {
        i
    } else {
        lemma_lowest_fit(blocks, i + 1, k, size, align)
    }
}

/// `allocate` keeps the heap in good order.
pub proof fn law_allocate_keeps_order(list: FreeList, bytes: Seq<u8>, size: usize, align: usize)
    requires
        list.well_formed(bytes),
    ensures
        ({
            let (_, after_list, after) = list.alloc_outcome(bytes, size, align);
            after_list.well_formed(after)
        }),
{
    if list != FreeList::spec_empty() {
        let blocks = choose|blocks: Seq<Block>| list.represents(bytes, blocks);
        if valid_request(size, align) && exists|k: int|
            0 <= k < blocks.len() && (#[trigger] blocks[k]).free && fits(
                blocks[k],
                size as int,
                align as int,
            ) {
            let k = choose|k: int|
                0 <= k < blocks.len() && (#[trigger] blocks[k]).free && fits(
                    blocks[k],
                    size as int,
                    align as int,
                );
            let q = lemma_lowest_fit(blocks, 0, k, size as int, align as int);
            law_allocate(list, bytes, blocks, q, size, align);
        } else {
            law_allocate_fails(list, bytes, blocks, size, align);
        }
    }
}

/// `dealloc` accepts exactly the live payloads, and keeps the heap in good order either way; a
/// refusal changes nothing.
pub proof fn law_dealloc_keeps_order(list: FreeList, bytes: Seq<u8>, offset: usize)
    ensures
        ({
            let (result, after_list, after) = list.dealloc_outcome(bytes, offset);
            &&& result is Err ==> after_list == list && after == bytes
            &&& list.well_formed(bytes) ==> {
                &&& result is Ok <==> list.is_live(bytes, offset)
                &&& after_list.well_formed(after)
            }
        }),
{
    let (result, after_list, after) = list.dealloc_outcome(bytes, offset);
    if list.is_live(bytes, offset) {
        let (blocks, k) = choose|blocks: Seq<Block>, k: int|
            #![trigger list.represents(bytes, blocks), blocks[k]]
            {
                &&& list.represents(bytes, blocks)
                &&& 0 <= k < blocks.len()
                &&& !blocks[k].free
                &&& offset == blocks[k].start + HEADER_SIZE
            };
        law_dealloc(list, bytes, blocks, k);
    } else if list.well_formed(bytes) && list != FreeList::spec_empty() {
        let blocks = choose|blocks: Seq<Block>| list.represents(bytes, blocks);
        law_only_live_payloads_are_freed(list, bytes, blocks, offset);
        if result is Ok {
            let k = choose|k: int|
                0 <= k < blocks.len() && !(#[trigger] blocks[k]).free && offset == blocks[k].start
                    + HEADER_SIZE;
            assert(list.represents(bytes, blocks) && !blocks[k].free);
        }
    }
}

} // verus!
