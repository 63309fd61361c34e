//! Physical frames: which frames may be handed out, and what handing out and taking back does.

use vstd::prelude::*;

use crate::frame::{
    bit_at, conventional_among, covers, free_among, reserved_frame, usable, Config, FrameAllocator,
    ReservedRange,
};
use crate::map::{MemoryKind, Region};

verus! {

/// A frame counts as reserved exactly if one of the ranges, whichever, has an address in it.
pub proof fn law_every_reserved_range_counts(ranges: Seq<ReservedRange>, frame: int)
    ensures
        reserved_frame(ranges, frame) <==> exists|j: int|
            {
                &&& 0 <= j < ranges.len()
                &&& (#[trigger] ranges[j]).start < ranges[j].end
                &&& ranges[j].start < frame * 4096 + 4096
                &&& frame * 4096 < ranges[j].end
            },
{
    if reserved_frame(ranges, frame) {
        let j = choose|j: int|
            0 <= j < ranges.len() && (#[trigger] ranges[j]).meets(
                frame * 4096,
                (frame + 1) * 4096,
            );
        assert(ranges[j].start < ranges[j].end);
    }
    if exists|j: int|
        {
            &&& 0 <= j < ranges.len()
            &&& (#[trigger] ranges[j]).start < ranges[j].end
            &&& ranges[j].start < frame * 4096 + 4096
            &&& frame * 4096 < ranges[j].end
        } {
        let j = choose|j: int|
            {
                &&& 0 <= j < ranges.len()
                &&& (#[trigger] ranges[j]).start < ranges[j].end
                &&& ranges[j].start < frame * 4096 + 4096
                &&& frame * 4096 < ranges[j].end
            };
        assert(ranges[j].meets(frame * 4096, (frame + 1) * 4096));
    }
}

/// A frame may be handed out exactly if it lies at or above 1 MiB, wholly inside a region of the
/// conventional kind (number 7), and no reserved range has an address in it.
pub proof fn law_which_frames_are_usable(
    regions: Seq<Region>,
    ranges: Seq<ReservedRange>,
    frame: int,
)
    ensures
        usable(regions, ranges, frame) <==> {
            &&& frame * 4096 >= 0x10_0000
            &&& exists|r: int|
                {
                    &&& 0 <= r < regions.len()
                    &&& (#[trigger] regions[r]).kind.number() == 7
                    &&& !(regions[r].kind is Unknown)
                    &&& regions[r].base <= frame * 4096
                    &&& frame * 4096 + 4096 <= regions[r].base + regions[r].pages * 4096
                }
            &&& forall|j: int|
                0 <= j < ranges.len() ==> {
                    ||| (#[trigger] ranges[j]).end <= ranges[j].start
                    ||| ranges[j].end <= frame * 4096
                    ||| frame * 4096 + 4096 <= ranges[j].start
                }
        },
{
    law_every_reserved_range_counts(ranges, frame);
    if conventional_among(regions, regions.len() as int, frame) {
        let r = choose|r: int|
            0 <= r < regions.len() && (#[trigger] regions[r]).kind == MemoryKind::Conventional
                && covers(regions[r], frame);
        assert(regions[r].kind.number() == 7);
    }
    if exists|r: int|
        {
            &&& 0 <= r < regions.len()
            &&& (#[trigger] regions[r]).kind.number() == 7
            &&& !(regions[r].kind is Unknown)
            &&& regions[r].base <= frame * 4096
            &&& frame * 4096 + 4096 <= regions[r].base + regions[r].pages * 4096
        } {
        let r = choose|r: int|
            {
                &&& 0 <= r < regions.len()
                &&& (#[trigger] regions[r]).kind.number() == 7
                &&& !(regions[r].kind is Unknown)
                &&& regions[r].base <= frame * 4096
                &&& frame * 4096 + 4096 <= regions[r].base + regions[r].pages * 4096
            };
        assert(regions[r].kind == MemoryKind::Conventional && covers(regions[r], frame));
    }
}

/// No free frame shares an address with any of the reserved ranges.
pub proof fn law_free_frames_avoid_every_range(
    allocator: &FrameAllocator,
    i: int,
    j: int,
    address: int,
)
    requires
        allocator.well_formed(),
        allocator.free_at(i),
        0 <= j < allocator.ranges().len(),
        allocator.ranges()[j].start <= address < allocator.ranges()[j].end,
    ensures
        !(allocator.address_of(i) <= address < allocator.address_of(i) + 4096),
        allocator.address_of(i) == (allocator.first_frame + i) * 4096,
        allocator.address_of(i) >= 0x10_0000,
{
    assert(bit_at(allocator.allocatable@, i));
    law_every_reserved_range_counts(allocator.ranges(), allocator.first_frame + i);
    assert(allocator.ranges()[j].start < allocator.ranges()[j].end);
}

/// The window holds exactly the frames that start at or behind its start and end at or before its
/// end; two bitmaps with a bit for each of them take the given number of bytes.
pub proof fn law_the_window(config: Config)
    ensures
        config.managed_start <= config.first_frame() * 4096 < config.managed_start + 4096,
        config.limit - 4096 < config.end_frame() * 4096 <= config.limit,
        config.first_frame() < config.end_frame() ==> {
            &&& config.bitmap_len() % 2 == 0
            &&& config.end_frame() - config.first_frame() <= 4 * config.bitmap_len() < config.end_frame()
                - config.first_frame() + 8
        },
{
}

/// A frame is found by its address, and by no other.
pub proof fn law_frames_are_found_by_address(allocator: &FrameAllocator, address: int, i: int)
    ensures
        allocator.index_of(address) == Some(i) <==> 0 <= i < allocator.frames && address == (
        allocator.first_frame + i) * 4096,
        allocator.index_of(address) is None <==> address % 4096 != 0 || address
            < allocator.first_frame * 4096 || address >= (allocator.first_frame + allocator.frames)
            * 4096,
{
}

/// A frame touches a stretch of memory exactly if the two have an address in common.
pub proof fn law_touching_is_sharing_an_address(
    allocator: &FrameAllocator,
    i: int,
    start: int,
    end: int,
)
    ensures
        allocator.touches(i, start, end) <==> start < end && start < (allocator.first_frame + i)
            * 4096 + 4096 && (allocator.first_frame + i) * 4096 < end,
{
}

/// The lowest run of `count` free frames: all of them are free, and from no lower index on are so
/// many free.
pub proof fn law_the_lowest_run(allocator: &FrameAllocator, start: int, count: int)
    requires
        count >= 0,
    ensures
        allocator.first_free_run(start, count) <==> {
            &&& 0 <= start
            &&& start + count <= allocator.frames
            &&& forall|i: int| start <= i < start + count ==> #[trigger] allocator.free_at(i)
            &&& forall|k: int|
                0 <= k < start ==> !(k + count <= allocator.frames && #[trigger] all_free(
                    allocator,
                    k,
                    count,
                ))
        },
{
    assert forall|k: int| allocator.free_run(k, count) == (0 <= k && k + count <= allocator.frames
        && #[trigger] all_free(allocator, k, count)) by {}
    if allocator.first_free_run(start, count) {
        assert forall|k: int| 0 <= k < start implies !(k + count <= allocator.frames
            && #[trigger] all_free(allocator, k, count)) by {
            assert(!allocator.free_run(k, count));
        }
    }
    if forall|k: int|
        0 <= k < start ==> !(k + count <= allocator.frames && #[trigger] all_free(
            allocator,
            k,
            count,
        )) {
        assert forall|k: int| 0 <= k < start implies !#[trigger] allocator.free_run(k, count) by {
            assert(!(k + count <= allocator.frames && all_free(allocator, k, count)));
        }
    }
}

/// Whether the `count` frames from `k` on are free.
pub open spec fn all_free(allocator: &FrameAllocator, k: int, count: int) -> bool {
    forall|i: int| k <= i < k + count ==> #[trigger] allocator.free_at(i)
}

/// Handing out takes away exactly the frames that were handed out, and counts them; taking back
/// adds exactly the one that was taken back.
pub proof fn law_what_changes_hands(
    before: &FrameAllocator,
    after: &FrameAllocator,
    start: int,
    count: int,
    i: int,
)
    requires
        before.well_formed(),
    ensures
        after.took(before, start, count) && before.free_run(start, count) ==> {
            &&& after.free_at(i) <==> before.free_at(i) && !(start <= i < start + count)
            &&& after.allocatable_at(i) == before.allocatable_at(i)
            &&& after.free_frames == before.free_frames - count
            &&& after.address_of(i) == before.address_of(i)
            &&& after.ranges() == before.ranges()
        },
        after.gave_back(before, start) && before.allocatable_at(start) ==> {
            &&& after.free_at(i) <==> before.free_at(i) || i == start
            &&& after.allocatable_at(i) == before.allocatable_at(i)
            &&& after.free_frames == before.free_frames + 1
            &&& after.address_of(i) == before.address_of(i)
            &&& after.ranges() == before.ranges()
        },
{
    if 0 <= i < before.frames {
        assert(i < 8 * before.used@.len());
        if after.took(before, start, count) {
            assert(bit_at(after.used@, i) == (start <= i < start + count || bit_at(
                before.used@,
                i,
            )));
        }
        if after.gave_back(before, start) {
            assert(bit_at(after.used@, i) == (i != start && bit_at(before.used@, i)));
        }
    }
}

/// The count of free frames is the number of indices that are free.
pub proof fn law_free_frames_are_counted(allocator: &FrameAllocator)
    requires
        allocator.well_formed(),
    ensures
        allocator.free_frames == Seq::new(allocator.frames as nat, |i: int| i).filter(
            |i: int| allocator.free_at(i),
        ).len(),
{
    let free = |i: int| allocator.free_at(i);
    assert forall|i: int| 0 <= i < allocator.frames implies #[trigger] free(i) == (bit_at(
        allocator.allocatable@,
        i,
    ) && !bit_at(allocator.used@, i)) by {}
    lemma_counted(allocator.allocatable@, allocator.used@, allocator.frames as int, free);
}

proof fn lemma_counted(allocatable: Seq<u8>, used: Seq<u8>, n: int, free: spec_fn(int) -> bool)
    requires
        0 <= n,
        forall|i: int|
            0 <= i < n ==> #[trigger] free(i) == (bit_at(allocatable, i) && !bit_at(used, i)),
    ensures
        free_among(allocatable, used, n) == Seq::new(n as nat, |i: int| i).filter(free).len(),
    decreases n,
{
    reveal(Seq::filter);
    let all = Seq::new(n as nat, |i: int| i);
    if n > 0 {
        lemma_counted(allocatable, used, n - 1, free);
        assert(all.drop_last() =~= Seq::new((n - 1) as nat, |i: int| i));
        assert(free(n - 1) == (bit_at(allocatable, n - 1) && !bit_at(used, n - 1)));
    }
}

} // verus!
