//! The memory map: which maps are read, what a region is, and where RAM ends.

use vstd::prelude::*;

use crate::bytes::{u32_at, u64_at};
use crate::map::{
    first_invalid, highest_ram_end, law_highest_ram_end, map_fault, regions_in, MapError, Region,
};

verus! {

proof fn lemma_first_invalid(regions: Seq<Region>, from: int)
    requires
        0 <= from <= regions.len(),
    ensures
        match first_invalid(regions, from) {
            Some(i) => {
                &&& from <= i < regions.len()
                &&& regions[i].base + regions[i].pages * 4096 > u64::MAX
                &&& forall|j: int|
                    from <= j < i ==> (#[trigger] regions[j]).base + regions[j].pages * 4096
                        <= u64::MAX
            },
            None => forall|j: int|
                from <= j < regions.len() ==> (#[trigger] regions[j]).base + regions[j].pages * 4096
                    <= u64::MAX,
        },
    decreases regions.len() - from,
{
    if from < regions.len() {
        lemma_first_invalid(regions, from + 1);
    }
}

/// A map is read exactly if it has a descriptor, the stride holds one, the buffer holds all of
/// them, and every region ends inside the address space: nothing else is asked of a region.
pub proof fn law_which_maps_are_read(bytes: Seq<u8>, entries: u64, stride: u32)
    requires
        bytes.len() <= usize::MAX,
    ensures
        map_fault(bytes, entries, stride) is None <==> {
            &&& entries > 0
            &&& stride >= 40
            &&& entries * stride <= bytes.len()
            &&& entries * stride <= u64::MAX
            &&& forall|i: int|
                0 <= i < entries ==> #[trigger] u64_at(bytes, i * stride + 8) + u64_at(
                    bytes,
                    i * stride + 24,
                ) * 4096 <= u64::MAX
        },
{
    let regions = regions_in(bytes, entries as int, stride as int);
    lemma_first_invalid(regions, 0);
    if map_fault(bytes, entries, stride) is None {
        assert forall|i: int| 0 <= i < entries implies #[trigger] u64_at(bytes, i * stride + 8)
            + u64_at(bytes, i * stride + 24) * 4096 <= u64::MAX by {
            assert(u64_at(bytes, i * stride + 8) == regions[i].base);
        }
    } else if first_invalid(regions, 0) is Some {
        let i = first_invalid(regions, 0)->0;
        assert(u64_at(bytes, i * stride + 8) == regions[i].base);
    }
}

/// A map is refused for the address of descriptor `index` exactly if everything else is sound, the
/// region of that descriptor ends behind the address space, and no earlier one does.
pub proof fn law_overflow_names_the_first_bad_region(
    bytes: Seq<u8>,
    entries: u64,
    stride: u32,
    index: usize,
)
    ensures
        map_fault(bytes, entries, stride) == Some(MapError::AddressOverflow { index }) ==> {
            &&& index < entries
            &&& u64_at(bytes, index * stride + 8) + u64_at(bytes, index * stride + 24) * 4096
                > u64::MAX
            &&& forall|j: int|
                0 <= j < index ==> #[trigger] u64_at(bytes, j * stride + 8) + u64_at(
                    bytes,
                    j * stride + 24,
                ) * 4096 <= u64::MAX
        },
{
    if map_fault(bytes, entries, stride) == Some(MapError::AddressOverflow { index }) {
        let regions = regions_in(bytes, entries as int, stride as int);
        lemma_first_invalid(regions, 0);
        let i = first_invalid(regions, 0)->0;
        assert(entries <= entries * stride) by (nonlinear_arith)
            requires
                stride >= 1,
        ;
        assert(i == index);
        assert forall|j: int| 0 <= j < index implies #[trigger] u64_at(bytes, j * stride + 8)
            + u64_at(bytes, j * stride + 24) * 4096 <= u64::MAX by {
            assert(u64_at(bytes, j * stride + 8) == regions[j].base);
        }
    }
}

/// Each other refusal has its own reason, looked for in this order: no descriptor, a stride below
/// 40, more bytes than the address space has, fewer bytes than needed.
pub proof fn law_reasons_to_refuse_a_map(bytes: Seq<u8>, entries: u64, stride: u32)
    requires
        bytes.len() <= usize::MAX,
    ensures
        entries == 0 <==> map_fault(bytes, entries, stride) == Some(MapError::Empty),
        entries > 0 && stride < 40 <==> map_fault(bytes, entries, stride) == Some(
            MapError::StrideTooSmall(stride),
        ),
        entries > 0 && stride >= 40 && (entries * stride > u64::MAX || entries * stride
            > usize::MAX) <==> map_fault(bytes, entries, stride) == Some(
            MapError::TooLarge { entries, stride },
        ),
        entries > 0 && stride >= 40 && entries * stride <= u64::MAX && entries * stride
            <= usize::MAX && bytes.len() < entries * stride <==> (entries > 0 && map_fault(
            bytes,
            entries,
            stride,
        ) == Some(
            MapError::TooShort { needed: (entries * stride) as usize, got: bytes.len() as usize },
        )),
{
}

/// A region is what its descriptor says: the type at offset 0, the start at offset 8 and the number
/// of pages at offset 24. The type is one of the numbers 0 to 15 of the firmware, or unknown.
pub proof fn law_region_fields(bytes: Seq<u8>, entries: int, stride: int, i: int)
    requires
        0 <= i < entries,
    ensures
        ({
            let region = regions_in(bytes, entries, stride)[i];
            &&& regions_in(bytes, entries, stride).len() == entries
            &&& region.kind.number() == u32_at(bytes, i * stride)
            &&& region.base == u64_at(bytes, i * stride + 8)
            &&& region.pages == u64_at(bytes, i * stride + 24)
            &&& region.kind.ram() <==> {
                let number = u32_at(bytes, i * stride);
                1 <= number <= 7 || number == 9 || number == 10
            }
        }),
{
}

/// The end of RAM: an address behind which no RAM lies, and at which a RAM region ends.
pub proof fn law_ram_ends_at_the_top(bytes: Seq<u8>, entries: int, stride: int, top: int)
    requires
        entries >= 0,
        highest_ram_end(regions_in(bytes, entries, stride)) == Some(top),
    ensures
        forall|i: int|
            0 <= i < entries && (1 <= #[trigger] u32_at(bytes, i * stride) <= 7 || u32_at(
                bytes,
                i * stride,
            ) == 9 || u32_at(bytes, i * stride) == 10) ==> u64_at(bytes, i * stride + 8) + u64_at(
                bytes,
                i * stride + 24,
            ) * 4096 <= top,
        exists|i: int|
            {
                &&& 0 <= i < entries
                &&& 1 <= #[trigger] u32_at(bytes, i * stride) <= 7 || u32_at(bytes, i * stride) == 9
                    || u32_at(bytes, i * stride) == 10
                &&& u64_at(bytes, i * stride + 8) + u64_at(bytes, i * stride + 24) * 4096 == top
            },
{
    let regions = regions_in(bytes, entries, stride);
    law_highest_ram_end(regions);
    assert forall|i: int|
        0 <= i < entries && (1 <= #[trigger] u32_at(bytes, i * stride) <= 7 || u32_at(
            bytes,
            i * stride,
        ) == 9 || u32_at(bytes, i * stride) == 10) implies u64_at(bytes, i * stride + 8) + u64_at(
        bytes,
        i * stride + 24,
    ) * 4096 <= top by {
        assert(regions[i].kind.ram());
    }
    let i = choose|i: int|
        0 <= i < regions.len() && (#[trigger] regions[i]).kind.ram() && regions[i].limit() == top;
    let number = u32_at(bytes, i * stride);
    assert(1 <= number <= 7 || number == 9 || number == 10);
}

/// There is an end of RAM exactly if there is a RAM region.
pub proof fn law_ram_has_an_end(bytes: Seq<u8>, entries: int, stride: int, i: int)
    requires
        0 <= i < entries,
        1 <= u32_at(bytes, i * stride) <= 7 || u32_at(bytes, i * stride) == 9 || u32_at(
            bytes,
            i * stride,
        ) == 10,
    ensures
        highest_ram_end(regions_in(bytes, entries, stride)) is Some,
{
    let regions = regions_in(bytes, entries, stride);
    law_highest_ram_end(regions);
    assert(regions[i].kind.ram());
}

} // verus!
