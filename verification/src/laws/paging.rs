//! Page tables: which addresses are mapped, and what building them returns.

use vstd::prelude::*;

use crate::map::{law_highest_ram_end, MemoryKind, Region};
use crate::paging::{
    block_mapped, built, count_blocks, count_pages, law_identity_mapping, mapped, mapping_limit,
    meets_ram, page_mapped, translate, BuildError, PageTables, PagingConfig,
};

verus! {

/// The kinds of RAM are those with the numbers 1 to 7, 9 and 10.
pub proof fn law_kinds_of_ram(kind: MemoryKind)
    ensures
        kind.ram() <==> !(kind is Unknown) && (1 <= kind.number() <= 7 || kind.number() == 9
            || kind.number() == 10),
{
}

/// A stretch overlaps RAM exactly if some RAM region has a page and an address in it.
pub proof fn law_overlapping_ram(regions: Seq<Region>, start: int, end: int)
    ensures
        meets_ram(regions, start, end) <==> exists|r: int|
            {
                &&& 0 <= r < regions.len()
                &&& !((#[trigger] regions[r]).kind is Unknown)
                &&& 1 <= regions[r].kind.number() <= 7 || regions[r].kind.number() == 9
                    || regions[r].kind.number() == 10
                &&& regions[r].pages > 0
                &&& start < end
                &&& regions[r].base < end
                &&& start < regions[r].base + regions[r].pages * 4096
            },
{
    if meets_ram(regions, start, end) {
        let r = choose|r: int|
            0 <= r < regions.len() && (#[trigger] regions[r]).kind.ram() && regions[r].meets(
                start,
                end,
            );
        assert(regions[r].pages > 0);
    }
    if exists|r: int|
        {
            &&& 0 <= r < regions.len()
            &&& !((#[trigger] regions[r]).kind is Unknown)
            &&& 1 <= regions[r].kind.number() <= 7 || regions[r].kind.number() == 9
                || regions[r].kind.number() == 10
            &&& regions[r].pages > 0
            &&& start < end
            &&& regions[r].base < end
            &&& start < regions[r].base + regions[r].pages * 4096
        } {
        let r = choose|r: int|
            {
                &&& 0 <= r < regions.len()
                &&& !((#[trigger] regions[r]).kind is Unknown)
                &&& 1 <= regions[r].kind.number() <= 7 || regions[r].kind.number() == 9
                    || regions[r].kind.number() == 10
                &&& regions[r].pages > 0
                &&& start < end
                &&& regions[r].base < end
                &&& start < regions[r].base + regions[r].pages * 4096
            };
        assert(regions[r].kind.ram() && regions[r].meets(start, end));
    }
}

/// Where the mapping ends: no RAM region ends behind it below the configured limit, and it is that
/// limit or the end of a RAM region.
pub proof fn law_where_the_mapping_ends(regions: Seq<Region>, config: PagingConfig, r: int)
    requires
        0 <= r < regions.len(),
        regions[r].kind.ram(),
    ensures
        ({
            let limit = mapping_limit(regions, config);
            &&& limit <= config.max_identity_bytes
            &&& regions[r].base + regions[r].pages * 4096 <= limit || limit
                == config.max_identity_bytes
            &&& exists|q: int|
                {
                    &&& 0 <= q < regions.len()
                    &&& (#[trigger] regions[q]).kind.ram()
                    &&& limit <= regions[q].base + regions[q].pages * 4096
                }
        }),
{
    law_highest_ram_end(regions);
}

/// Which addresses are mapped. Below the fine-grained limit, rounded up to 2 MiB, the page of 4 KiB
/// around the address decides, and behind it the block of 2 MiB: it is mapped exactly if it does
/// not start at 0, starts below the configured limit, a page also below the fine-grained one, and
/// RAM has an address in it.
pub proof fn law_which_addresses_are_mapped(
    regions: Seq<Region>,
    config: PagingConfig,
    address: int,
)
    requires
        0 <= address,
    ensures
        ({
            let fine = address < (config.fine_grained_bytes + 0x1F_FFFF) / 0x20_0000 * 0x20_0000;
            let unit: int = if fine { 0x1000 } else { 0x20_0000 };
            let start = address - address % unit;
            mapped(regions, config, address) <==> {
                &&& 0 < start < config.max_identity_bytes
                &&& fine ==> start < config.fine_grained_bytes
                &&& exists|r: int|
                    {
                        &&& 0 <= r < regions.len()
                        &&& !((#[trigger] regions[r]).kind is Unknown)
                        &&& 1 <= regions[r].kind.number() <= 7 || regions[r].kind.number() == 9
                            || regions[r].kind.number() == 10
                        &&& regions[r].pages > 0
                        &&& regions[r].base < start + unit
                        &&& start < regions[r].base + regions[r].pages * 4096
                    }
            }
        }),
{
    let fine = address < (config.fine_grained_bytes + 0x1F_FFFF) / 0x20_0000 * 0x20_0000;
    let unit: int = if fine { 0x1000 } else { 0x20_0000 };
    let start = address - address % unit;
    law_overlapping_ram(regions, start, start + unit);
    law_highest_ram_end(regions);
    assert(fine == ((address / 0x20_0000) < config.pt_count()));
    assert(start == if fine { address / 0x1000 * 0x1000 } else { address / 0x20_0000 * 0x20_0000 });
    assert(meets_ram(regions, start, start + unit) ==> start < mapping_limit(regions, config) || start
        >= config.max_identity_bytes);
}

/// The tables that were built, walked as the processor does: an address translates to itself
/// exactly if RAM has an address in its page or block, which does not start at 0 and starts below
/// the limits; any other address faults.
pub proof fn law_what_the_tables_translate(
    before: Seq<u8>,
    base: u64,
    regions: Seq<Region>,
    config: PagingConfig,
    tables: PageTables,
    after: Seq<u8>,
    address: int,
)
    requires
        built(before, base, regions, config, Ok(tables), after),
        base + before.len() <= 0x10_0000_0000_0000,
        0 <= address < 0x1_0000_0000_0000,
    ensures
        ({
            let fine = address < (config.fine_grained_bytes + 0x1F_FFFF) / 0x20_0000 * 0x20_0000;
            let unit: int = if fine { 0x1000 } else { 0x20_0000 };
            let start = address - address % unit;
            translate(after, base as int, address) == (if 0 < start < config.max_identity_bytes && (
            fine ==> start < config.fine_grained_bytes) && exists|r: int|
                {
                    &&& 0 <= r < regions.len()
                    &&& !((#[trigger] regions[r]).kind is Unknown)
                    &&& 1 <= regions[r].kind.number() <= 7 || regions[r].kind.number() == 9
                        || regions[r].kind.number() == 10
                    &&& regions[r].pages > 0
                    &&& regions[r].base < start + unit
                    &&& start < regions[r].base + regions[r].pages * 4096
                } {
                Some(address)
            } else {
                None
            })
        }),
{
    law_overlapping_ram(regions, 0, config.max_identity_bytes as int);
    law_identity_mapping(after, base, regions, config, address);
    law_which_addresses_are_mapped(regions, config, address);
}

/// When tables are built, and why they are not: the address of the arena is checked first, then the
/// two limits, the length of the arena, and whether there is RAM below the limit.
pub proof fn law_when_tables_are_built(
    before: Seq<u8>,
    base: u64,
    regions: Seq<Region>,
    config: PagingConfig,
    result: Result<PageTables, BuildError>,
    after: Seq<u8>,
)
    requires
        built(before, base, regions, config, result, after),
        before.len() <= usize::MAX,
    ensures
        ({
            let max = config.max_identity_bytes;
            let fine = config.fine_grained_bytes;
            let pages = 1 + (max + 0x7F_FFFF_FFFF) / 0x80_0000_0000 + (max + 0x3FFF_FFFF)
                / 0x4000_0000 + (fine + 0x1F_FFFF) / 0x20_0000;
            let ram = exists|r: int|
                {
                    &&& 0 <= r < regions.len()
                    &&& !((#[trigger] regions[r]).kind is Unknown)
                    &&& 1 <= regions[r].kind.number() <= 7 || regions[r].kind.number() == 9
                        || regions[r].kind.number() == 10
                    &&& regions[r].pages > 0
                    &&& regions[r].base < max
                };
            &&& result is Err ==> after == before
            &&& (result matches Err(BuildError::ArenaMisaligned { .. })) <==> base % 4096 != 0
            &&& (result matches Err(BuildError::ConfigTooLarge { .. })) <==> base % 4096 == 0 && max
                > 0x80_0000_0000
            &&& (result matches Err(BuildError::FineGrainedTooLarge { .. })) <==> base % 4096 == 0
                && max <= 0x80_0000_0000 && fine > 0x4000_0000
            &&& (result matches Err(BuildError::ArenaTooSmall { .. })) <==> base % 4096 == 0 && max
                <= 0x80_0000_0000 && fine <= 0x4000_0000 && before.len() < pages * 4096
            &&& (result matches Err(BuildError::NoUsableRam)) <==> base % 4096 == 0 && max
                <= 0x80_0000_0000 && fine <= 0x4000_0000 && before.len() >= pages * 4096 && !ram
            &&& result is Ok <==> base % 4096 == 0 && max <= 0x80_0000_0000 && fine <= 0x4000_0000
                && before.len() >= pages * 4096 && ram
            &&& result matches Ok(tables) ==> {
                &&& tables.pml4_phys == base
                &&& tables.tables_used == pages
                &&& tables.limit == mapping_limit(regions, config)
                &&& tables.mapped_bytes == tables.blocks * 0x20_0000 + tables.pages * 0x1000
                &&& after.len() == before.len()
                &&& forall|i: int| pages * 4096 <= i < before.len() ==> #[trigger] after[i] == 0
            }
        }),
{
    let max = config.max_identity_bytes;
    law_overlapping_ram(regions, 0, max as int);
    if exists|r: int|
        {
            &&& 0 <= r < regions.len()
            &&& !((#[trigger] regions[r]).kind is Unknown)
            &&& 1 <= regions[r].kind.number() <= 7 || regions[r].kind.number() == 9
                || regions[r].kind.number() == 10
            &&& regions[r].pages > 0
            &&& regions[r].base < max
        } {
        let r = choose|r: int|
            {
                &&& 0 <= r < regions.len()
                &&& !((#[trigger] regions[r]).kind is Unknown)
                &&& 1 <= regions[r].kind.number() <= 7 || regions[r].kind.number() == 9
                    || regions[r].kind.number() == 10
                &&& regions[r].pages > 0
                &&& regions[r].base < max
            };
        assert(0 < regions[r].base + regions[r].pages * 4096);
    }
    if result is Ok {
        law_highest_ram_end(regions);
        lemma_counted_blocks(regions, config, config.pd_count() * 512);
        lemma_counted_pages(regions, config, config.pt_count() * 512);
    }
}

/// The numbers of blocks and pages that are mapped: one for each start of a 2 MiB block behind the
/// fine-grained part, or of a 4 KiB page in it, that is mapped.
pub proof fn law_blocks_and_pages_are_counted(
    before: Seq<u8>,
    base: u64,
    regions: Seq<Region>,
    config: PagingConfig,
    tables: PageTables,
    after: Seq<u8>,
)
    requires
        built(before, base, regions, config, Ok(tables), after),
    ensures
        ({
            let fine = (config.fine_grained_bytes + 0x1F_FFFF) / 0x20_0000;
            let all = (config.max_identity_bytes + 0x3FFF_FFFF) / 0x4000_0000 * 512;
            &&& tables.blocks == Seq::new(all as nat, |i: int| i).filter(
                |i: int| fine <= i && mapped(regions, config, i * 0x20_0000),
            ).len()
            &&& tables.pages == Seq::new((fine * 512) as nat, |i: int| i).filter(
                |i: int| mapped(regions, config, i * 0x1000),
            ).len()
        }),
{
    let fine = (config.fine_grained_bytes + 0x1F_FFFF) / 0x20_0000;
    let all = (config.max_identity_bytes + 0x3FFF_FFFF) / 0x4000_0000 * 512;
    lemma_counted_blocks(regions, config, all);
    lemma_counted_pages(regions, config, fine * 512);
    let block = |i: int| fine <= i && mapped(regions, config, i * 0x20_0000);
    let page = |i: int| mapped(regions, config, i * 0x1000);
    let is_block = |i: int| block_mapped(regions, config, i);
    let is_page = |i: int| page_mapped(regions, config, i);
    let blocks = Seq::new(all as nat, |i: int| i);
    let pages = Seq::new((fine * 512) as nat, |i: int| i);
    assert forall|i: int| 0 <= i < blocks.len() implies block(#[trigger] blocks[i]) == is_block(
        blocks[i],
    ) by {
        assert(i * 0x20_0000 / 0x20_0000 == i);
    }
    assert forall|i: int| 0 <= i < pages.len() implies page(#[trigger] pages[i]) == is_page(
        pages[i],
    ) by {
        assert(i * 0x1000 / 0x1000 == i);
        assert(i * 0x1000 / 0x20_0000 < fine);
    }
    lemma_same_filter(blocks, block, is_block);
    lemma_same_filter(pages, page, is_page);
}

proof fn lemma_same_filter(items: Seq<int>, p: spec_fn(int) -> bool, q: spec_fn(int) -> bool)
    requires
        forall|i: int| 0 <= i < items.len() ==> p(#[trigger] items[i]) == q(items[i]),
    ensures
        items.filter(p) == items.filter(q),
    decreases items.len(),
{
    reveal(Seq::filter);
    if items.len() > 0 {
        let rest = items.drop_last();
        assert forall|i: int| 0 <= i < rest.len() implies p(#[trigger] rest[i]) == q(rest[i]) by {
            assert(rest[i] == items[i]);
        }
        lemma_same_filter(rest, p, q);
        assert(items.last() == items[items.len() - 1]);
    }
}

proof fn lemma_counted_blocks(regions: Seq<Region>, config: PagingConfig, n: int)
    requires
        0 <= n,
    ensures
        count_blocks(regions, config, n) == Seq::new(n as nat, |i: int| i).filter(
            |i: int| block_mapped(regions, config, i),
        ).len(),
        count_blocks(regions, config, n) <= n,
    decreases n,
{
    reveal(Seq::filter);
    if n > 0 {
        lemma_counted_blocks(regions, config, n - 1);
        assert(Seq::new(n as nat, |i: int| i).drop_last() =~= Seq::new((n - 1) as nat, |i: int| i));
    }
}

proof fn lemma_counted_pages(regions: Seq<Region>, config: PagingConfig, n: int)
    requires
        0 <= n,
    ensures
        count_pages(regions, config, n) == Seq::new(n as nat, |i: int| i).filter(
            |i: int| page_mapped(regions, config, i),
        ).len(),
        count_pages(regions, config, n) <= n,
    decreases n,
{
    reveal(Seq::filter);
    if n > 0 {
        lemma_counted_pages(regions, config, n - 1);
        assert(Seq::new(n as nat, |i: int| i).drop_last() =~= Seq::new((n - 1) as nat, |i: int| i));
    }
}

} // verus!
