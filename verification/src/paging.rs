//! Four-level page tables that map physical memory to itself.
//!
//! * The first `fine_grained_bytes` are mapped by 4 KiB pages, the rest by 2 MiB blocks.
//! * Only what **overlaps a RAM region** is mapped; anything else faults on access.
//! * **Page 0 is never mapped**, even if the firmware calls it RAM: a null pointer must fault.
//! * The tables live in an arena the caller provides. Loading them is left to the caller.

use vstd::prelude::*;
use vstd::string::*;

use crate::bytes::{le64, lemma_le64_at, spliced, u64_at, write_u64};
use crate::laws::paging::law_overlapping_ram;
use crate::map::{highest_ram_end, law_highest_ram_end, MemoryMap, Region};
use crate::text::{decimal, hex, push_decimal, push_hex};

pub use crate::map::PAGE_SIZE;

verus! {

/// Size of a large block: 2 MiB.
pub const BLOCK_SIZE: u64 = 0x20_0000;

/// How much address space the kernel maps at most: 4 GiB.
pub const MAX_IDENTITY_BYTES: u64 = 0x1_0000_0000;

/// Entries of a level-4 table.
pub const PML4_ENTRIES: usize = 512;

/// Entries of a level-3 table.
pub const PDPT_ENTRIES: usize = 512;

/// Entries of a level-2 table; each covers 2 MiB.
pub const PD_ENTRIES: usize = 512;

/// Entries of a level-1 table; each covers 4 KiB.
pub const PT_ENTRIES: usize = 512;

/// Address space that a level-3 table covers: 512 GiB.
pub const PDPT_COVERAGE: u64 = 0x80_0000_0000;

/// Address space that a level-2 table covers: 1 GiB.
pub const PD_COVERAGE: u64 = 0x4000_0000;

/// The most that can be mapped: one level-3 table.
pub const MAX_IDENTITY_SUPPORTED: u64 = 0x80_0000_0000;

/// The most that can be mapped by small pages: one level-2 table.
pub const MAX_FINE_GRAINED_SUPPORTED: u64 = 0x4000_0000;

/// Entry flag: present.
pub const PRESENT: u64 = 0x01;

/// Entry flag: writable.
pub const WRITABLE: u64 = 0x02;

/// Entry flag: accessible from user mode (not used here).
pub const USER: u64 = 0x04;

/// Entry flag: write through.
pub const WRITE_THROUGH: u64 = 0x08;

/// Entry flag: not cached.
pub const CACHE_DISABLE: u64 = 0x10;

/// Entry flag: a large block (in a level-2 table).
pub const BLOCK: u64 = 0x80;

/// The physical address in an entry (52 bits, 4 KiB aligned).
pub const ADDRESS_MASK: u64 = 0x000F_FFFF_FFFF_F000;

/// How tables are built.
#[derive(Clone, Copy, PartialEq, Eq, Structural, Debug)]
pub struct PagingConfig {
    /// How much address space is mapped at most.
    pub max_identity_bytes: u64,
    /// How much of it is mapped by 4 KiB pages; a multiple of [`BLOCK_SIZE`].
    pub fine_grained_bytes: u64,
}

impl PagingConfig {
    /// The kernel's configuration: 4 GiB, the first 2 MiB of it by small pages.
    #[must_use]
    pub fn m2() -> (config: Self)
        ensures
            config.max_identity_bytes == MAX_IDENTITY_BYTES,
            config.max_identity_bytes == 0x1_0000_0000,
            config.fine_grained_bytes == BLOCK_SIZE,
            config.fine_grained_bytes == 0x20_0000,
    {
        Self { max_identity_bytes: MAX_IDENTITY_BYTES, fine_grained_bytes: BLOCK_SIZE }
    }

    /// Number of level-2 tables.
    pub open spec fn pd_count(self) -> int {
        (self.max_identity_bytes + PD_COVERAGE - 1) / PD_COVERAGE as int
    }

    /// Number of level-1 tables.
    pub open spec fn pt_count(self) -> int {
        (self.fine_grained_bytes + BLOCK_SIZE - 1) / BLOCK_SIZE as int
    }

    /// Number of pages that all tables take.
    pub open spec fn tables(self) -> int {
        table_pages(self.max_identity_bytes as int, self.fine_grained_bytes as int)
    }
}

/// Number of pages that the tables for `max_bytes` take, the first `fine_grained_bytes` of them
/// mapped by small pages.
pub open spec fn table_pages(max_bytes: int, fine_grained_bytes: int) -> int {
    1 + (max_bytes + PDPT_COVERAGE - 1) / PDPT_COVERAGE as int + (max_bytes + PD_COVERAGE - 1)
        / PD_COVERAGE as int + (fine_grained_bytes + BLOCK_SIZE - 1) / BLOCK_SIZE as int
}

/// `value / unit`, rounded up.
fn div_up(value: u64, unit: u64) -> (result: u64)
    requires
        unit > 1,
    ensures
        result == (value + unit - 1) / unit as int,
{
    proof {
        vstd::arithmetic::div_mod::lemma_fundamental_div_mod(value as int, unit as int);
        vstd::arithmetic::div_mod::lemma_mod_bound(value as int, unit as int);
        let q = value as int / unit as int;
        let r = value as int % unit as int;
        assert(unit * q == q * unit) by (nonlinear_arith);
        if r == 0 {
            vstd::arithmetic::div_mod::lemma_fundamental_div_mod_converse(
                value + unit - 1,
                unit as int,
                q,
                unit - 1,
            );
        } else {
            assert(q * unit + unit == (q + 1) * unit) by (nonlinear_arith);
            vstd::arithmetic::div_mod::lemma_fundamental_div_mod_converse(
                value + unit - 1,
                unit as int,
                q + 1,
                r - 1,
            );
        }
        assert(q < u64::MAX) by (nonlinear_arith)
            requires
                value == unit * q + r,
                r >= 0,
                unit > 1,
                value <= u64::MAX,
        ;
    }
    if value % unit == 0 {
        value / unit
    } else {
        value / unit + 1
    }
}

/// Number of pages that the tables take; this sizes the arena.
#[must_use]
pub fn tables_needed(max_bytes: u64, fine_grained_bytes: u64) -> (pages: usize)
    requires
        table_pages(max_bytes as int, fine_grained_bytes as int) <= usize::MAX,
    ensures
        pages == table_pages(max_bytes as int, fine_grained_bytes as int),
        pages == 1 + (max_bytes + 0x7F_FFFF_FFFF) / 0x80_0000_0000 + (max_bytes + 0x3FFF_FFFF)
            / 0x4000_0000 + (fine_grained_bytes + 0x1F_FFFF) / 0x20_0000,
{
    let pml4: usize = div_up(max_bytes, PDPT_COVERAGE) as usize;
    let pd: usize = div_up(max_bytes, PD_COVERAGE) as usize;
    let pt: usize = div_up(fine_grained_bytes, BLOCK_SIZE) as usize;
    1 + pml4 + pd + pt
}

/// Why tables could not be built.
#[derive(Clone, Copy, PartialEq, Eq, Structural, Debug)]
pub enum BuildError {
    /// The arena is not 4 KiB aligned.
    ArenaMisaligned {
        /// Address of the arena.
        address: u64,
    },
    /// The arena does not hold the tables.
    ArenaTooSmall {
        /// Bytes that are needed.
        needed: usize,
        /// Bytes that are there.
        got: usize,
    },
    /// No RAM below the limit.
    NoUsableRam,
    /// More address space than is supported.
    ConfigTooLarge {
        /// What was asked for.
        max_identity_bytes: u64,
        /// What is supported.
        supported: u64,
    },
    /// More small pages than are supported.
    FineGrainedTooLarge {
        /// What was asked for.
        fine_grained_bytes: u64,
        /// What is supported.
        supported: u64,
    },
}

impl BuildError {
    /// The message of this error.
    pub open spec fn message(self) -> Seq<char> {
        match self {
            BuildError::ArenaMisaligned { address } => "页表竞技场 0x"@ + hex(address as nat)
                + " 未按 "@ + decimal(PAGE_SIZE as nat) + " 字节对齐"@,
            BuildError::ArenaTooSmall { needed, got } => "页表竞技场过小：需要 "@ + decimal(
                needed as nat,
            ) + " 字节，实际 "@ + decimal(got as nat) + " 字节"@,
            BuildError::NoUsableRam => "内存图中没有可用的 RAM 区域"@,
            BuildError::ConfigTooLarge { max_identity_bytes, supported } => "映射上限 "@ + decimal(
                max_identity_bytes as nat,
            ) + " 字节超出本实现支持的 "@ + decimal(supported as nat) + " 字节"@,
            BuildError::FineGrainedTooLarge { fine_grained_bytes, supported } => "细粒度区间 "@
                + decimal(fine_grained_bytes as nat) + " 字节超出本实现支持的 "@ + decimal(
                supported as nat,
            ) + " 字节"@,
        }
    }

    /// The message of this error.
    #[must_use]
    pub fn to_string(&self) -> (text: String)
        ensures
            text@ == self.message(),
    {
        let mut text = String::new();
        match *self {
            Self::ArenaMisaligned { address } => {
                text.append("页表竞技场 0x");
                push_hex(&mut text, address);
                text.append(" 未按 ");
                push_decimal(&mut text, PAGE_SIZE);
                text.append(" 字节对齐");
            },
            Self::ArenaTooSmall { needed, got } => {
                text.append("页表竞技场过小：需要 ");
                push_decimal(&mut text, needed as u64);
                text.append(" 字节，实际 ");
                push_decimal(&mut text, got as u64);
                text.append(" 字节");
            },
            Self::NoUsableRam => {
                text.append("内存图中没有可用的 RAM 区域");
            },
            Self::ConfigTooLarge { max_identity_bytes, supported } => {
                text.append("映射上限 ");
                push_decimal(&mut text, max_identity_bytes);
                text.append(" 字节超出本实现支持的 ");
                push_decimal(&mut text, supported);
                text.append(" 字节");
            },
            Self::FineGrainedTooLarge { fine_grained_bytes, supported } => {
                text.append("细粒度区间 ");
                push_decimal(&mut text, fine_grained_bytes);
                text.append(" 字节超出本实现支持的 ");
                push_decimal(&mut text, supported);
                text.append(" 字节");
            },
        }
        text
    }
}

/// The tables that were built.
#[derive(Clone, Copy, PartialEq, Eq, Structural, Debug)]
pub struct PageTables {
    /// Physical address of the level-4 table, the value for `CR3`.
    pub pml4_phys: u64,
    /// The highest address that is mapped: the end of RAM or the configured limit.
    pub limit: u64,
    /// How many bytes are mapped, by pages and blocks together.
    pub mapped_bytes: u64,
    /// Number of 2 MiB blocks that are mapped.
    pub blocks: usize,
    /// Number of 4 KiB pages that are mapped.
    pub pages: usize,
    /// Number of arena pages that hold tables.
    pub tables_used: usize,
}

// ---------------------------------------------------------------------------------------------
// Which addresses are mapped
// ---------------------------------------------------------------------------------------------

/// Whether `[start, end)` overlaps a RAM region.
pub open spec fn meets_ram(regions: Seq<Region>, start: int, end: int) -> bool {
    exists|r: int|
        0 <= r < regions.len() && (#[trigger] regions[r]).kind.ram() && regions[r].meets(start, end)
}

/// Where the mapping ends: the end of RAM, but not more than configured.
pub open spec fn mapping_limit(regions: Seq<Region>, config: PagingConfig) -> int {
    match highest_ram_end(regions) {
        Some(top) => if top <= config.max_identity_bytes {
            top
        } else {
            config.max_identity_bytes as int
        },
        None => 0,
    }
}

/// Whether the 2 MiB block with this number is mapped as a block.
pub open spec fn block_mapped(regions: Seq<Region>, config: PagingConfig, block: int) -> bool {
    let address = block * BLOCK_SIZE;
    &&& config.pt_count() <= block < config.pd_count() * 512
    &&& 0 < address < mapping_limit(regions, config)
    &&& meets_ram(regions, address, address + BLOCK_SIZE)
}

/// Whether the 4 KiB page with this number is mapped as a page.
pub open spec fn page_mapped(regions: Seq<Region>, config: PagingConfig, page: int) -> bool {
    let address = page * PAGE_SIZE;
    &&& 0 < address < mapping_limit(regions, config)
    &&& address < config.fine_grained_bytes
    &&& meets_ram(regions, address, address + PAGE_SIZE)
}

/// Number of mapped blocks below `n`.
pub open spec fn count_blocks(regions: Seq<Region>, config: PagingConfig, n: int) -> int
    decreases n,
{
    if n <= 0 {
        0
    } else {
        count_blocks(regions, config, n - 1) + (if block_mapped(regions, config, n - 1) {
            1int
        } else {
            0
        })
    }
}

/// Number of mapped pages below `n`.
pub open spec fn count_pages(regions: Seq<Region>, config: PagingConfig, n: int) -> int
    decreases n,
{
    if n <= 0 {
        0
    } else {
        count_pages(regions, config, n - 1) + (if page_mapped(regions, config, n - 1) {
            1int
        } else {
            0
        })
    }
}

/// An entry that points to the next table.
pub open spec fn link(address: int) -> u64 {
    (address as u64) | PRESENT | WRITABLE
}

/// An entry that maps a 2 MiB block.
pub open spec fn block_entry(address: int) -> u64 {
    (address as u64) | PRESENT | WRITABLE | BLOCK
}

/// The entry with the given number, counted over all tables in the arena at `base`.
///
/// The arena holds the level-4 table, the level-3 table, the level-2 tables and the level-1
/// tables, in this order and 512 entries each.
pub open spec fn entry(base: int, regions: Seq<Region>, config: PagingConfig, n: int) -> u64 {
    let pds = config.pd_count();
    let pts = config.pt_count();
    if n == 0 {
        link(base + PAGE_SIZE)
    } else if 512 <= n < 512 + pds {
        link(base + (2 + (n - 512)) * PAGE_SIZE)
    } else if 1024 <= n < 1024 + 512 * pds {
        let block = n - 1024;
        if block < pts {
            link(base + (2 + pds + block) * PAGE_SIZE)
        } else if block_mapped(regions, config, block) {
            block_entry(block * BLOCK_SIZE)
        } else {
            0
        }
    } else if 1024 + 512 * pds <= n < 1024 + 512 * (pds + pts) {
        let page = n - 1024 - 512 * pds;
        if page_mapped(regions, config, page) {
            link(page * PAGE_SIZE)
        } else {
            0
        }
    } else {
        0
    }
}

/// What building in an arena at `base` returns and leaves in the arena.
pub open spec fn built(
    before: Seq<u8>,
    base: u64,
    regions: Seq<Region>,
    config: PagingConfig,
    result: Result<PageTables, BuildError>,
    after: Seq<u8>,
) -> bool {
    let needed = config.tables() * PAGE_SIZE;
    let limit = mapping_limit(regions, config);
    if base % PAGE_SIZE != 0 {
        result == Err::<PageTables, BuildError>(BuildError::ArenaMisaligned { address: base })
            && after == before
    } else if config.max_identity_bytes > MAX_IDENTITY_SUPPORTED {
        result == Err::<PageTables, BuildError>(
            BuildError::ConfigTooLarge {
                max_identity_bytes: config.max_identity_bytes,
                supported: MAX_IDENTITY_SUPPORTED,
            },
        ) && after == before
    } else if config.fine_grained_bytes > MAX_FINE_GRAINED_SUPPORTED {
        result == Err::<PageTables, BuildError>(
            BuildError::FineGrainedTooLarge {
                fine_grained_bytes: config.fine_grained_bytes,
                supported: MAX_FINE_GRAINED_SUPPORTED,
            },
        ) && after == before
    } else if before.len() < needed {
        result == Err::<PageTables, BuildError>(
            BuildError::ArenaTooSmall { needed: needed as usize, got: before.len() as usize },
        ) && after == before
    } else if !meets_ram(regions, 0, config.max_identity_bytes as int) {
        result == Err::<PageTables, BuildError>(BuildError::NoUsableRam) && after == before
    } else {
        let blocks = count_blocks(regions, config, config.pd_count() * 512);
        let pages = count_pages(regions, config, config.pt_count() * 512);
        &&& result == Ok::<PageTables, BuildError>(
            PageTables {
                pml4_phys: base,
                limit: limit as u64,
                mapped_bytes: (blocks * BLOCK_SIZE + pages * PAGE_SIZE) as u64,
                blocks: blocks as usize,
                pages: pages as usize,
                tables_used: config.tables() as usize,
            },
        )
        &&& holds_tables(after, base as int, regions, config)
        &&& after.len() == before.len()
        &&& forall|i: int| needed <= i < before.len() ==> #[trigger] after[i] == 0
    }
}

/// Whether the arena holds exactly the entries of the mapping.
pub open spec fn holds_tables(
    bytes: Seq<u8>,
    base: int,
    regions: Seq<Region>,
    config: PagingConfig,
) -> bool {
    forall|n: int|
        0 <= n < config.tables() * 512 ==> #[trigger] u64_at(bytes, n * 8) == entry(
            base,
            regions,
            config,
            n,
        )
}

// ---------------------------------------------------------------------------------------------
// Building
// ---------------------------------------------------------------------------------------------

/// Writing one entry changes that entry alone.
proof fn lemma_entry_written(bytes: Seq<u8>, n: int, value: u64, count: int)
    requires
        0 <= n < count,
        count * 8 <= bytes.len(),
    ensures
        spliced(bytes, n * 8, le64(value)).len() == bytes.len(),
        forall|m: int|
            0 <= m < count ==> #[trigger] u64_at(spliced(bytes, n * 8, le64(value)), m * 8) == (
            if m == n {
                value
            } else {
                u64_at(bytes, m * 8)
            }),
        forall|i: int|
            count * 8 <= i < bytes.len() ==> #[trigger] spliced(bytes, n * 8, le64(value))[i]
                == bytes[i],
{
    let after = spliced(bytes, n * 8, le64(value));
    assert(le64(value).len() == 8);
    assert forall|i: int| 0 <= i < 8 implies after[n * 8 + i] == #[trigger] le64(value)[i] by {}
    lemma_le64_at(after, n * 8, value);
    assert forall|m: int| 0 <= m < count implies #[trigger] u64_at(after, m * 8) == (if m == n {
        value
    } else {
        u64_at(bytes, m * 8)
    }) by {
        if m != n {
            assert(forall|i: int| m * 8 <= i < m * 8 + 8 ==> after[i] == bytes[i]);
        }
    }
}

/// Writes the entry with the given number, counted over all tables.
fn write_entry(arena: &mut [u8], n: usize, value: u64, Ghost(count): Ghost<int>)
    requires
        n < count,
        count * 8 <= old(arena)@.len(),
    ensures
        final(arena)@.len() == old(arena)@.len(),
        forall|m: int|
            0 <= m < count ==> #[trigger] u64_at(final(arena)@, m * 8) == (if m == n {
                value
            } else {
                u64_at(old(arena)@, m * 8)
            }),
        forall|i: int|
            count * 8 <= i < old(arena)@.len() ==> #[trigger] final(arena)@[i] == old(arena)@[i],
{
    let len: usize = arena.len();
    proof {
        lemma_entry_written(arena@, n as int, value, count);
    }
    write_u64(arena, n * 8, value);
}

/// Clears all bytes.
fn clear(arena: &mut [u8])
    ensures
        final(arena)@.len() == old(arena)@.len(),
        forall|i: int| 0 <= i < old(arena)@.len() ==> #[trigger] final(arena)@[i] == 0,
{
    let mut i: usize = 0;
    while i < arena.len()
        invariant
            i <= arena@.len(),
            arena@.len() == old(arena)@.len(),
            forall|j: int| 0 <= j < i ==> #[trigger] arena@[j] == 0,
        decreases arena@.len() - i,
    {
        arena[i] = 0;
        i = i + 1;
    }
}

/// Whether `[start, end)` overlaps a RAM region.
#[must_use]
pub fn overlaps_ram(map: &MemoryMap<'_>, start: u64, end: u64) -> (result: bool)
    requires
        map.well_formed(),
    ensures
        result == meets_ram(map.regions(), start as int, end as int),
        result <==> exists|r: int|
            {
                &&& 0 <= r < map.regions().len()
                &&& !((#[trigger] map.regions()[r]).kind is Unknown)
                &&& 1 <= map.regions()[r].kind.number() <= 7 || map.regions()[r].kind.number() == 9
                    || map.regions()[r].kind.number() == 10
                &&& map.regions()[r].pages > 0
                &&& start < end
                &&& map.regions()[r].base < end
                &&& start < map.regions()[r].base + map.regions()[r].pages * 4096
            },
{
    proof {
        law_overlapping_ram(map.regions(), start as int, end as int);
    }
    let mut r: usize = 0;
    while r < map.len()
        invariant
            map.well_formed(),
            r <= map.entries,
            forall|q: int|
                0 <= q < r ==> !((#[trigger] map.regions()[q]).kind.ram() && map.regions()[q].meets(
                    start as int,
                    end as int,
                )),
        decreases map.entries - r,
    {
        let region = map.get(r);
        assert(region == map.regions()[r as int] && region.valid());
        if region.kind.is_ram() && region.overlaps(start, end) {
            return true;
        }
        r = r + 1;
    }
    false
}

/// Builds the tables in an arena that lies at the physical address `base`.
///
/// The whole arena is cleared first, so it need not be, and what the tables leave over is zero.
///
/// # Errors
/// See [`BuildError`]; the arena has not changed then.
pub fn build_at(
    arena: &mut [u8],
    base: u64,
    map: &MemoryMap<'_>,
    config: &PagingConfig,
) -> (result: Result<PageTables, BuildError>)
    requires
        map.well_formed(),
        base + old(arena)@.len() <= u64::MAX,
    ensures
        built(old(arena)@, base, map.regions(), *config, result, final(arena)@),
{
    if base % PAGE_SIZE != 0 {
        return Err(BuildError::ArenaMisaligned { address: base });
    }
    if config.max_identity_bytes > MAX_IDENTITY_SUPPORTED {
        return Err(
            BuildError::ConfigTooLarge {
                max_identity_bytes: config.max_identity_bytes,
                supported: MAX_IDENTITY_SUPPORTED,
            },
        );
    }
    if config.fine_grained_bytes > MAX_FINE_GRAINED_SUPPORTED {
        return Err(
            BuildError::FineGrainedTooLarge {
                fine_grained_bytes: config.fine_grained_bytes,
                supported: MAX_FINE_GRAINED_SUPPORTED,
            },
        );
    }
    let pds: usize = div_up(config.max_identity_bytes, PD_COVERAGE) as usize;
    let pts: usize = div_up(config.fine_grained_bytes, BLOCK_SIZE) as usize;
    let tables: usize = tables_needed(config.max_identity_bytes, config.fine_grained_bytes);
    let needed: usize = tables * 4096;
    if arena.len() < needed {
        return Err(BuildError::ArenaTooSmall { needed, got: arena.len() });
    }
    if !overlaps_ram(map, 0, config.max_identity_bytes) {
        return Err(BuildError::NoUsableRam);
    }
    proof {
        law_highest_ram_end(map.regions());
    }
    let ram_top: u64 = match map.ram_top() {
        Some(ram_top) => ram_top,
        None => return Err(BuildError::NoUsableRam),
    };
    let limit: u64 = if ram_top < config.max_identity_bytes {
        ram_top
    } else {
        config.max_identity_bytes
    };
    let ghost regions = map.regions();
    let ghost count = tables * 512;
    assert(tables == 2 + pds + pts);
    clear(arena);
    let ghost before = arena@;
    proof {
        assert forall|n: int| 0 <= n < count implies #[trigger] u64_at(arena@, n * 8) == 0 by {
            assert(forall|i: int| n * 8 <= i < n * 8 + 8 ==> arena@[i] == 0);
        }
    }
    // Level 4 points to level 3, level 3 to the level-2 tables.
    write_entry(arena, 0, (base + PAGE_SIZE) | PRESENT | WRITABLE, Ghost(count));
    let mut index: usize = 0;
    while index < pds
        invariant
            index <= pds <= 512,
            pts <= 512,
            tables == 2 + pds + pts,
            count == tables * 512,
            arena@.len() == before.len(),
            count * 8 <= before.len(),
            base + before.len() <= u64::MAX,
            pds == config.pd_count(),
            pts == config.pt_count(),
            forall|n: int|
                0 <= n < count ==> #[trigger] u64_at(arena@, n * 8) == (if n < 512 + index {
                    entry(base as int, regions, *config, n)
                } else {
                    0
                }),
            forall|i: int| count * 8 <= i < before.len() ==> #[trigger] arena@[i] == before[i],
        decreases pds - index,
    {
        let table: u64 = base + (2 + index as u64) * PAGE_SIZE;
        write_entry(arena, 512 + index, table | PRESENT | WRITABLE, Ghost(count));
        index = index + 1;
    }
    // Level 2: the low slots point to level-1 tables, the others map blocks.
    let mut blocks: usize = 0;
    let mut block: usize = 0;
    assert forall|n: int| 0 <= n < count implies #[trigger] u64_at(arena@, n * 8) == (if n < 1024
        + block {
        entry(base as int, regions, *config, n)
    } else {
        0
    }) by {}
    while block < pds * 512
        invariant
            map.well_formed(),
            regions == map.regions(),
            limit == mapping_limit(regions, *config),
            block <= pds * 512,
            0 < pds <= 512,
            pts <= 512,
            tables == 2 + pds + pts,
            count == tables * 512,
            arena@.len() == before.len(),
            count * 8 <= before.len(),
            base + before.len() <= u64::MAX,
            pds == config.pd_count(),
            pts == config.pt_count(),
            blocks == count_blocks(regions, *config, block as int),
            blocks <= block,
            forall|n: int|
                0 <= n < count ==> #[trigger] u64_at(arena@, n * 8) == (if n < 1024 + block {
                    entry(base as int, regions, *config, n)
                } else {
                    0
                }),
            forall|i: int| count * 8 <= i < before.len() ==> #[trigger] arena@[i] == before[i],
        decreases pds * 512 - block,
    {
        let address: u64 = block as u64 * BLOCK_SIZE;
        if block < pts {
            let table: u64 = base + (2 + pds as u64 + block as u64) * PAGE_SIZE;
            write_entry(arena, 1024 + block, table | PRESENT | WRITABLE, Ghost(count));
        } else if 0 < address && address < limit && overlaps_ram(
            map,
            address,
            address + BLOCK_SIZE,
        ) {
            write_entry(
                arena,
                1024 + block,
                address | PRESENT | WRITABLE | BLOCK,
                Ghost(count),
            );
            blocks = blocks + 1;
        }
        block = block + 1;
    }
    // Level 1: the pages of the fine-grained part.
    let fine_limit: u64 = if config.fine_grained_bytes < limit {
        config.fine_grained_bytes
    } else {
        limit
    };
    let mut pages: usize = 0;
    let mut page: usize = 0;
    let first: usize = 1024 + pds * 512;
    while page < pts * 512
        invariant
            map.well_formed(),
            regions == map.regions(),
            limit == mapping_limit(regions, *config),
            fine_limit == (if config.fine_grained_bytes < limit {
                config.fine_grained_bytes
            } else {
                limit
            }),
            page <= pts * 512,
            0 < pds <= 512,
            pts <= 512,
            first == 1024 + pds * 512,
            tables == 2 + pds + pts,
            count == tables * 512,
            arena@.len() == before.len(),
            count * 8 <= before.len(),
            base + before.len() <= u64::MAX,
            pds == config.pd_count(),
            pts == config.pt_count(),
            pages == count_pages(regions, *config, page as int),
            pages <= page,
            forall|n: int|
                0 <= n < count ==> #[trigger] u64_at(arena@, n * 8) == (if n < first + page {
                    entry(base as int, regions, *config, n)
                } else {
                    0
                }),
            forall|i: int| count * 8 <= i < before.len() ==> #[trigger] arena@[i] == before[i],
        decreases pts * 512 - page,
    {
        let address: u64 = page as u64 * PAGE_SIZE;
        if address != 0 && address < fine_limit && overlaps_ram(map, address, address + PAGE_SIZE) {
            write_entry(arena, first + page, address | PRESENT | WRITABLE, Ghost(count));
            pages = pages + 1;
        }
        page = page + 1;
    }
    Ok(
        PageTables {
            pml4_phys: base,
            limit,
            mapped_bytes: blocks as u64 * BLOCK_SIZE + pages as u64 * PAGE_SIZE,
            blocks,
            pages,
            tables_used: tables,
        },
    )
}

/// The address of a slice, from `slice::as_ptr`.
///
/// Of the address it is claimed only that the slice ends inside the address space: no allocation
/// reaches beyond it. Where the slice lies is up to the machine.
#[verifier::external_body]
fn slice_address(bytes: &[u8]) -> (address: u64)
    ensures
        address + bytes@.len() <= u64::MAX,
{
    bytes.as_ptr() as u64
}

/// Builds the tables in `arena`, which must be 4 KiB aligned.
///
/// # Errors
/// See [`BuildError`]; the arena has not changed then.
pub fn build(arena: &mut [u8], map: &MemoryMap<'_>, config: &PagingConfig) -> (result: Result<
    PageTables,
    BuildError,
>)
    requires
        map.well_formed(),
    ensures
        exists|base: u64|
            base + old(arena)@.len() <= u64::MAX && #[trigger] built(
                old(arena)@,
                base,
                map.regions(),
                *config,
                result,
                final(arena)@,
            ),
{
    let base: u64 = slice_address(arena);
    build_at(arena, base, map, config)
}

// ---------------------------------------------------------------------------------------------
// What the tables mean
// ---------------------------------------------------------------------------------------------

/// Whether an address is mapped.
pub open spec fn mapped(regions: Seq<Region>, config: PagingConfig, address: int) -> bool {
    if (address / BLOCK_SIZE as int) < config.pt_count() {
        page_mapped(regions, config, address / PAGE_SIZE as int)
    } else {
        block_mapped(regions, config, address / BLOCK_SIZE as int)
    }
}

/// The physical address in an entry.
pub open spec fn target(entry: u64) -> int {
    (entry & ADDRESS_MASK) as int
}

/// The entry stored at `offset`.
#[verifier::opaque]
pub open spec fn word(bytes: Seq<u8>, offset: int) -> u64 {
    u64_at(bytes, offset)
}

/// The last step of a walk: from an entry of a level-2 table through a level-1 table.
pub open spec fn through_page(bytes: Seq<u8>, base: int, e2: u64, address: int) -> Option<int> {
    let e1 = word(bytes, target(e2) - base + address / 0x1000 % 512 * 8);
    if e1 & PRESENT == 0 {
        None
    } else {
        Some(target(e1) + address % 0x1000)
    }
}

/// The second half of a walk: from an entry of the level-3 table through a level-2 table.
pub open spec fn through_block(bytes: Seq<u8>, base: int, e3: u64, address: int) -> Option<int> {
    let e2 = word(bytes, target(e3) - base + address / 0x20_0000 % 512 * 8);
    if e2 & PRESENT == 0 {
        None
    } else if e2 & BLOCK != 0 {
        Some(target(e2) + address % 0x20_0000)
    } else {
        through_page(bytes, base, e2, address)
    }
}

/// What the processor makes of an address when it walks the tables in an arena at `base`; `None`
/// is a page fault.
pub open spec fn translate(bytes: Seq<u8>, base: int, address: int) -> Option<int> {
    let e4 = word(bytes, address / 0x80_0000_0000 % 512 * 8);
    if e4 & PRESENT == 0 {
        None
    } else {
        let e3 = word(bytes, target(e4) - base + address / 0x4000_0000 % 512 * 8);
        if e3 & PRESENT == 0 {
            None
        } else {
            through_block(bytes, base, e3, address)
        }
    }
}

/// What an entry with a page-aligned address means.
proof fn lemma_entry_bits(address: u64)
    requires
        address % 4096 == 0,
        address < 0x10_0000_0000_0000,
    ensures
        link(address as int) & PRESENT != 0,
        link(address as int) & WRITABLE != 0,
        link(address as int) & BLOCK == 0,
        target(link(address as int)) == address,
        link(address as int) & (USER | WRITE_THROUGH | CACHE_DISABLE) == 0,
        link(address as int) >> 63 == 0,
        block_entry(address as int) & PRESENT != 0,
        block_entry(address as int) & WRITABLE != 0,
        block_entry(address as int) & BLOCK != 0,
        target(block_entry(address as int)) == address,
        block_entry(address as int) & (USER | WRITE_THROUGH | CACHE_DISABLE) == 0,
        block_entry(address as int) >> 63 == 0,
        0u64 & PRESENT == 0,
{
    let e = address | 0x01 | 0x02;
    let f = address | 0x01 | 0x02 | 0x80;
    assert(e & 0x01 != 0 && e & 0x02 != 0 && e & 0x80 == 0 && e
        & 0x000F_FFFF_FFFF_F000 == address && e & (0x04u64 | 0x08 | 0x10) == 0 && e >> 63 == 0)
        by (bit_vector)
        requires
            e == address | 0x01 | 0x02,
            address % 4096 == 0,
            address < 0x10_0000_0000_0000,
    ;
    assert(f & 0x01 != 0 && f & 0x02 != 0 && f & 0x80 != 0 && f
        & 0x000F_FFFF_FFFF_F000 == address && f & (0x04u64 | 0x08 | 0x10) == 0 && f >> 63 == 0)
        by (bit_vector)
        requires
            f == address | 0x01 | 0x02 | 0x80,
            address % 4096 == 0,
            address < 0x10_0000_0000_0000,
    ;
    assert(0u64 & 0x01 == 0) by (bit_vector);
}

/// What the tables hold at entry `n`.
proof fn lemma_word(bytes: Seq<u8>, base: int, regions: Seq<Region>, config: PagingConfig, n: int)
    requires
        holds_tables(bytes, base, regions, config),
        0 <= n < config.tables() * 512,
    ensures
        word(bytes, n * 8) == entry(base, regions, config, n),
{
    reveal(word);
    assert(u64_at(bytes, n * 8) == entry(base, regions, config, n));
}

/// A configuration that is supported, with an arena in reach of the address bits of an entry.
spec fn sound(config: PagingConfig, base: u64) -> bool {
    &&& 0 < config.max_identity_bytes <= MAX_IDENTITY_SUPPORTED
    &&& config.fine_grained_bytes <= MAX_FINE_GRAINED_SUPPORTED
    &&& base % PAGE_SIZE == 0
    &&& base + config.tables() * PAGE_SIZE <= 0x10_0000_0000_0000
}

/// The last step of a walk ends at the page itself.
proof fn lemma_through_page(
    bytes: Seq<u8>,
    base: u64,
    regions: Seq<Region>,
    config: PagingConfig,
    address: int,
)
    requires
        holds_tables(bytes, base as int, regions, config),
        sound(config, base),
        0 <= address / 0x20_0000 < config.pt_count(),
    ensures
        through_page(
            bytes,
            base as int,
            link(base + (2 + config.pd_count() + address / 0x20_0000) * PAGE_SIZE),
            address,
        ) == (if page_mapped(regions, config, address / PAGE_SIZE as int) {
            Some(address)
        } else {
            None
        }),
{
    let pds = config.pd_count();
    let block = address / 0x20_0000;
    let page = address / 0x1000;
    let i1 = address / 0x1000 % 512;
    assert(page == block * 512 + i1);
    let n = 1024 + 512 * pds + page;
    assert((2 + pds + block) * PAGE_SIZE + i1 * 8 == n * 8);
    lemma_entry_bits((base + (2 + pds + block) * PAGE_SIZE) as u64);
    lemma_word(bytes, base as int, regions, config, n);
    lemma_entry_bits((page * PAGE_SIZE) as u64);
}

/// The second half of a walk ends at the address itself.
proof fn lemma_through_block(
    bytes: Seq<u8>,
    base: u64,
    regions: Seq<Region>,
    config: PagingConfig,
    address: int,
)
    requires
        holds_tables(bytes, base as int, regions, config),
        sound(config, base),
        0 <= address / 0x4000_0000 < config.pd_count(),
    ensures
        through_block(
            bytes,
            base as int,
            link(base + (2 + address / 0x4000_0000) * PAGE_SIZE),
            address,
        ) == (if mapped(regions, config, address) {
            Some(address)
        } else {
            None
        }),
{
    let pds = config.pd_count();
    let i3 = address / 0x4000_0000;
    let i2 = address / 0x20_0000 % 512;
    let block = address / 0x20_0000;
    assert(block == i3 * 512 + i2);
    assert((2 + i3) * PAGE_SIZE + i2 * 8 == (1024 + block) * 8);
    lemma_entry_bits((base + (2 + i3) * PAGE_SIZE) as u64);
    lemma_word(bytes, base as int, regions, config, 1024 + block);
    if block < config.pt_count() {
        lemma_entry_bits((base + (2 + pds + block) * PAGE_SIZE) as u64);
        lemma_through_page(bytes, base, regions, config, address);
    } else {
        lemma_entry_bits((block * BLOCK_SIZE) as u64);
    }
}

/// The tables map memory to itself: an address that is mapped translates to itself, any other
/// address faults.
pub proof fn law_identity_mapping(
    bytes: Seq<u8>,
    base: u64,
    regions: Seq<Region>,
    config: PagingConfig,
    address: int,
)
    requires
        holds_tables(bytes, base as int, regions, config),
        0 < config.max_identity_bytes <= MAX_IDENTITY_SUPPORTED,
        config.fine_grained_bytes <= MAX_FINE_GRAINED_SUPPORTED,
        base % PAGE_SIZE == 0,
        base + config.tables() * PAGE_SIZE <= 0x10_0000_0000_0000,
        0 <= address < 0x1_0000_0000_0000,
    ensures
        translate(bytes, base as int, address) == (if mapped(regions, config, address) {
            Some(address)
        } else {
            None
        }),
{
    let pds = config.pd_count();
    let b = base as int;
    let i4 = address / 0x80_0000_0000 % 512;
    assert(i4 == address / 0x80_0000_0000);
    lemma_entry_bits(0);
    lemma_word(bytes, b, regions, config, i4);
    if i4 == 0 {
        let i3 = address / 0x4000_0000;
        assert(i3 % 512 == i3);
        lemma_entry_bits((base + PAGE_SIZE) as u64);
        assert(PAGE_SIZE + i3 * 8 == (512 + i3) * 8);
        lemma_word(bytes, b, regions, config, 512 + i3);
        if i3 < pds {
            lemma_entry_bits((base + (2 + i3) * PAGE_SIZE) as u64);
            lemma_through_block(bytes, base, regions, config, address);
        }
    }
}

/// The first page is never mapped.
pub proof fn law_page_zero_is_never_mapped(
    regions: Seq<Region>,
    config: PagingConfig,
    address: int,
)
    requires
        0 <= address < PAGE_SIZE,
    ensures
        !mapped(regions, config, address),
{
}

/// Nothing is mapped but pages and blocks that overlap RAM and start below the limit.
pub proof fn law_only_ram_is_mapped(regions: Seq<Region>, config: PagingConfig, address: int)
    requires
        0 <= address,
        mapped(regions, config, address),
    ensures
        ({
            let unit = if (address / BLOCK_SIZE as int) < config.pt_count() {
                PAGE_SIZE as int
            } else {
                BLOCK_SIZE as int
            };
            let start = address - address % unit;
            start < mapping_limit(regions, config) && meets_ram(regions, start, start + unit)
        }),
{
}

/// RAM between the first page and the limit is mapped. Without small pages the first block is left
/// out as a whole, since it holds the first page.
pub proof fn law_ram_is_mapped(
    regions: Seq<Region>,
    config: PagingConfig,
    r: int,
    address: int,
)
    requires
        0 <= r < regions.len(),
        regions[r].kind.ram(),
        regions[r].base <= address < regions[r].limit(),
        PAGE_SIZE <= address < config.max_identity_bytes,
        config.fine_grained_bytes % BLOCK_SIZE == 0,
        config.fine_grained_bytes >= BLOCK_SIZE || address >= BLOCK_SIZE,
    ensures
        mapped(regions, config, address),
{
    law_highest_ram_end(regions);
    let block = address / BLOCK_SIZE as int;
    let page = address / PAGE_SIZE as int;
    assert(regions[r].meets(page * PAGE_SIZE, page * PAGE_SIZE + PAGE_SIZE));
    assert(regions[r].meets(block * BLOCK_SIZE, block * BLOCK_SIZE + BLOCK_SIZE));
}

/// Entries are present and writable, and those of large blocks alone are marked as such; no entry
/// is open to user mode, changes caching or forbids execution.
pub proof fn law_entry_flags(base: u64, regions: Seq<Region>, config: PagingConfig, n: int)
    requires
        0 < config.max_identity_bytes <= MAX_IDENTITY_SUPPORTED,
        config.fine_grained_bytes <= MAX_FINE_GRAINED_SUPPORTED,
        base % PAGE_SIZE == 0,
        base + config.tables() * PAGE_SIZE <= 0x10_0000_0000_0000,
        0 <= n < config.tables() * 512,
    ensures
        ({
            let e = entry(base as int, regions, config, n);
            &&& e & (USER | WRITE_THROUGH | CACHE_DISABLE) == 0
            &&& e >> 63 == 0
            &&& e != 0 ==> e & PRESENT != 0 && e & WRITABLE != 0
            &&& e & BLOCK != 0 <==> e != 0 && 1024 + config.pt_count() <= n < 1024 + 512
                * config.pd_count()
        }),
{
    let pds = config.pd_count();
    let e = entry(base as int, regions, config, n);
    if e == 0 {
        assert(0u64 & (0x04u64 | 0x08 | 0x10) == 0 && 0u64 >> 63 == 0 && 0u64 & 0x80 == 0)
            by (bit_vector);
    } else if n == 0 {
        lemma_entry_bits((base + PAGE_SIZE) as u64);
    } else if n < 1024 {
        lemma_entry_bits((base + (2 + (n - 512)) * PAGE_SIZE) as u64);
    } else if n < 1024 + 512 * pds {
        let block = n - 1024;
        if block < config.pt_count() {
            lemma_entry_bits((base + (2 + pds + block) * PAGE_SIZE) as u64);
        } else {
            lemma_entry_bits((block * BLOCK_SIZE) as u64);
        }
    } else {
        lemma_entry_bits(((n - 1024 - 512 * pds) * PAGE_SIZE) as u64);
    }
}

} // verus!
