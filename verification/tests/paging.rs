use paranukos::map::{MemoryKind, MemoryMap};
use paranukos::paging::{
    build, build_at, overlaps_ram, tables_needed, BuildError, PageTables, PagingConfig,
    ADDRESS_MASK, BLOCK, BLOCK_SIZE, CACHE_DISABLE, MAX_FINE_GRAINED_SUPPORTED,
    MAX_IDENTITY_BYTES, MAX_IDENTITY_SUPPORTED, PAGE_SIZE, PDPT_ENTRIES, PD_COVERAGE, PD_ENTRIES,
    PML4_ENTRIES, PRESENT, PT_ENTRIES, USER, WRITABLE, WRITE_THROUGH,
};

/// Size of the arena: more than any configuration here needs.
const ARENA: usize = 64 * 1024;

/// A 4 KiB aligned arena.
struct Arena(Vec<u8>);

impl Arena {
    fn new() -> Self {
        Self(vec![0u8; ARENA + 4096])
    }

    fn bytes(&mut self) -> &mut [u8] {
        let start = (4096 - self.0.as_ptr() as usize % 4096) % 4096;
        &mut self.0[start..start + ARENA]
    }
}

fn map_of(regions: &[(MemoryKind, u64, u64)]) -> Vec<u8> {
    let stride = 48;
    let mut bytes = vec![0u8; regions.len() * stride];
    for (index, (kind, base, pages)) in regions.iter().enumerate() {
        let offset = index * stride;
        bytes[offset..offset + 4].copy_from_slice(&kind.raw().to_le_bytes());
        bytes[offset + 8..offset + 16].copy_from_slice(&base.to_le_bytes());
        bytes[offset + 24..offset + 32].copy_from_slice(&pages.to_le_bytes());
    }
    bytes
}

fn parse(regions: &[(MemoryKind, u64, u64)]) -> Vec<u8> {
    map_of(regions)
}

fn read_entry(arena: &[u8], table: u64, index: usize) -> u64 {
    let offset = (table - arena.as_ptr() as u64) as usize + index * 8;
    u64::from_le_bytes(arena[offset..offset + 8].try_into().expect("8 字节"))
}

fn low_pt(arena: &[u8], pml4_phys: u64) -> u64 {
    let pdpt = read_entry(arena, pml4_phys, 0) & ADDRESS_MASK;
    let pd0 = read_entry(arena, pdpt, 0) & ADDRESS_MASK;
    read_entry(arena, pd0, 0) & ADDRESS_MASK
}

fn low_pd(arena: &[u8], pml4_phys: u64) -> u64 {
    let pdpt = read_entry(arena, pml4_phys, 0) & ADDRESS_MASK;
    read_entry(arena, pdpt, 0) & ADDRESS_MASK
}

fn qemu_like() -> Vec<u8> {
    parse(&[
        (MemoryKind::Conventional, 0x0, 0x9F),
        (MemoryKind::Conventional, 0x100000, 0x700),
        (MemoryKind::Reserved, 0x800000, 0x200),
        (MemoryKind::Conventional, 0xA00000, 0x400),
    ])
}

#[test]
fn m2_table_budget_is_seven_pages() {
    assert_eq!(tables_needed(MAX_IDENTITY_BYTES, BLOCK_SIZE), 7);
    assert_eq!(tables_needed(0, 0), 1);
    assert_eq!(tables_needed(8 * 1024 * 1024, BLOCK_SIZE), 4);
}

#[test]
fn builds_identity_mappings_with_the_expected_attributes() {
    let bytes = qemu_like();
    let map = MemoryMap::from_bytes(&bytes, 4, 48, 2).expect("解析成功");
    let mut arena = Arena::new();
    let tables = build(arena.bytes(), &map, &PagingConfig::m2()).expect("构建成功");

    let arena = arena.bytes();
    let pml4 = tables.pml4_phys;
    let pdpt = read_entry(arena, pml4, 0) & ADDRESS_MASK;
    let pd0 = low_pd(arena, pml4);
    let pt = low_pt(arena, pml4);

    assert_eq!(read_entry(arena, pml4, 0), pdpt | PRESENT | WRITABLE);
    assert_eq!(read_entry(arena, pdpt, 0), pd0 | PRESENT | WRITABLE);
    assert_eq!(
        read_entry(arena, pd0, 0) & BLOCK,
        0,
        "低端必须挂页表，而不是 2 MiB 大块"
    );

    assert_eq!(read_entry(arena, pt, 0), 0, "页 0 必须保持 not present");
    assert_eq!(read_entry(arena, pt, 1), 0x1000 | PRESENT | WRITABLE);
    assert_eq!(read_entry(arena, pt, 0x9E), 0x9E000 | PRESENT | WRITABLE);
    assert_eq!(read_entry(arena, pt, 0xA0), 0, "非 RAM 的低端空洞不得映射");
    assert_eq!(read_entry(arena, pt, 0xFF), 0, "0xFF000 也不在 RAM 内");

    assert_eq!(
        read_entry(arena, pd0, 1),
        0x200000 | PRESENT | WRITABLE | BLOCK
    );
    assert_eq!(
        read_entry(arena, pd0, 3),
        0x600000 | PRESENT | WRITABLE | BLOCK
    );
    assert_eq!(read_entry(arena, pd0, 4), 0, "只覆盖保留区的大块不得映射");
    assert_eq!(
        read_entry(arena, pd0, 5),
        0xA00000 | PRESENT | WRITABLE | BLOCK
    );
    assert_eq!(
        read_entry(arena, pd0, 6),
        0xC00000 | PRESENT | WRITABLE | BLOCK
    );
    assert_eq!(read_entry(arena, pd0, 7), 0, "limit 之上的大块不得映射");

    assert_eq!(tables.limit, 0xE00000);
    assert_eq!(tables.tables_used, 7);
    assert_eq!(tables.blocks, 5);
    assert_eq!(tables.pages, 0x9E + 0x100);
    assert_eq!(
        tables.mapped_bytes,
        (0x9E + 0x100) as u64 * PAGE_SIZE + 5 * BLOCK_SIZE
    );
}

#[test]
fn every_mapped_entry_is_identity_and_has_no_extra_flags() {
    let bytes = qemu_like();
    let map = MemoryMap::from_bytes(&bytes, 4, 48, 2).expect("解析成功");
    let mut arena = Arena::new();
    let tables = build(arena.bytes(), &map, &PagingConfig::m2()).expect("构建成功");
    let arena = arena.bytes();

    let pd0 = low_pd(arena, tables.pml4_phys);
    let pt = low_pt(arena, tables.pml4_phys);

    for slot in 0..PT_ENTRIES {
        let entry = read_entry(arena, pt, slot);
        if entry & PRESENT == 0 {
            continue;
        }
        let address = slot as u64 * PAGE_SIZE;
        assert_eq!(entry, address | PRESENT | WRITABLE, "必须严格恒等映射");
        assert_eq!(entry & (USER | WRITE_THROUGH | CACHE_DISABLE | BLOCK), 0);
        assert_eq!(entry >> 63, 0, "不设 NX（全部可执行）");
    }

    let mut block_count = 0;
    for slot in 0..PD_ENTRIES {
        let entry = read_entry(arena, pd0, slot);
        if entry & PRESENT == 0 || (slot == 0) {
            continue;
        }
        let address = slot as u64 * BLOCK_SIZE;
        assert_eq!(entry, address | PRESENT | WRITABLE | BLOCK);
        assert_eq!(entry >> 63, 0);
        block_count += 1;
    }
    assert_eq!(block_count, tables.blocks);
}

#[test]
fn unused_entries_are_left_zero() {
    let bytes = parse(&[(MemoryKind::Conventional, 0x1000, 2)]);
    let map = MemoryMap::from_bytes(&bytes, 1, 48, 0).expect("解析成功");
    let mut arena = Arena::new();
    let tables = build(arena.bytes(), &map, &PagingConfig::m2()).expect("构建成功");
    let arena = arena.bytes();

    let pml4 = tables.pml4_phys;
    let pdpt = read_entry(arena, pml4, 0) & ADDRESS_MASK;
    for slot in 1..PML4_ENTRIES {
        assert_eq!(
            read_entry(arena, pml4, slot),
            0,
            "PML4[{slot}] 应为 not present"
        );
    }
    for slot in 4..PDPT_ENTRIES {
        assert_eq!(
            read_entry(arena, pdpt, slot),
            0,
            "PDPT[{slot}] 应为 not present"
        );
    }
    let pt = low_pt(arena, pml4);
    assert_eq!(read_entry(arena, pt, 0), 0, "页 0 永不映射");
    assert_eq!(read_entry(arena, pt, 1), 0x1000 | PRESENT | WRITABLE);
    assert_eq!(read_entry(arena, pt, 2), 0x2000 | PRESENT | WRITABLE);
    for slot in 3..PT_ENTRIES {
        assert_eq!(read_entry(arena, pt, slot), 0, "超出 RAM 的页不得映射");
    }
    assert_eq!(tables.pages, 2);
    assert_eq!(tables.blocks, 0);
    assert_eq!(tables.limit, 0x3000);
}

#[test]
fn page_zero_is_never_mapped_even_when_firmware_calls_it_conventional() {
    let bytes = parse(&[(MemoryKind::Conventional, 0x0, 0x100)]);
    let map = MemoryMap::from_bytes(&bytes, 1, 48, 0).expect("解析成功");
    let mut arena = Arena::new();
    let tables = build(arena.bytes(), &map, &PagingConfig::m2()).expect("构建成功");
    let arena = arena.bytes();

    let pt = low_pt(arena, tables.pml4_phys);
    assert_eq!(read_entry(arena, pt, 0), 0, "页 0 永不映射");
    assert_eq!(read_entry(arena, pt, 1), 0x1000 | PRESENT | WRITABLE);
    assert_eq!(read_entry(arena, pt, 0xFF), 0xFF000 | PRESENT | WRITABLE);
}

#[test]
fn respects_the_identity_limit() {
    let bytes = parse(&[(MemoryKind::Conventional, 0x1000, 0x2000)]);
    let map = MemoryMap::from_bytes(&bytes, 1, 48, 0).expect("解析成功");
    let config = PagingConfig {
        max_identity_bytes: 8 * 1024 * 1024,
        fine_grained_bytes: BLOCK_SIZE,
    };
    let mut arena = Arena::new();
    let tables = build(arena.bytes(), &map, &config).expect("构建成功");
    assert_eq!(tables.limit, 8 * 1024 * 1024);
    assert_eq!(tables.blocks, 3, "2/4/6 MiB 三块；8 MiB 已在 limit 之外");
}

#[test]
fn supports_more_than_one_fine_grained_table() {
    let bytes = parse(&[(MemoryKind::Conventional, 0x1000, 0x800)]);
    let map = MemoryMap::from_bytes(&bytes, 1, 48, 0).expect("解析成功");
    let config = PagingConfig {
        max_identity_bytes: 8 * 1024 * 1024,
        fine_grained_bytes: 4 * 1024 * 1024,
    };
    assert_eq!(
        tables_needed(config.max_identity_bytes, config.fine_grained_bytes),
        5,
        "PML4 + PDPT + PD + 2×PT"
    );
    let mut arena = Arena::new();
    let tables = build(arena.bytes(), &map, &config).expect("构建成功");
    let arena = arena.bytes();

    assert_eq!(tables.tables_used, 5);
    let pd0 = low_pd(arena, tables.pml4_phys);
    let pt0 = read_entry(arena, pd0, 0) & ADDRESS_MASK;
    let pt1 = read_entry(arena, pd0, 1) & ADDRESS_MASK;
    assert_ne!(pt0, pt1);
    assert_eq!(read_entry(arena, pd0, 0) & BLOCK, 0);
    assert_eq!(read_entry(arena, pd0, 1) & BLOCK, 0);
    assert_eq!(read_entry(arena, pt0, 0x1FF), 0x1FF000 | PRESENT | WRITABLE);
    assert_eq!(read_entry(arena, pt1, 0), 0x200000 | PRESENT | WRITABLE);
    assert_eq!(read_entry(arena, pt1, 0x1FF), 0x3FF000 | PRESENT | WRITABLE);
    assert_eq!(tables.pages, 0x3FF);
    assert_eq!(tables.blocks, 2, "4..6 MiB 与 6..8 MiB 两块");
    assert_eq!(tables.limit, 8 * 1024 * 1024);
}

#[test]
fn a_region_that_overlaps_a_block_only_partly_still_maps_the_block() {
    let bytes = parse(&[(MemoryKind::Conventional, 0x100000, 0x200)]);
    let map = MemoryMap::from_bytes(&bytes, 1, 48, 0).expect("解析成功");
    let mut arena = Arena::new();
    let tables = build(arena.bytes(), &map, &PagingConfig::m2()).expect("构建成功");
    let arena = arena.bytes();

    let pd0 = low_pd(arena, tables.pml4_phys);
    assert_eq!(
        read_entry(arena, pd0, 1),
        0x200000 | PRESENT | WRITABLE | BLOCK
    );
    assert_eq!(read_entry(arena, pd0, 2), 0, "更上面没有 RAM，不映射");
    assert_eq!(tables.pages, 0x100, "1MiB..2MiB 全在细粒度区间内");
    assert_eq!(tables.blocks, 1);
    assert_eq!(tables.limit, 0x300000);
}

#[test]
fn rejects_a_small_arena_and_reports_the_need() {
    let bytes = qemu_like();
    let map = MemoryMap::from_bytes(&bytes, 4, 48, 2).expect("解析成功");
    let mut arena = Arena::new();
    let err = build(&mut arena.bytes()[..4096 * 3], &map, &PagingConfig::m2())
        .expect_err("竞技场过小必须报错");
    assert_eq!(
        err,
        BuildError::ArenaTooSmall {
            needed: 4096 * 7,
            got: 4096 * 3
        }
    );
}

#[test]
fn rejects_a_misaligned_arena() {
    let bytes = qemu_like();
    let map = MemoryMap::from_bytes(&bytes, 4, 48, 2).expect("解析成功");
    let mut arena = Arena::new();
    let address = arena.bytes()[1..].as_ptr() as u64;
    let err = build(&mut arena.bytes()[1..], &map, &PagingConfig::m2()).expect_err("必须报错");
    assert_eq!(err, BuildError::ArenaMisaligned { address });
}

#[test]
fn rejects_a_map_without_ram() {
    let bytes = parse(&[
        (MemoryKind::Reserved, 0x1000, 0x10),
        (MemoryKind::Mmio, 0x100000, 0x10),
    ]);
    let map = MemoryMap::from_bytes(&bytes, 2, 48, 0).expect("解析成功");
    let mut arena = Arena::new();
    assert_eq!(
        build(arena.bytes(), &map, &PagingConfig::m2()).expect_err("没有 RAM 必须报错"),
        BuildError::NoUsableRam
    );
}

#[test]
fn rejects_configs_beyond_the_supported_range() {
    let bytes = parse(&[(MemoryKind::Conventional, 0x1000, 0x10)]);
    let map = MemoryMap::from_bytes(&bytes, 1, 48, 0).expect("解析成功");
    let mut arena = Arena::new();

    let too_large = PagingConfig {
        max_identity_bytes: MAX_IDENTITY_SUPPORTED + PD_COVERAGE,
        fine_grained_bytes: BLOCK_SIZE,
    };
    assert_eq!(
        build(arena.bytes(), &map, &too_large).expect_err("上限过大必须报错"),
        BuildError::ConfigTooLarge {
            max_identity_bytes: MAX_IDENTITY_SUPPORTED + PD_COVERAGE,
            supported: MAX_IDENTITY_SUPPORTED,
        }
    );

    let too_fine = PagingConfig {
        max_identity_bytes: MAX_IDENTITY_BYTES,
        fine_grained_bytes: MAX_FINE_GRAINED_SUPPORTED + BLOCK_SIZE,
    };
    assert_eq!(
        build(arena.bytes(), &map, &too_fine).expect_err("细粒度区间过大必须报错"),
        BuildError::FineGrainedTooLarge {
            fine_grained_bytes: MAX_FINE_GRAINED_SUPPORTED + BLOCK_SIZE,
            supported: MAX_FINE_GRAINED_SUPPORTED,
        }
    );
}

#[test]
fn arena_is_cleared_before_use() {
    let bytes = qemu_like();
    let map = MemoryMap::from_bytes(&bytes, 4, 48, 2).expect("解析成功");
    let mut arena = Arena::new();
    for byte in arena.bytes().iter_mut() {
        *byte = 0xFF;
    }
    let tables = build(arena.bytes(), &map, &PagingConfig::m2()).expect("构建成功");
    let arena = arena.bytes();

    let pdpt = read_entry(arena, tables.pml4_phys, 0) & ADDRESS_MASK;
    let pd3 = read_entry(arena, pdpt, 3) & ADDRESS_MASK;
    assert_ne!(pd3, 0, "第 4 张 PD 应存在（上限 4 GiB）");
    for slot in 0..PD_ENTRIES {
        let address = 3 * PD_COVERAGE + slot as u64 * BLOCK_SIZE;
        let entry = read_entry(arena, pd3, slot);
        let expected =
            if address < tables.limit && overlaps_ram(&map, address, address + BLOCK_SIZE) {
                address | PRESENT | WRITABLE | BLOCK
            } else {
                0
            };
        assert_eq!(entry, expected, "3 GiB 区间的表项内容不符");
    }
    for slot in 0..PML4_ENTRIES {
        if slot == 0 {
            continue;
        }
        assert_eq!(read_entry(arena, tables.pml4_phys, slot), 0);
    }
}

#[test]
fn overlaps_ram_uses_half_open_intervals() {
    let bytes = parse(&[(MemoryKind::Conventional, 0x1000, 1)]);
    let map = MemoryMap::from_bytes(&bytes, 1, 48, 0).expect("解析成功");
    assert!(overlaps_ram(&map, 0, 0x2000));
    assert!(overlaps_ram(&map, 0x1000, 0x2000));
    assert!(!overlaps_ram(&map, 0x2000, 0x3000), "右端相接不算相交");
    assert!(!overlaps_ram(&map, 0, 0x1000), "左端相接不算相交");

    let bytes = parse(&[(MemoryKind::Reserved, 0x1000, 1)]);
    let map = MemoryMap::from_bytes(&bytes, 1, 48, 0).expect("解析成功");
    assert!(!overlaps_ram(&map, 0x1000, 0x2000));
}

/// What the processor makes of an address with the tables in `arena`.
fn translate(arena: &[u8], base: u64, address: u64) -> Option<u64> {
    let mut table = base;
    for level in [39u32, 30, 21, 12] {
        let index = (address >> level) as usize % 512;
        let offset = (table - base) as usize + index * 8;
        let entry = u64::from_le_bytes(arena[offset..offset + 8].try_into().expect("8 bytes"));
        if entry & PRESENT == 0 {
            return None;
        }
        table = entry & ADDRESS_MASK;
        if level == 21 && entry & BLOCK != 0 {
            return Some(table + address % BLOCK_SIZE);
        }
    }
    Some(table + address % PAGE_SIZE)
}

#[test]
fn mapped_addresses_translate_to_themselves() {
    let bytes = qemu_like();
    let map = MemoryMap::from_bytes(&bytes, 4, 48, 2).expect("map");
    let mut arena = vec![0x5Au8; ARENA];
    let base = 0x7_0000_0000u64;
    let tables = build_at(&mut arena, base, &map, &PagingConfig::m2()).expect("tables");
    assert_eq!(
        tables,
        PageTables {
            pml4_phys: base,
            limit: 0xE00000,
            mapped_bytes: (0x9E + 0x100) * PAGE_SIZE + 5 * BLOCK_SIZE,
            blocks: 5,
            pages: 0x9E + 0x100,
            tables_used: 7,
        }
    );
    for address in [0x1000u64, 0x9EFFF, 0x100000, 0x1FFFFF, 0x200000, 0x7FFFFF, 0xDFFFFF] {
        assert_eq!(translate(&arena, base, address), Some(address));
    }
    for address in [0u64, 0xFFF, 0x9F000, 0xFF000, 0x800000, 0x9FFFFF, 0xE00000, 1 << 32, 1 << 39] {
        assert_eq!(translate(&arena, base, address), None);
    }
    // Bytes behind the tables are cleared too.
    assert!(arena.len() > 7 * 4096);
    assert!(arena[7 * 4096..].iter().all(|byte| *byte == 0));
}

#[test]
fn ram_above_the_cap_alone_is_not_usable() {
    let mut arena = vec![0x5Au8; 7 * 4096];
    let cap = MAX_IDENTITY_BYTES;
    for (base, pages) in [(2 * cap, 0x100), (cap, 0x100), (0x1000, 0), (0, 0)] {
        let bytes = parse(&[(MemoryKind::Conventional, base, pages)]);
        let map = MemoryMap::from_bytes(&bytes, 1, 48, 2).expect("map");
        assert_eq!(
            build_at(&mut arena, 0x40_0000, &map, &PagingConfig::m2()),
            Err(BuildError::NoUsableRam)
        );
        assert!(arena.iter().all(|byte| *byte == 0x5A));
    }
    let bytes = parse(&[(MemoryKind::Conventional, cap - 0x1000, 0x100)]);
    let map = MemoryMap::from_bytes(&bytes, 1, 48, 2).expect("map");
    let tables = build_at(&mut arena, 0x40_0000, &map, &PagingConfig::m2()).expect("tables");
    assert_eq!((tables.blocks, tables.pages, tables.limit), (1, 0, cap));
}

#[test]
fn page_zero_stays_unmapped_without_small_pages() {
    let bytes = parse(&[(MemoryKind::Conventional, 0x0, 0x1000)]);
    let map = MemoryMap::from_bytes(&bytes, 1, 48, 0).expect("map");
    let config = PagingConfig { max_identity_bytes: 8 * 1024 * 1024, fine_grained_bytes: 0 };
    let mut arena = vec![0u8; ARENA];
    let tables = build_at(&mut arena, 0x10_0000, &map, &config).expect("tables");
    assert_eq!(tables.tables_used, 3);
    assert_eq!(tables.blocks, 3);
    assert_eq!(translate(&arena, 0x10_0000, 0), None);
    assert_eq!(translate(&arena, 0x10_0000, 0x1FFFFF), None);
    assert_eq!(translate(&arena, 0x10_0000, 0x200000), Some(0x200000));
}

#[test]
fn a_refused_build_leaves_the_arena_alone() {
    let bytes = parse(&[(MemoryKind::Mmio, 0x1000, 4)]);
    let map = MemoryMap::from_bytes(&bytes, 1, 48, 0).expect("map");
    let mut arena = vec![0x77u8; ARENA];
    assert_eq!(
        build_at(&mut arena, 0x10_0000, &map, &PagingConfig::m2()),
        Err(BuildError::NoUsableRam)
    );
    assert_eq!(
        build_at(&mut arena, 0x10_0008, &map, &PagingConfig::m2()),
        Err(BuildError::ArenaMisaligned { address: 0x10_0008 })
    );
    let nothing = PagingConfig { max_identity_bytes: 0, fine_grained_bytes: 0 };
    assert_eq!(
        build_at(&mut arena, 0x10_0000, &map, &nothing),
        Err(BuildError::NoUsableRam)
    );
    assert!(arena.iter().all(|byte| *byte == 0x77));
}

#[test]
fn the_tables_carry_the_address_of_the_arena() {
    let bytes = qemu_like();
    let map = MemoryMap::from_bytes(&bytes, 4, 48, 2).expect("map");
    let mut arena = Arena::new();
    let address = arena.bytes().as_ptr() as u64;
    let tables = build(arena.bytes(), &map, &PagingConfig::m2()).expect("tables");
    assert_eq!(tables.pml4_phys, address);
    assert_eq!(
        read_entry(arena.bytes(), address, 0),
        (address + PAGE_SIZE) | PRESENT | WRITABLE
    );
}

#[test]
fn build_messages_name_the_values() {
    assert_eq!(
        BuildError::ArenaMisaligned { address: 0x1008 }.to_string(),
        "页表竞技场 0x1008 未按 4096 字节对齐"
    );
    assert_eq!(
        BuildError::ArenaTooSmall { needed: 28672, got: 4096 }.to_string(),
        "页表竞技场过小：需要 28672 字节，实际 4096 字节"
    );
    assert_eq!(BuildError::NoUsableRam.to_string(), "内存图中没有可用的 RAM 区域");
    assert_eq!(
        BuildError::ConfigTooLarge { max_identity_bytes: 9, supported: 8 }.to_string(),
        "映射上限 9 字节超出本实现支持的 8 字节"
    );
    assert_eq!(
        BuildError::FineGrainedTooLarge { fine_grained_bytes: 9, supported: 8 }.to_string(),
        "细粒度区间 9 字节超出本实现支持的 8 字节"
    );
}
