use paranukos::map::{buffer_len, MapError, MemoryKind, MemoryMap, Region, PAGE_SIZE};

///
fn encode(regions: &[(u32, u64, u64)], stride: usize) -> Vec<u8> {
    let mut bytes = vec![0xAAu8; regions.len() * stride];
    for (index, (kind, base, pages)) in regions.iter().enumerate() {
        let offset = index * stride;
        bytes[offset..offset + 4].copy_from_slice(&kind.to_le_bytes());
        bytes[offset + 8..offset + 16].copy_from_slice(&base.to_le_bytes());
        bytes[offset + 24..offset + 32].copy_from_slice(&pages.to_le_bytes());
    }
    bytes
}

#[test]
fn parses_with_the_ovmf_stride_of_48() {
    let bytes = encode(
        &[(7, 0x1000, 0x9F), (2, 0x100000, 8), (0, 0xFE000000, 1)],
        48,
    );
    let map = MemoryMap::from_bytes(&bytes, 3, 48, 2).expect("内存图应可解析");
    assert_eq!(map.len(), 3);
    assert_eq!(map.stride(), 48);
    assert_eq!(map.version(), 2);

    let regions: Vec<Region> = map.iter().collect();
    assert_eq!(
        regions[0],
        Region {
            kind: MemoryKind::Conventional,
            base: 0x1000,
            pages: 0x9F
        }
    );
    assert_eq!(regions[0].end(), 0x1000 + 0x9F * PAGE_SIZE);
    assert_eq!(regions[1].kind, MemoryKind::LoaderData);
    assert_eq!(regions[1].base, 0x100000);
    assert_eq!(regions[2].kind, MemoryKind::Reserved);
    assert_eq!(regions[2].base, 0xFE00_0000);
}

#[test]
fn stride_40_parses_only_when_the_data_really_uses_it() {
    let mut bytes = vec![0u8; 2 * 48];
    bytes[0..4].copy_from_slice(&7u32.to_le_bytes());
    bytes[8..16].copy_from_slice(&0x1000u64.to_le_bytes());
    bytes[24..32].copy_from_slice(&0x9Fu64.to_le_bytes());
    bytes[48..52].copy_from_slice(&2u32.to_le_bytes());
    bytes[56..64].copy_from_slice(&0x200000u64.to_le_bytes());
    bytes[72..80].copy_from_slice(&0x100u64.to_le_bytes());

    let wrong = MemoryMap::from_bytes(&bytes, 2, 40, 2).expect("步长 40 本身合法");
    assert_ne!(
        wrong.get(1).base,
        0x200000,
        "按 40 解析 48 字节描述符必然错位"
    );
    assert_ne!(wrong.get(1).kind, MemoryKind::LoaderData);

    let right = MemoryMap::from_bytes(&bytes, 2, 48, 2).expect("按真实步长解析");
    assert_eq!(right.get(1).base, 0x200000);
    assert_eq!(right.get(1).pages, 0x100);
    assert_eq!(right.get(1).kind, MemoryKind::LoaderData);
}

#[test]
fn rejects_empty_and_short_strides() {
    let bytes = encode(&[(7, 0, 1)], 40);
    assert_eq!(
        MemoryMap::from_bytes(&bytes, 0, 40, 0).unwrap_err(),
        MapError::Empty
    );
    assert_eq!(
        MemoryMap::from_bytes(&bytes, 1, 39, 0).unwrap_err(),
        MapError::StrideTooSmall(39)
    );
    assert_eq!(
        MemoryMap::from_bytes(&bytes, 1, 0, 0).unwrap_err(),
        MapError::StrideTooSmall(0)
    );
    assert_eq!(
        MemoryMap::from_bytes(&bytes, u64::MAX, 40, 0).unwrap_err(),
        MapError::TooLarge {
            entries: u64::MAX,
            stride: 40
        }
    );
}

#[test]
fn rejects_a_truncated_buffer() {
    let bytes = encode(&[(7, 0, 1)], 40);
    assert_eq!(
        MemoryMap::from_bytes(&bytes[..32], 1, 40, 0).unwrap_err(),
        MapError::TooShort {
            needed: 40,
            got: 32
        }
    );
}

#[test]
fn rejects_an_overflowing_descriptor() {
    let bytes = encode(&[(7, 0, 1), (7, u64::MAX - PAGE_SIZE + 1, 4)], 40);
    assert_eq!(
        MemoryMap::from_bytes(&bytes, 2, 40, 0).unwrap_err(),
        MapError::AddressOverflow { index: 1 }
    );
}

#[test]
fn unknown_types_are_not_ram() {
    let kind = MemoryKind::from_raw(200);
    assert_eq!(kind, MemoryKind::Unknown(200));
    assert_eq!(kind.raw(), 200);
    assert!(!kind.is_ram());

    let bytes = encode(&[(200, 0x1000, 4)], 40);
    let map = MemoryMap::from_bytes(&bytes, 1, 40, 0).expect("未知类型不应导致解析失败");
    assert_eq!(map.get(0).kind, MemoryKind::Unknown(200));
    assert_eq!(map.ram_top(), None);
}

#[test]
fn is_ram_covers_exactly_the_documented_types() {
    let ram = [1u32, 2, 3, 4, 5, 6, 7, 9, 10];
    for raw in 0..=15 {
        let expected = ram.contains(&raw);
        assert_eq!(
            MemoryKind::from_raw(raw).is_ram(),
            expected,
            "type {raw} 的 is_ram 判定不对"
        );
        assert_eq!(MemoryKind::from_raw(raw).raw(), raw, "raw 往返必须一致");
    }
}

#[test]
fn ram_top_takes_the_highest_ram_region_and_ignores_non_ram() {
    let bytes = encode(
        &[
            (7, 0x1000, 0x9F),
            (0, 0x100000, 0x1000),
            (7, 0x200000, 0x100),   // 1 MiB
            (11, 0xFEE00000, 0x10),
        ],
        48,
    );
    let map = MemoryMap::from_bytes(&bytes, 4, 48, 2).expect("解析成功");
    assert_eq!(map.ram_top(), Some(0x200000 + 0x100 * PAGE_SIZE));
}

#[test]
fn ram_top_is_none_without_ram() {
    let bytes = encode(&[(0, 0x1000, 1), (11, 0x2000, 1)], 40);
    let map = MemoryMap::from_bytes(&bytes, 2, 40, 0).expect("解析成功");
    assert_eq!(map.ram_top(), None);
}

#[test]
fn buffer_len_checks_overflow_and_stride() {
    assert_eq!(buffer_len(3, 48), Some(144));
    assert_eq!(buffer_len(0, 48), Some(0));
    assert_eq!(buffer_len(3, 39), None);
    assert_eq!(buffer_len(u64::MAX, 40), None);
}

#[test]
fn region_overlap_is_half_open() {
    let region = Region {
        kind: MemoryKind::Conventional,
        base: 0x1000,
        pages: 1,
    };
    assert!(region.overlaps(0, 0x1001));
    assert!(region.overlaps(0x1000, 0x2000));
    assert!(region.overlaps(0x1FFF, 0x3000));
    assert!(!region.overlaps(0, 0x1000), "左端相接不算相交");
    assert!(!region.overlaps(0x2000, 0x3000), "右端相接不算相交");
}

#[test]
fn iterator_reports_exact_size() {
    let bytes = encode(&[(7, 0, 1), (7, 0x1000, 1), (7, 0x2000, 1)], 40);
    let map = MemoryMap::from_bytes(&bytes, 3, 40, 0).expect("解析成功");
    assert_eq!(map.iter().len(), 3);
    assert_eq!(map.iter().collect().len(), 3);
}

#[test]
fn an_index_behind_the_map_gives_an_empty_region() {
    let bytes = encode(&[(7, 0x1000, 1)], 48);
    let map = MemoryMap::from_bytes(&bytes, 1, 48, 0).expect("解析成功");
    let empty = Region { kind: MemoryKind::Reserved, base: 0, pages: 0 };
    assert_eq!(map.get(1), empty);
    assert_eq!(map.get(usize::MAX), empty);
    assert!(!map.is_empty());
}

#[test]
fn a_walk_hands_out_each_region_once() {
    let bytes = encode(&[(7, 0, 1), (2, 0x1000, 2)], 40);
    let map = MemoryMap::from_bytes(&bytes, 2, 40, 0).expect("解析成功");
    let mut walk = map.iter();
    assert_eq!(walk.size_hint(), (2, Some(2)));
    assert_eq!(walk.next(), Some(map.get(0)));
    assert_eq!(walk.len(), 1);
    assert_eq!(walk.next().map(|region| region.byte_len()), Some(8192));
    assert_eq!(walk.next(), None);
    assert_eq!(walk.next(), None);
    assert_eq!(walk.size_hint(), (0, Some(0)));
}

#[test]
fn a_region_may_end_at_the_end_of_the_address_space() {
    let last = u64::MAX - PAGE_SIZE + 1;
    let bytes = encode(&[(7, last - PAGE_SIZE, 1)], 40);
    let map = MemoryMap::from_bytes(&bytes, 1, 40, 0).expect("解析成功");
    assert_eq!(map.ram_top(), Some(last));
    let bytes = encode(&[(7, 0, u64::MAX)], 40);
    assert_eq!(
        MemoryMap::from_bytes(&bytes, 1, 40, 0).unwrap_err(),
        MapError::AddressOverflow { index: 0 }
    );
}

#[test]
fn map_messages_name_the_values() {
    assert_eq!(MapError::Empty.to_string(), "内存图为空（0 条描述符）");
    assert_eq!(
        MapError::StrideTooSmall(39).to_string(),
        "内存描述符步长 39 小于标准长度 40"
    );
    assert_eq!(
        MapError::TooShort { needed: 40, got: 32 }.to_string(),
        "内存图缓冲区过小：需要 40 字节，实际 32 字节"
    );
    assert_eq!(
        MapError::TooLarge { entries: u64::MAX, stride: 40 }.to_string(),
        "内存图过大：18446744073709551615 条 × 40 字节超出地址空间"
    );
    assert_eq!(
        MapError::AddressOverflow { index: 10 }.to_string(),
        "第 10 条内存描述符的结束地址溢出"
    );
}

#[test]
fn nothing_overlaps_an_empty_region() {
    let empty = Region { kind: MemoryKind::Conventional, base: 0x2000, pages: 0 };
    assert!(!empty.overlaps(0x1000, 0x3000));
    assert!(!empty.overlaps(0, u64::MAX));
    let page = Region { kind: MemoryKind::Conventional, base: 0x2000, pages: 1 };
    assert!(!page.overlaps(0x2800, 0x2800));
    assert!(!page.overlaps(0x2900, 0x2800));
    assert!(page.overlaps(0x2FFF, 0x3000));
}
