use paranukos::frame::{
    bitmap_bytes, Config, FrameAllocator, FreeError, InitError, PhysFrame, PhysRange,
    ReservedRange, MAX_RESERVED_RANGES, MIN_FREE_ADDR,
};
use paranukos::map::{MemoryKind, MemoryMap, PAGE_SIZE};

struct Bitmap([u8; 128 * 1024]);

impl Bitmap {
    fn new() -> Self {
        Self([0u8; 128 * 1024])
    }

    fn bytes(&mut self) -> &mut [u8] {
        &mut self.0
    }
}

fn map_of(regions: &[(MemoryKind, u64, u64)]) -> Vec<u8> {
    let stride = 48;
    let mut bytes = vec![0u8; regions.len() * stride];
    for (index, (kind, base, pages)) in regions.iter().enumerate() {
        let offset = index * stride;
        bytes[offset..offset + 4].copy_from_slice(&kind.raw().to_le_bytes());
        bytes[offset + 8..offset + 16].copy_from_slice(&base.to_le_bytes());
        bytes[offset + 24..offset + 32].copy_from_slice(&pages.to_le_bytes());
    }
    bytes
}

const LIMIT: u64 = 16 * 1024 * 1024;

fn default_map() -> Vec<u8> {
    map_of(&[
        (MemoryKind::Conventional, 0x0, 0x9F),
        (MemoryKind::Conventional, 0x100000, 0x700),
        (MemoryKind::Reserved, 0x800000, 0x200),
        (MemoryKind::Conventional, 0xA00000, 0x600),
    ])
}

fn parsed(map_bytes: &[u8]) -> MemoryMap<'_> {
    let entries = (map_bytes.len() / 48) as u64;
    MemoryMap::from_bytes(map_bytes, entries, 48, 2).expect("解析成功")
}

fn allocator<'a>(
    bitmap: &'a mut [u8],
    map_bytes: &'a [u8],
    reserved: &[ReservedRange],
) -> FrameAllocator<'a> {
    let map = parsed(map_bytes);
    FrameAllocator::init(bitmap, &map, reserved, &Config::new(LIMIT)).expect("初始化成功")
}

#[test]
fn bit_is_one_for_used_and_zero_for_free() {
    let map_bytes = default_map();
    let mut bitmap = Bitmap::new();
    let mut frames = allocator(bitmap.bytes(), &map_bytes, &[]);
    assert_eq!(frames.stats().managed, 3840);
    assert_eq!(frames.stats().free, 3328);

    let first = frames.allocate().expect("应有空闲页帧");
    assert_eq!(first.address, 0x100000);
    assert_eq!(frames.stats().free, 3327);
    assert_eq!(frames.allocate().expect("应有空闲页帧").address, 0x101000);

    frames.free(first).expect("释放成功");
    assert_eq!(frames.stats().free, 3327);
    assert_eq!(frames.allocate().expect("应有空闲页帧").address, 0x100000);
}

#[test]
fn reserved_ranges_are_never_handed_out() {
    let map_bytes = default_map();
    let mut bitmap = Bitmap::new();
    let reserved = [ReservedRange::new(0x100000, 0x200000)];
    let frames = allocator(bitmap.bytes(), &map_bytes, &reserved);

    assert_eq!(frames.stats().free, 3328 - 256);
    assert_eq!(frames.reserved_ranges().len(), 1);
    assert_eq!(
        frames.first_free_in(0x100000, 0x200000),
        None,
        "保留区间内不得有任何空闲页帧"
    );
    assert_eq!(
        frames.first_free_in(0x200000, 0x201000),
        Some(PhysFrame::new(0x200000))
    );

    let mut frames = frames;
    assert_eq!(frames.allocate().expect("应有空闲页帧").address, 0x200000);
    assert_eq!(
        frames.allocate().expect("应有空闲页帧").address,
        0x201000,
        "保留区必须被整段跳过"
    );
}

#[test]
fn free_refuses_frames_outside_the_allocatable_set() {
    let map_bytes = map_of(&[
        (MemoryKind::Conventional, 0x100000, 0x100),
        (MemoryKind::LoaderData, 0x200000, 0x100),
    ]);
    let mut bitmap = Bitmap::new();
    let mut frames = allocator(bitmap.bytes(), &map_bytes, &[]);
    assert_eq!(
        frames.free(PhysFrame::new(0x200000)),
        Err(FreeError::NotManaged(0x200000))
    );
    assert_eq!(
        frames.free(PhysFrame::new(0x300000)),
        Err(FreeError::NotManaged(0x300000)),
        "内存图里根本没有的地址同样不可释放"
    );
    assert_eq!(frames.stats().free, 0x100, "只有 conventional 那一批可发放");
}

#[test]
fn only_conventional_memory_is_handed_out() {
    let map_bytes = map_of(&[
        (MemoryKind::Conventional, 0x100000, 0x100),
        (MemoryKind::LoaderData, 0x200000, 0x100),
        (MemoryKind::BootServicesData, 0x300000, 0x100),
        (MemoryKind::AcpiReclaim, 0x400000, 0x100),
    ]);
    let mut bitmap = Bitmap::new();
    let frames = allocator(bitmap.bytes(), &map_bytes, &[]);
    assert_eq!(
        frames.stats().free,
        0x100,
        "只有 Conventional 的那 256 帧空闲"
    );
    assert_eq!(frames.first_free_in(0x200000, 0x500000), None);
}

#[test]
fn frames_below_one_mib_are_not_managed() {
    let map_bytes = map_of(&[(MemoryKind::Conventional, 0x1000, 0x9F)]);
    let map = parsed(&map_bytes);
    let mut bitmap = Bitmap::new();
    assert_eq!(
        FrameAllocator::init(bitmap.bytes(), &map, &[], &Config::new(LIMIT)).unwrap_err(),
        InitError::NoUsableMemory
    );
}

#[test]
fn rejects_a_map_without_conventional_memory() {
    let map_bytes = map_of(&[(MemoryKind::LoaderData, 0x100000, 0x100)]);
    let mut bitmap = Bitmap::new();
    let map = parsed(&map_bytes);
    assert_eq!(
        FrameAllocator::init(bitmap.bytes(), &map, &[], &Config::new(LIMIT)).unwrap_err(),
        InitError::NoUsableMemory
    );
}

#[test]
fn rejects_a_small_bitmap_and_reports_the_need() {
    let map_bytes = default_map();
    let map = parsed(&map_bytes);
    let mut bitmap = Bitmap::new();
    assert_eq!(
        FrameAllocator::init(&mut bitmap.bytes()[..479], &map, &[], &Config::new(LIMIT))
            .unwrap_err(),
        InitError::BitmapTooSmall {
            needed: 960,
            got: 479
        }
    );
}

#[test]
fn rejects_too_many_and_empty_ranges() {
    let map_bytes = default_map();
    let map = parsed(&map_bytes);
    let mut bitmap = Bitmap::new();
    let many = [ReservedRange::new(0, PAGE_SIZE); MAX_RESERVED_RANGES + 1];
    assert_eq!(
        FrameAllocator::init(bitmap.bytes(), &map, &many, &Config::new(LIMIT)).unwrap_err(),
        InitError::TooManyReservedRanges {
            count: MAX_RESERVED_RANGES + 1
        }
    );

    let mut bitmap = Bitmap::new();
    assert_eq!(
        FrameAllocator::init(
            bitmap.bytes(),
            &map,
            &[],
            &Config {
                managed_start: 0x200000,
                limit: 0x200000
            }
        )
        .unwrap_err(),
        InitError::EmptyRange {
            managed_start: 0x200000,
            limit: 0x200000
        }
    );
}

#[test]
fn contiguous_allocation_skips_fragments() {
    let map_bytes = map_of(&[
        (MemoryKind::Conventional, 0x100000, 0x10), // 1MiB..1MiB+64KiB
        (MemoryKind::Reserved, 0x110000, 0x10),
        (MemoryKind::Conventional, 0x200000, 0x100),
    ]);
    let mut bitmap = Bitmap::new();
    let map = parsed(&map_bytes);
    let mut frames =
        FrameAllocator::init(bitmap.bytes(), &map, &[], &Config::new(LIMIT)).expect("初始化");

    let range = frames.alloc_contiguous(20).expect("第二段有 256 帧连续");
    assert_eq!(range.start, 0x200000);
    assert_eq!(range.len, 20 * PAGE_SIZE);
    assert_eq!(range.frames(), 20);
    assert!(range.contains(0x200000));
    assert!(!range.contains(range.end()));
    assert_eq!(frames.allocate().expect("第一段还有空闲").address, 0x100000);

    assert!(frames.alloc_contiguous(4096).is_none());
    assert!(frames.alloc_contiguous(0).is_none());
}

#[test]
fn free_reports_not_managed_already_free_and_reserved() {
    let map_bytes = map_of(&[(MemoryKind::Conventional, 0x100000, 0x100)]);
    let mut bitmap = Bitmap::new();
    let reserved = [ReservedRange::new(0x104000, 0x105000)];
    let mut frames = allocator(bitmap.bytes(), &map_bytes, &reserved);

    assert_eq!(
        frames.free(PhysFrame::new(0x500000)),
        Err(FreeError::NotManaged(0x500000))
    );
    assert_eq!(
        frames.free(PhysFrame::new(0x100001)),
        Err(FreeError::NotManaged(0x100001)),
        "非页对齐地址不属于任何页帧"
    );
    assert_eq!(
        frames.free(PhysFrame::new(0x104000)),
        Err(FreeError::Reserved(0x104000))
    );

    let frame = frames.allocate().expect("应有空闲页帧");
    assert_eq!(frame.address, 0x100000);
    frames.free(frame).expect("释放成功");
    assert_eq!(
        frames.free(frame),
        Err(FreeError::AlreadyFree(0x100000)),
        "重复释放必须被发现"
    );
}

#[test]
fn the_bitmaps_cover_every_managed_frame_exactly_once() {
    let map_bytes = map_of(&[(MemoryKind::Conventional, 0x100000, 0x123)]);
    let mut bitmap = Bitmap::new();
    let frames = allocator(bitmap.bytes(), &map_bytes, &[]);
    let managed = frames.stats().managed;
    assert_eq!(managed, 3840, "受管理区间是 [1 MiB, 16 MiB)，与内存图无关");
    assert_eq!(frames.stats().free, 0x123, "只有那 0x123 帧是 conventional");
    assert_eq!(bitmap_bytes(managed), 2 * (managed as usize).div_ceil(8));

    let beyond = 0x100000u64 + managed * PAGE_SIZE;
    assert_eq!(
        frames.frame_index(beyond),
        None,
        "受管理区间之上的地址不属于分配器"
    );

    let valid_bits = managed % 8;
    if valid_bits != 0 {
        let last_byte = ((managed - 1) / 8) as usize;
        let mask = !((1u8 << valid_bits) - 1);
        assert_eq!(
            frames.allocatable[last_byte] & mask,
            0,
            "尾部多余位不得可发放"
        );
        assert_eq!(
            frames.used[last_byte] & mask,
            mask,
            "尾部多余位必须视为已占用"
        );
    }
}

#[test]
fn config_and_range_helpers() {
    let config = Config::new(LIMIT);
    assert_eq!(config.managed_start, MIN_FREE_ADDR);
    assert_eq!(config.limit, LIMIT);
    let range = PhysRange {
        start: 0x1000,
        len: 3 * PAGE_SIZE,
    };
    assert_eq!(range.end(), 0x1000 + 3 * PAGE_SIZE);
    assert_eq!(range.frames(), 3);
    let reserved = ReservedRange::new(0x1000, 0x2000);
    assert!(reserved.overlaps(0, 0x1001));
    assert!(!reserved.overlaps(0x2000, 0x3000));
    assert!(!reserved.is_empty());
    assert!(ReservedRange::new(0x1000, 0x1000).is_empty());
}

#[test]
fn partly_covered_frames_are_not_handed_out() {
    // The region starts and ends inside a frame: only the whole frames between count.
    let stride = 48;
    let mut map_bytes = vec![0u8; stride];
    map_bytes[0..4].copy_from_slice(&7u32.to_le_bytes());
    map_bytes[8..16].copy_from_slice(&0x100800u64.to_le_bytes());
    map_bytes[24..32].copy_from_slice(&3u64.to_le_bytes());
    let mut bitmap = Bitmap::new();
    let mut frames = allocator(bitmap.bytes(), &map_bytes, &[]);
    assert_eq!(frames.stats().free, 2);
    assert_eq!(frames.allocate(), Some(PhysFrame::new(0x101000)));
    assert_eq!(frames.allocate(), Some(PhysFrame::new(0x102000)));
    assert_eq!(frames.allocate(), None);
}

#[test]
fn overlapping_regions_are_counted_once() {
    let map_bytes = map_of(&[
        (MemoryKind::Conventional, 0x100000, 0x10),
        (MemoryKind::Conventional, 0x108000, 0x10),
    ]);
    let mut bitmap = Bitmap::new();
    let frames = allocator(bitmap.bytes(), &map_bytes, &[]);
    assert_eq!(frames.stats().free, 0x18);
}

#[test]
fn a_reserved_byte_keeps_its_frame() {
    let map_bytes = map_of(&[(MemoryKind::Conventional, 0x100000, 4)]);
    let mut bitmap = Bitmap::new();
    let reserved = [ReservedRange::new(0x100FFF, 0x101001)];
    let mut frames = allocator(bitmap.bytes(), &map_bytes, &reserved);
    assert_eq!(frames.stats().free, 2);
    assert_eq!(frames.allocate(), Some(PhysFrame::new(0x102000)));
    assert_eq!(
        frames.free(PhysFrame::new(0x101000)),
        Err(FreeError::Reserved(0x101000))
    );
    assert_eq!(frames.reserved_ranges(), reserved);
}

#[test]
fn allocations_never_repeat_until_they_are_freed() {
    let map_bytes = map_of(&[(MemoryKind::Conventional, 0x100000, 20)]);
    let mut bitmap = Bitmap::new();
    let mut frames = allocator(bitmap.bytes(), &map_bytes, &[]);
    let mut taken = Vec::new();
    while let Some(frame) = frames.allocate() {
        assert!(!taken.contains(&frame));
        taken.push(frame);
    }
    assert_eq!(taken.len(), 20);
    assert_eq!(frames.stats().free, 0);
    for frame in &taken {
        assert_eq!(frames.free(*frame), Ok(()));
    }
    assert_eq!(frames.stats().free, 20);
    assert_eq!(frames.allocate(), Some(taken[0]));
    assert_eq!(
        frames.alloc_contiguous(19),
        Some(PhysRange { start: 0x101000, len: 19 * PAGE_SIZE })
    );
    assert_eq!(frames.alloc_contiguous(1), None);
}

#[test]
fn a_refused_bitmap_is_left_alone() {
    let map_bytes = default_map();
    let map = parsed(&map_bytes);
    let mut small = [0x5Au8; 100];
    assert!(FrameAllocator::init(&mut small, &map, &[], &Config::new(LIMIT)).is_err());
    assert_eq!(small, [0x5Au8; 100]);
}

#[test]
fn low_memory_is_never_handed_out() {
    let map_bytes = map_of(&[(MemoryKind::Conventional, 0x1000, 0x1FF)]);
    let map = parsed(&map_bytes);
    let mut bitmap = [0u8; 128];
    let config = Config { managed_start: 0, limit: 0x200000 };
    let mut frames = FrameAllocator::init(&mut bitmap, &map, &[], &config).expect("frames");
    assert_eq!(frames.stats().managed, 512);
    assert_eq!(frames.stats().free, 256);
    assert_eq!(frames.first_free_in(0, MIN_FREE_ADDR), None);
    assert_eq!(frames.allocate(), Some(PhysFrame::new(0x100000)));
    assert_eq!(
        frames.free(PhysFrame::new(0x2000)),
        Err(FreeError::NotManaged(0x2000))
    );

    let map_bytes = map_of(&[(MemoryKind::Conventional, 0x1000, 0xFF)]);
    let map = parsed(&map_bytes);
    assert_eq!(
        FrameAllocator::init(&mut bitmap, &map, &[], &config).err(),
        Some(InitError::NoUsableMemory)
    );
}

#[test]
fn empty_ranges_reserve_nothing() {
    let empty = ReservedRange::new(0x100800, 0x100800);
    assert!(!empty.overlaps(0x100000, 0x101000));
    assert!(!ReservedRange::new(0x100900, 0x100800).overlaps(0x100000, 0x101000));
    let page = ReservedRange::new(0x100000, 0x101000);
    assert!(!page.overlaps(0x100800, 0x100800));
    assert!(!page.overlaps(0x101000, 0x102000));
    assert!(!page.overlaps(0xFF000, 0x100000));
    assert!(page.overlaps(0x100FFF, 0x101000));

    let map_bytes = default_map();
    let mut bitmap = Bitmap::new();
    let mut frames = allocator(bitmap.bytes(), &map_bytes, &[empty]);
    assert_eq!(frames.allocate(), Some(PhysFrame::new(0x100000)));
}

#[test]
fn the_bitmaps_lie_in_the_buffer() {
    // 3840 frames: 480 bytes for each bitmap.
    let map_bytes = map_of(&[(MemoryKind::Reserved, 0x100000, 0x700)]);
    let map = parsed(&map_bytes);
    let mut buffer = vec![0x5Au8; 1000];
    assert_eq!(
        FrameAllocator::init(&mut buffer, &map, &[], &Config::new(LIMIT)).err(),
        Some(InitError::NoUsableMemory)
    );
    assert!(buffer[..480].iter().all(|byte| *byte == 0x00));
    assert!(buffer[480..960].iter().all(|byte| *byte == 0xFF));
    assert!(buffer[960..].iter().all(|byte| *byte == 0x5A));

    let map_bytes = map_of(&[(MemoryKind::Conventional, 0x100000, 0x0A)]);
    let map = parsed(&map_bytes);
    let mut frames =
        FrameAllocator::init(&mut buffer, &map, &[], &Config::new(LIMIT)).expect("frames");
    assert_eq!(frames.allocate(), Some(PhysFrame::new(0x100000)));
    assert_eq!(buffer[..3], [0xFF, 0x03, 0x00]);
    assert_eq!(buffer[480..483], [0x01, 0xFC, 0xFF]);
    assert!(buffer[960..].iter().all(|byte| *byte == 0x5A));
}

#[test]
fn first_free_in_finds_frames_that_overlap_the_range() {
    let map_bytes = map_of(&[(MemoryKind::Conventional, 0x100000, 4)]);
    let mut bitmap = Bitmap::new();
    let frames = allocator(bitmap.bytes(), &map_bytes, &[]);
    assert_eq!(frames.first_free_in(0, u64::MAX), Some(PhysFrame::new(0x100000)));
    assert_eq!(frames.first_free_in(0x101FFF, 0x102001), Some(PhysFrame::new(0x101000)));
    assert_eq!(frames.first_free_in(0x104000, 0x200000), None);
    assert_eq!(frames.first_free_in(0x101000, 0x101000), None);
    assert_eq!(frames.first_free_in(0x101800, 0x101800), None);
    assert_eq!(frames.first_free_in(0x101900, 0x101800), None);
}

#[test]
fn frame_messages_name_the_values() {
    assert_eq!(
        InitError::BitmapTooSmall { needed: 960, got: 479 }.to_string(),
        "页帧位图过小：需要 960 字节，实际 479 字节"
    );
    assert_eq!(
        InitError::TooManyReservedRanges { count: 9 }.to_string(),
        "保留区间过多：9 个，上限 8 个"
    );
    assert_eq!(
        InitError::EmptyRange { managed_start: 0x200000, limit: 0x1FF000 }.to_string(),
        "受管理的物理区间非法：0x200000..0x1FF000"
    );
    assert_eq!(
        InitError::NoUsableMemory.to_string(),
        "没有任何可发放的 EfiConventionalMemory 页帧"
    );
    assert_eq!(
        FreeError::NotManaged(0xABC000).to_string(),
        "页帧 0xABC000 不在受管理区间内"
    );
    assert_eq!(FreeError::AlreadyFree(0x1000).to_string(), "页帧 0x1000 重复释放");
    assert_eq!(
        FreeError::Reserved(0x1000).to_string(),
        "页帧 0x1000 位于保留区间内，不可释放"
    );
}
