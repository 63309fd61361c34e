use paranukos::heap::{
    read_header, write_header, FreeList, FreeListError, HeapStats, HEADER_ALIGN, HEADER_SIZE,
    MAGIC_ALLOC, MAGIC_FREE, MAX_ALIGN, MIN_BLOCK, NONE,
};

const ARENA_LEN: usize = 16 * 1024;

struct Arena([u8; 16 * 1024]);

impl Arena {
    fn new() -> Self {
        Self([0u8; 16 * 1024])
    }

    fn bytes(&mut self) -> &mut [u8] {
        &mut self.0
    }
}

struct BigArena([u8; 64 * 1024]);

impl BigArena {
    fn new() -> Self {
        Self([0u8; 64 * 1024])
    }

    fn bytes(&mut self) -> &mut [u8] {
        &mut self.0
    }
}

fn assert_free_list_is_sane(arena: &[u8], list: &FreeList) {
    let mut previous_end = 0usize;
    let mut current = list.head();
    let mut blocks = 0usize;
    let mut bytes = 0usize;
    let mut largest = 0usize;
    while current != NONE {
        let (magic, size, next) = read_header(arena, current).expect("块头可读");
        assert_eq!(magic, MAGIC_FREE, "空闲块 magic 不对");
        assert!(size >= HEADER_SIZE, "空闲块连块头都装不下");
        assert!(current + size <= list.arena_len(), "空闲块越界");
        assert_eq!(current % HEADER_ALIGN, 0, "空闲块起点必须满足块头对齐");
        assert!(current >= previous_end, "空闲块未按地址序排列或相互重叠");
        previous_end = current + size;
        blocks += 1;
        bytes += size - HEADER_SIZE;
        largest = largest.max(size - HEADER_SIZE);
        current = next;
        assert!(blocks <= list.max_blocks(), "链表疑似成环");
    }
    assert_eq!(list.stats().free_blocks, blocks);
    assert_eq!(list.stats().free_bytes, bytes);
    assert_eq!(list.stats().largest_free, largest);
}

#[test]
fn init_creates_one_free_block_covering_the_arena() {
    let mut arena = Arena::new();
    let list = FreeList::init(arena.bytes());
    assert!(!list.is_empty());
    assert_eq!(list.arena_len(), ARENA_LEN);
    assert_eq!(list.stats().free_blocks, 1);
    assert_eq!(list.stats().free_bytes, ARENA_LEN - HEADER_SIZE);
    assert_eq!(list.stats().largest_free, ARENA_LEN - HEADER_SIZE);
    assert_free_list_is_sane(arena.bytes(), &list);
}

#[test]
fn a_tiny_arena_is_refused() {
    let mut arena = Arena::new();
    let mut list = FreeList::init(&mut arena.bytes()[..MIN_BLOCK - 1]);
    assert!(list.is_empty());
    assert_eq!(list.arena_len(), 0);
    assert_eq!(list.allocate(arena.bytes(), 8, 8), None);
}

#[test]
fn allocations_are_disjoint_inside_the_arena_and_shaped_like_their_request() {
    let mut arena = Arena::new();
    let mut list = FreeList::init(arena.bytes());
    let mut taken: Vec<(usize, usize)> = Vec::new();
    for index in 0..32usize {
        let size = 1 + index * 7 % 257;
        let offset = list.allocate(arena.bytes(), size, 8).expect("应当分配成功");
        assert_eq!(offset % HEADER_ALIGN, 0);
        assert!(offset >= HEADER_SIZE && offset + size <= list.arena_len());
        for (start, end) in &taken {
            assert!(
                offset + size <= *start || *end <= offset,
                "分配区间不得重叠"
            );
        }
        taken.push((offset, offset + size));
        assert_free_list_is_sane(arena.bytes(), &list);
    }
    assert_eq!(list.stats().free_blocks, 1);

    let (freed, freed_end) = taken[5];
    let freed_size = freed_end - freed;
    list.dealloc(arena.bytes(), freed).expect("释放成功");
    assert_eq!(list.stats().free_blocks, 2);
    assert_free_list_is_sane(arena.bytes(), &list);
    let again = list.allocate(arena.bytes(), freed_size, 8).expect("分配成功");
    assert_eq!(again, freed, "地址更低的空闲块应当被首次匹配选中");
}

#[test]
fn a_freed_block_is_reused_by_the_next_allocation() {
    let mut arena = Arena::new();
    let mut list = FreeList::init(arena.bytes());
    let first = list.allocate(arena.bytes(), 64, 8).expect("分配成功");
    let second = list.allocate(arena.bytes(), 64, 8).expect("分配成功");
    list.dealloc(arena.bytes(), first).expect("释放成功");
    let again = list.allocate(arena.bytes(), 64, 8).expect("分配成功");
    assert_eq!(again, first, "首次匹配应当复用刚释放的块");
    assert_ne!(again, second);
    assert_free_list_is_sane(arena.bytes(), &list);
}

#[test]
fn freeing_everything_coalesces_back_to_one_block() {
    let mut arena = Arena::new();
    let mut list = FreeList::init(arena.bytes());
    let mut offsets = Vec::new();
    for index in 0..16usize {
        offsets.push(list.allocate(arena.bytes(), 100 + index, 8).expect("分配成功"));
    }
    for offset in offsets {
        list.dealloc(arena.bytes(), offset).expect("释放成功");
    }
    assert_eq!(
        list.stats(),
        HeapStats {
            free_blocks: 1,
            free_bytes: ARENA_LEN - HEADER_SIZE,
            largest_free: ARENA_LEN - HEADER_SIZE,
        },
        "全部释放后必须合并回单个空闲块，且不丢字节"
    );
    assert_free_list_is_sane(arena.bytes(), &list);
}

#[test]
fn out_of_order_frees_still_coalesce_completely() {
    let mut arena = Arena::new();
    let mut list = FreeList::init(arena.bytes());
    let mut offsets = Vec::new();
    for _ in 0..8 {
        offsets.push(list.allocate(arena.bytes(), 300, 8).expect("分配成功"));
    }
    for index in [3usize, 1, 5, 0, 7, 2, 6, 4] {
        list.dealloc(arena.bytes(), offsets[index])
            .expect("释放成功");
    }
    assert_eq!(list.stats().free_blocks, 1);
    assert_eq!(list.stats().free_bytes, ARENA_LEN - HEADER_SIZE);
    assert_free_list_is_sane(arena.bytes(), &list);
}

#[test]
fn over_aligned_allocations_are_aligned_and_recoverable() {
    let mut arena = Arena::new();
    let mut list = FreeList::init(arena.bytes());
    let _ = list.allocate(arena.bytes(), 8, 8).expect("分配成功");
    for align in [16usize, 32, 64, 256, 4096] {
        let offset = list.allocate(arena.bytes(), 24, align).expect("分配成功");
        assert_eq!(offset % align, 0, "负载必须满足请求的对齐");
        assert_eq!(offset % HEADER_ALIGN, 0, "负载必须满足块头对齐");
        let (magic, size, _) = read_header(arena.bytes(), offset - HEADER_SIZE).expect("块头");
        assert_eq!(magic, MAGIC_ALLOC);
        assert!(offset - HEADER_SIZE + size <= list.arena_len());
        list.dealloc(arena.bytes(), offset).expect("释放成功");
        assert_free_list_is_sane(arena.bytes(), &list);
    }
}

#[test]
fn dealloc_does_not_need_the_original_layout() {
    let mut arena = Arena::new();
    let mut list = FreeList::init(arena.bytes());
    let offset = list.allocate(arena.bytes(), 37, 16).expect("分配成功");
    list.dealloc(arena.bytes(), offset).expect("释放成功");
    assert_eq!(list.stats().free_blocks, 1);
}

#[test]
fn double_free_is_detected() {
    let mut arena = Arena::new();
    let mut list = FreeList::init(arena.bytes());
    let offset = list.allocate(arena.bytes(), 64, 8).expect("分配成功");
    list.dealloc(arena.bytes(), offset).expect("首次释放成功");
    assert_eq!(
        list.dealloc(arena.bytes(), offset),
        Err(FreeListError::AlreadyFree { offset })
    );
}

#[test]
fn bogus_pointers_are_rejected() {
    let mut arena = Arena::new();
    let mut list = FreeList::init(arena.bytes());
    let offset = list.allocate(arena.bytes(), 64, 8).expect("分配成功");

    assert_eq!(
        list.dealloc(arena.bytes(), 3),
        Err(FreeListError::OutOfArena { offset: 3 })
    );
    assert_eq!(
        list.dealloc(arena.bytes(), ARENA_LEN),
        Err(FreeListError::OutOfArena { offset: ARENA_LEN })
    );
    assert_eq!(
        list.dealloc(arena.bytes(), offset + 1),
        Err(FreeListError::OutOfArena { offset: offset + 1 })
    );
    assert_eq!(
        list.dealloc(arena.bytes(), list.head() + HEADER_SIZE),
        Err(FreeListError::AlreadyFree {
            offset: list.head() + HEADER_SIZE
        })
    );
    list.dealloc(arena.bytes(), offset)
        .expect("正常释放仍然可用");
}

#[test]
fn exhausted_heap_returns_none_instead_of_wrapping() {
    let mut arena = Arena::new();
    let mut list = FreeList::init(arena.bytes());
    assert!(list.allocate(arena.bytes(), ARENA_LEN, 8).is_none());
    assert!(
        list.allocate(arena.bytes(), ARENA_LEN - HEADER_SIZE, 8)
            .is_some()
    );
    assert!(list.allocate(arena.bytes(), 1, 8).is_none(), "已经用光了");
}

#[test]
fn invalid_requests_are_refused() {
    let mut arena = Arena::new();
    let mut list = FreeList::init(arena.bytes());
    assert_eq!(list.allocate(arena.bytes(), 0, 8), None, "size 0 非法");
    assert_eq!(list.allocate(arena.bytes(), 16, 3), None, "对齐必须是 2 的幂");
    assert_eq!(
        list.allocate(arena.bytes(), 16, MAX_ALIGN * 2),
        None,
        "对齐过大"
    );
    let mut other = [0u8; 8192];
    assert_eq!(list.allocate(&mut other, 16, 8), None);
    assert_eq!(
        list.dealloc(&mut other, HEADER_SIZE),
        Err(FreeListError::OutOfArena {
            offset: HEADER_SIZE
        })
    );
}

#[test]
fn many_blocks_of_varying_sizes_keep_the_invariants() {
    let mut arena = BigArena::new();
    let mut list = FreeList::init(arena.bytes());
    let sizes = [16usize, 33, 64, 129, 256, 1025, 4096, 7];
    let mut live: Vec<Option<usize>> = Vec::new();
    for index in 0..64usize {
        let size = sizes[index % sizes.len()];
        let offset = list.allocate(arena.bytes(), size, 8);
        assert!(offset.is_some(), "第 {index} 次分配失败");
        live.push(offset);
    }
    for index in (0..64).step_by(2) {
        let offset = live[index].take().expect("存活块");
        list.dealloc(arena.bytes(), offset).expect("释放成功");
    }
    for index in (0..64).step_by(2) {
        let size = sizes[index % sizes.len()];
        live[index] = list.allocate(arena.bytes(), size, 8);
        assert!(live[index].is_some(), "第 {index} 次替换分配失败");
    }
    assert_free_list_is_sane(arena.bytes(), &list);
    for offset in live.into_iter().flatten() {
        list.dealloc(arena.bytes(), offset).expect("释放成功");
    }
    assert_eq!(list.stats().free_blocks, 1, "全部释放后应当只剩一个空闲块");
    assert_eq!(list.stats().free_bytes, 64 * 1024 - HEADER_SIZE);
    assert_free_list_is_sane(arena.bytes(), &list);
}

#[test]
fn largest_free_tracks_the_biggest_block() {
    let mut arena = Arena::new();
    let mut list = FreeList::init(arena.bytes());
    let before = list.stats().largest_free;
    let offset = list.allocate(arena.bytes(), 4096, 8).expect("分配成功");
    assert!(list.stats().largest_free <= before);
    list.dealloc(arena.bytes(), offset).expect("释放成功");
    assert_eq!(list.stats().largest_free, before);
}

#[test]
fn live_payloads_survive_everything_around_them() {
    let mut arena = Arena::new();
    let mut list = FreeList::init(arena.bytes());
    let mut live = Vec::new();
    for index in 0..24usize {
        let size = 1 + index * 31 % 200;
        let align = 1usize << (index % 8);
        let offset = list.allocate(arena.bytes(), size, align).expect("room");
        assert_eq!(offset % align, 0);
        arena.bytes()[offset..offset + size].fill(index as u8 + 1);
        live.push((offset, size, index as u8 + 1));
    }
    for index in [20usize, 3, 4, 11, 0] {
        let (offset, _, _) = live.remove(index.min(live.len() - 1));
        assert_eq!(list.dealloc(arena.bytes(), offset), Ok(()));
        assert_free_list_is_sane(arena.bytes(), &list);
        for (offset, size, pattern) in &live {
            assert!(arena.bytes()[*offset..*offset + *size].iter().all(|byte| byte == pattern));
        }
    }
    for (offset, _, _) in live {
        assert_eq!(list.dealloc(arena.bytes(), offset), Ok(()));
    }
    assert_eq!(list.stats().free_blocks, 1);
    assert_eq!(list.stats().free_bytes, ARENA_LEN - HEADER_SIZE);
}

#[test]
fn a_small_front_gap_is_widened_to_a_block() {
    let mut arena = Arena::new();
    let mut list = FreeList::init(arena.bytes());
    // The lowest payload is at 24; with alignment 32 the gap of 8 is too small for a block.
    let offset = list.allocate(arena.bytes(), 8, 32).expect("room");
    assert_eq!(offset, 64);
    assert_eq!(read_header(arena.bytes(), 0), Some((MAGIC_FREE, 40, 72)));
    assert_eq!(read_header(arena.bytes(), 40), Some((MAGIC_ALLOC, 32, NONE)));
    assert_eq!(
        read_header(arena.bytes(), 72),
        Some((MAGIC_FREE, ARENA_LEN - 72, NONE))
    );
    assert_eq!(list.head(), 0);
    assert_eq!(list.stats().free_blocks, 2);
}

#[test]
fn a_small_tail_stays_with_the_allocation() {
    let mut arena = [0u8; 128];
    let mut list = FreeList::init(&mut arena);
    assert_eq!(list.allocate(&mut arena, 72, 8), Some(24));
    assert_eq!(read_header(&arena, 0), Some((MAGIC_ALLOC, 128, NONE)));
    // The heap is exhausted, but it has an arena.
    assert!(!list.is_empty());
    assert_eq!(list.stats(), HeapStats::default());
    assert_eq!(list.dealloc(&mut arena, 24), Ok(()));
    assert_eq!(list.stats().free_bytes, 104);
}

#[test]
fn double_frees_are_noticed_after_merging() {
    let mut arena = Arena::new();
    let mut list = FreeList::init(arena.bytes());
    let first = list.allocate(arena.bytes(), 64, 8).expect("room");
    let second = list.allocate(arena.bytes(), 64, 8).expect("room");
    let third = list.allocate(arena.bytes(), 64, 8).expect("room");
    assert_eq!(list.dealloc(arena.bytes(), first), Ok(()));
    assert_eq!(list.dealloc(arena.bytes(), second), Ok(()));
    assert_eq!(
        list.dealloc(arena.bytes(), second),
        Err(FreeListError::AlreadyFree { offset: second })
    );
    assert_eq!(list.dealloc(arena.bytes(), third), Ok(()));
    for offset in [first, second, third] {
        assert_eq!(
            list.dealloc(arena.bytes(), offset),
            Err(FreeListError::AlreadyFree { offset })
        );
    }
    assert_eq!(list.stats().free_blocks, 1);
}

#[test]
fn an_old_header_inside_a_live_payload_is_not_freed() {
    let mut arena = [0u8; 256];
    let mut list = FreeList::init(&mut arena);
    assert_eq!(list.allocate(&mut arena, 8, 8), Some(24));
    assert_eq!(list.allocate(&mut arena, 8, 8), Some(56));
    assert_eq!(list.dealloc(&mut arena, 24), Ok(()));
    assert_eq!(list.dealloc(&mut arena, 56), Ok(()));
    assert_eq!(list.allocate(&mut arena, 64, 8), Some(24));
    assert_eq!(read_header(&arena, 32).map(|header| header.0), Some(MAGIC_ALLOC));

    let (before, bytes) = (list, arena);
    assert_eq!(
        list.dealloc(&mut arena, 56),
        Err(FreeListError::NotAllocated { offset: 56 })
    );
    // Bytes that look like a header do not help either.
    for offset in (0..256).step_by(8).filter(|offset| *offset != 24) {
        assert!(list.dealloc(&mut arena, offset).is_err());
    }
    assert_eq!((list, arena), (before, bytes));
    assert_eq!(list.dealloc(&mut arena, 24), Ok(()));
    assert_eq!(list.stats().free_blocks, 1);
}

#[test]
fn a_damaged_block_in_front_does_not_keep_a_sound_one() {
    for (magic, size) in [(0, 32), (MAGIC_ALLOC, 16), (MAGIC_ALLOC, 264)] {
        let mut arena = [0u8; 256];
        let mut list = FreeList::init(&mut arena);
        let first = list.allocate(&mut arena, 8, 8).expect("room");
        let second = list.allocate(&mut arena, 8, 8).expect("room");
        write_header(&mut arena, 0, magic, size, NONE);
        assert!(list.dealloc(&mut arena, first).is_err());
        assert_eq!(list.dealloc(&mut arena, second), Ok(()));
        assert_eq!(list.stats().free_blocks, 1);
        assert_eq!(list.stats().free_bytes, 256 - 32 - HEADER_SIZE);
        assert_eq!(
            list.dealloc(&mut arena, second),
            Err(FreeListError::AlreadyFree { offset: second })
        );
    }
}

#[test]
fn merging_with_a_small_block_in_front_can_only_hurt_large_alignments() {
    // A free block of 32 bytes in front of a payload at 128 that ends with the arena.
    for (align, again) in [(8, Some(96)), (32, Some(96)), (64, None)] {
        let mut arena = [0u8; 168];
        let mut list = FreeList::init(&mut arena);
        assert_eq!(list.allocate(&mut arena, 48, 8), Some(24));
        assert_eq!(list.allocate(&mut arena, 8, 8), Some(96));
        assert_eq!(list.allocate(&mut arena, 40, align), Some(128));
        list.dealloc(&mut arena, 96).expect("live");
        list.dealloc(&mut arena, 128).expect("live");
        assert_eq!(list.allocate(&mut arena, 40, align), again);
    }
    // With a block of 40 bytes in front every alignment that fitted still fits.
    let mut arena = [0u8; 168];
    let mut list = FreeList::init(&mut arena);
    assert_eq!(list.allocate(&mut arena, 40, 8), Some(24));
    assert_eq!(list.allocate(&mut arena, 16, 8), Some(88));
    assert_eq!(list.allocate(&mut arena, 40, 64), Some(128));
    list.dealloc(&mut arena, 88).expect("live");
    list.dealloc(&mut arena, 128).expect("live");
    assert_eq!(list.allocate(&mut arena, 40, 64), Some(128));
}

#[test]
fn damaged_metadata_is_refused() {
    // A free block that claims to leave the arena.
    let mut arena = [0u8; 256];
    let mut list = FreeList::init(&mut arena);
    let offset = list.allocate(&mut arena, 16, 8).expect("room");
    let head = list.head();
    write_header(&mut arena, head, MAGIC_FREE, 4096, NONE);
    assert_eq!(list.allocate(&mut arena, 16, 8), None);
    assert_eq!(
        list.dealloc(&mut arena, offset),
        Err(FreeListError::Corrupted { offset: head })
    );
    write_header(&mut arena, head, MAGIC_FREE, usize::MAX - 8, NONE);
    assert_eq!(
        list.dealloc(&mut arena, offset),
        Err(FreeListError::Corrupted { offset: head })
    );

    // A list that leads back to itself.
    write_header(&mut arena, head, MAGIC_FREE, 24, head);
    assert_eq!(list.allocate(&mut arena, 64, 8), None);

    // An allocated block whose size was overwritten, and one without any header.
    write_header(&mut arena, offset - HEADER_SIZE, MAGIC_ALLOC, 8, NONE);
    assert_eq!(
        list.dealloc(&mut arena, offset),
        Err(FreeListError::Corrupted { offset: offset - HEADER_SIZE })
    );
    write_header(&mut arena, offset - HEADER_SIZE, 0x1234, 40, NONE);
    assert_eq!(
        list.dealloc(&mut arena, offset),
        Err(FreeListError::NotAllocated { offset })
    );
}

#[test]
fn an_empty_list_refuses_everything() {
    let mut list = FreeList::empty();
    let mut arena = [0u8; 64];
    assert!(list.is_empty());
    assert_eq!(list.allocate(&mut arena, 8, 8), None);
    assert_eq!(
        list.dealloc(&mut arena, 24),
        Err(FreeListError::OutOfArena { offset: 24 })
    );
    assert_eq!(arena, [0u8; 64]);
}

#[test]
fn heap_messages_name_the_offset() {
    assert_eq!(
        FreeListError::OutOfArena { offset: 3 }.to_string(),
        "堆偏移 0x3 不在堆区间内或未对齐"
    );
    assert_eq!(
        FreeListError::AlreadyFree { offset: 0x18 }.to_string(),
        "堆偏移 0x18 重复释放"
    );
    assert_eq!(
        FreeListError::NotAllocated { offset: 0xABC }.to_string(),
        "堆偏移 0xABC 之前没有已分配的块头"
    );
    assert_eq!(
        FreeListError::Corrupted { offset: 0 }.to_string(),
        "堆元数据在偏移 0x0 处已损坏"
    );
}
