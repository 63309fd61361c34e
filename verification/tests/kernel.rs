use paranukos::boot_info::{
    BootInfo, BootInfoError, EXIT_VALUE_KERNEL_FAILURE, EXIT_VALUE_KERNEL_OK,
};
use paranukos::heap::HEADER_SIZE;
use paranukos::kernel::boot::{
    check_line, check_value, finish, finish_line, finish_write, self_check, SelfCheck,
};
use paranukos::kernel::gdt::{
    check_loaded, code_descriptor, data_descriptor, descriptors, tss_descriptor, Tss, GDT_LIMIT,
    IST_DOUBLE_FAULT, IST_NMI, KERNEL_CODE, KERNEL_DATA, TSS_SELECTOR, TSS_SIZE,
};
use paranukos::kernel::heap::{HeapState, HEAP_SIZE};
use paranukos::kernel::idt::{
    exception_line, exception_name, exception_report, gates, ExceptionFrame, Gate, EXCEPTIONS, GATES, IDT_LIMIT,
};
use paranukos::kernel::lock::{critical, interrupts_enabled, CriticalSection, HeldLocks};
use paranukos::kernel::logging::{log, log_pieces, Level};
use paranukos::kernel::memory::{
    boot_info_memory_map, check_after_switch, check_arena, check_cpu_mode, install,
    memory_map_len, CpuModeProblem, CpuRegisters, MemoryError, ARENA_BYTES, ARENA_PAGES,
};
use paranukos::kernel::pic::{
    eoi, handle_spurious_irq7, init_pit, mask, remap, unmask, TIMER_HZ, TIMER_VECTOR,
};
use paranukos::kernel::port::{PortWrite, PortWrites};
use paranukos::kernel::sched::{
    init_boot, irq_handler, log_ready, ticks, wait_for_ticks, PicState, Wait, SPIN_BUDGET,
};
use paranukos::kernel::serial::Serial;
use paranukos::map::MapError;
use paranukos::paging::{
    tables_needed, BuildError, ADDRESS_MASK, BLOCK, BLOCK_SIZE, MAX_IDENTITY_BYTES,
};
use paranukos::sched::{SchedError, Scheduler};
use paranukos::text::{Piece, Pieces};

fn pairs(writes: &PortWrites) -> Vec<(u16, u8)> {
    writes.as_slice().iter().map(|write| (write.port, write.value)).collect()
}

// Ports -------------------------------------------------------------------------------------------

#[test]
fn remapping_moves_both_controllers_and_masks_everything() {
    assert_eq!(
        pairs(&remap()),
        vec![
            (0x20, 0x11),
            (0x80, 0),
            (0xA0, 0x11),
            (0x80, 0),
            (0x21, 0x20),
            (0x80, 0),
            (0xA1, 0x28),
            (0x80, 0),
            (0x21, 0x04),
            (0x80, 0),
            (0xA1, 0x02),
            (0x80, 0),
            (0x21, 0x01),
            (0x80, 0),
            (0xA1, 0x01),
            (0x80, 0),
            (0x21, 0xFF),
            (0xA1, 0xFF),
        ]
    );
}

#[test]
fn unmasking_an_irq_of_the_slave_opens_the_cascade() {
    assert_eq!(pairs(&unmask(0, 0xFF, 0xFF)), vec![(0x21, 0xFE)]);
    assert_eq!(pairs(&unmask(7, 0x80, 0xFF)), vec![(0x21, 0x00)]);
    assert_eq!(pairs(&unmask(8, 0xFF, 0xFF)), vec![(0xA1, 0xFE), (0x21, 0xFB)]);
    assert_eq!(pairs(&unmask(15, 0xFB, 0xC0)), vec![(0xA1, 0x40), (0x21, 0xFB)]);
}

#[test]
fn masking_sets_one_bit() {
    assert_eq!(mask(3, 0x01), PortWrite { port: 0x21, value: 0x09 });
    assert_eq!(mask(12, 0x00), PortWrite { port: 0xA1, value: 0x10 });
    assert_eq!(pairs(&unmask(3, mask(3, 0x01).value, 0)), vec![(0x21, 0x01)]);
}

#[test]
fn ending_an_interrupt_reaches_both_controllers_if_needed() {
    assert_eq!(pairs(&eoi(7)), vec![(0x20, 0x20)]);
    assert_eq!(pairs(&eoi(8)), vec![(0xA0, 0x20), (0x20, 0x20)]);
}

#[test]
fn a_spurious_irq7_is_not_ended() {
    let (spurious, writes) = handle_spurious_irq7(0x7F);
    assert!(spurious);
    assert!(writes.as_slice().is_empty());
    let (spurious, writes) = handle_spurious_irq7(0x80);
    assert!(!spurious);
    assert_eq!(pairs(&writes), vec![(0x20, 0x20)]);
}

#[test]
fn the_timer_divisor_is_rounded_and_clamped() {
    let (divisor, writes) = init_pit(TIMER_HZ);
    assert_eq!(divisor, 11932);
    assert_eq!(
        pairs(&writes),
        vec![(0x43, 0x36), (0x80, 0), (0x40, 0x9C), (0x80, 0), (0x40, 0x2E), (0x80, 0)]
    );
    assert_eq!(init_pit(1).0, u16::MAX);
    assert_eq!(init_pit(u32::MAX).0, 1);
    assert_eq!(init_pit(1000).0, 1193);
}

#[test]
fn the_serial_port_expands_line_feeds() {
    assert_eq!(
        pairs(&Serial::init()),
        vec![
            (0x3F9, 0x00),
            (0x3FB, 0x80),
            (0x3F8, 0x01),
            (0x3F9, 0x00),
            (0x3FB, 0x03),
            (0x3FA, 0xC7),
            (0x3FC, 0x03),
        ]
    );
    assert_eq!(Serial::write_byte(b'\n'), (true, b'\n'));
    assert_eq!(Serial::write_byte(b'x'), (false, b'x'));
    assert_eq!(Serial::write_str("a\nb\n\n"), b"a\r\nb\r\n\r\n");
    assert_eq!(Serial::write_str("内核"), "内核".as_bytes());
    assert!(Serial::tx_ready(0x60));
    assert!(!Serial::tx_ready(0x40));
}

#[test]
fn log_lines_carry_the_level() {
    assert_eq!(log(Level::Info, "self-check OK"), "[kernel] self-check OK\n");
    assert_eq!(log(Level::Warn, "x"), "[kernel] [WARN] x\n");
    assert_eq!(log(Level::Error, "x"), "[kernel] [ERROR] x\n");
    assert_eq!(Level::Info.tag(), "");
}

// Descriptors and gates ---------------------------------------------------------------------------

#[test]
fn descriptors_point_to_the_task_state() {
    let base = 0x1234_5678_9ABC_DEF0u64;
    let (low, high) = tss_descriptor(base);
    assert_eq!(low & 0xFFFF, 103);
    assert_eq!((low >> 16) & 0xFF_FFFF, 0xBC_DEF0);
    assert_eq!((low >> 40) & 0xFF, 0x89);
    assert_eq!((low >> 48) & 0xFF, 0);
    assert_eq!(low >> 56, 0x9A);
    assert_eq!(high, 0x1234_5678);
    assert_eq!(
        descriptors(base),
        [0, code_descriptor(), data_descriptor(), low, high, 0, 0, 0]
    );
    assert_eq!(code_descriptor(), 0x00AF_9A00_0000_FFFF);
    assert_eq!(data_descriptor(), 0x00CF_9200_0000_FFFF);
    assert_eq!((KERNEL_CODE, KERNEL_DATA, TSS_SELECTOR), (0x08, 0x10, 0x18));
    assert_eq!(GDT_LIMIT, 8 * 8 - 1);
}

#[test]
fn the_task_state_holds_the_interrupt_stacks() {
    let mut tss = Tss::new();
    assert_eq!(tss.iomap_base, TSS_SIZE);
    tss.set_stacks(0xAAAA, 0xBBBB);
    assert_eq!(tss.ist_top(IST_DOUBLE_FAULT), 0xAAAA);
    assert_eq!(tss.ist_top(IST_NMI), 0xBBBB);
    assert_eq!(tss.ist_top(3), 0);
    assert_eq!(tss.ist_top(0), 0);
    assert_eq!(tss.ist_top(8), 0);
    assert_eq!(tss.ist, [0xAAAA, 0xBBBB, 0, 0, 0, 0, 0]);
}

#[test]
fn a_different_table_register_is_noticed() {
    assert_eq!(check_loaded(0x1000, 63, 0x1000, 63), Ok(()));
    assert_eq!(
        check_loaded(0x1000, 63, 0x1008, 63),
        Err("sgdt 读回的 GDTR 与装载的不一致")
    );
    assert!(check_loaded(0x1000, 63, 0x1000, 62).is_err());
}

#[test]
fn gates_lead_to_their_handlers() {
    let gate = Gate::new(0x1122_3344_5566_7788, 0x08);
    assert_eq!(gate.offset_low, 0x7788);
    assert_eq!(gate.offset_mid, 0x5566);
    assert_eq!(gate.offset_high, 0x1122_3344);
    assert_eq!((gate.selector, gate.ist, gate.type_attr, gate.reserved), (0x08, 0, 0x8E, 0));

    let mut handlers = [0u64; EXCEPTIONS];
    for (vector, handler) in handlers.iter_mut().enumerate() {
        *handler = 0x1000 + vector as u64;
    }
    let table = gates(&handlers, 0x38, false);
    assert_eq!(table.len(), GATES);
    assert_eq!(GATES * 16 - 1, IDT_LIMIT as usize);
    for vector in 0..GATES {
        if vector < EXCEPTIONS {
            assert_eq!(table[vector], Gate::new(handlers[vector], 0x38));
        } else {
            assert_eq!(table[vector], Gate::missing());
        }
    }
    let table = gates(&handlers, 0x08, true);
    assert_eq!(table[8].ist, IST_DOUBLE_FAULT);
    assert_eq!(table[2].ist, IST_NMI);
    assert!((0..GATES).all(|vector| vector == 2 || vector == 8 || table[vector].ist == 0));
}

#[test]
fn exceptions_are_reported_with_their_name() {
    let mut frame = ExceptionFrame {
        vector: 6,
        error_code: 0,
        rip: 0x101190,
        cs: 8,
        rflags: 0x10046,
        rsp: 0xABCD0,
        ss: 0x10,
    };
    assert_eq!(
        exception_report(&frame, 0),
        vec![
            "未处理的 CPU 异常: #UD 非法指令 (vector 6)",
            "  error_code=0x0 rip=0x101190 cs=0x8 rflags=0x10046",
            "  rsp=0xABCD0 ss=0x10",
        ]
    );
    frame.vector = 14;
    frame.error_code = 2;
    let report = exception_report(&frame, 0xDEAD);
    assert_eq!(report.len(), 4);
    assert_eq!(report[0], "未处理的 CPU 异常: #PF 页错误 (vector 14)");
    assert_eq!(report[3], "  cr2=0xDEAD (触发页错误的地址)");
    for (index, line) in report.iter().enumerate() {
        assert_eq!(&exception_line(&frame, 0xDEAD, index).expect("line").to_string(), line);
    }
    assert!(exception_line(&frame, 0xDEAD, 4).is_none());
    frame.vector = 13;
    assert!(exception_line(&frame, 0xDEAD, 3).is_none());
    assert_eq!(exception_name(8), "#DF 双重故障");
    assert_eq!(exception_name(31), "保留(31)");
    assert_eq!(exception_name(32), "未知向量");
}

#[test]
fn lines_come_in_pieces() {
    let mut line = Pieces::new();
    assert_eq!(line.to_string(), "");
    line.text("a=");
    line.decimal(1_000_000);
    line.text(" b=0x");
    line.hex(0xBEEF);
    line.text(" c=0x");
    line.hex_padded(0xA, 4);
    assert_eq!(line.to_string(), "a=1000000 b=0xBEEF c=0x000A");
    assert_eq!(line.as_slice().len(), 6);
    assert!(matches!(line.as_slice()[1], Piece::Decimal(1_000_000)));
    let mut twice = Pieces::new();
    twice.append(&line);
    twice.append(&line);
    assert_eq!(twice.to_string(), line.to_string() + &line.to_string());
    assert_eq!(
        log_pieces(Level::Warn, &line).to_string(),
        log(Level::Warn, &line.to_string())
    );
}

// Locks -------------------------------------------------------------------------------------------

#[test]
fn sections_restore_the_interrupt_flag() {
    assert!(interrupts_enabled(0x246));
    assert!(!interrupts_enabled(0x046));
    let outer = critical(true);
    let inner = CriticalSection::enter(false);
    assert!(!inner.leave(false));
    assert!(outer.leave(false));
    let mut held = HeldLocks::new();
    assert!(held.may_switch());
    held.acquire();
    assert_eq!(held.held_count(), 1);
    assert!(!held.may_switch());
    held.release();
    assert!(held.may_switch());
}

// Interrupts --------------------------------------------------------------------------------------

#[test]
fn interrupts_are_answered() {
    let mut sched = Scheduler::new();
    assert_eq!(init_boot(&mut sched), Ok(()));
    assert_eq!(init_boot(&mut sched), Err(SchedError::InvalidId(0)));
    let pic = PicState { master_mask: 0xFE, slave_mask: 0xFF, in_service: 0 };

    let reply = irq_handler(&mut sched, TIMER_VECTOR, &pic);
    assert_eq!(pairs(&reply.writes), vec![(0x20, 0x20)]);
    assert_eq!(reply.notice, None);
    assert_eq!(ticks(&sched), 1);

    let reply = irq_handler(&mut sched, 0x27, &pic);
    assert!(reply.writes.as_slice().is_empty());
    assert_eq!(
        reply.notice.map(|notice| notice.to_string()).as_deref(),
        Some("收到伪 IRQ7（未在服务寄存器里）：未发送 EOI，避免误清真实中断")
    );
    let served = PicState { in_service: 0x80, ..pic };
    let reply = irq_handler(&mut sched, 0x27, &served);
    assert_eq!(pairs(&reply.writes), vec![(0x20, 0x20)]);
    assert_eq!(reply.notice.map(|notice| notice.to_string()).as_deref(), Some("意外的 IRQ7：已 EOI"));

    let reply = irq_handler(&mut sched, 0x2C, &PicState { slave_mask: 0x01, ..pic });
    assert_eq!(pairs(&reply.writes), vec![(0xA1, 0x11), (0xA0, 0x20), (0x20, 0x20)]);
    assert_eq!(
        reply.notice.map(|notice| notice.to_string()).as_deref(),
        Some("未预期的中断向量 0x2C（IRQ12）：已屏蔽并 EOI")
    );
    let reply = irq_handler(&mut sched, 0x05, &pic);
    assert_eq!(
        reply.notice.map(|notice| notice.to_string()).as_deref(),
        Some("未预期的中断向量 0x05（IRQ5）：已屏蔽并 EOI")
    );
    assert_eq!(sched.stats().ticks, 1);
}

#[test]
fn waiting_for_ticks_is_bounded() {
    assert_eq!(wait_for_ticks(5, 5, 0), Wait::Reached(5));
    assert_eq!(wait_for_ticks(4, 5, 0), Wait::Again);
    assert_eq!(wait_for_ticks(4, 5, SPIN_BUDGET - 1), Wait::Again);
    assert_eq!(wait_for_ticks(4, 5, SPIN_BUDGET), Wait::GivenUp);
    assert_eq!(wait_for_ticks(9, 5, SPIN_BUDGET), Wait::Reached(9));
    assert_eq!(log_ready(2), "sched: 2 个线程就绪，PIT 100 Hz，GDT/TSS 已装载");
}

// Memory ------------------------------------------------------------------------------------------

fn good_registers() -> CpuRegisters {
    CpuRegisters { cr0: 0x8001_0033, cr4: 0x668, efer: 0xD01 }
}

fn problem(registers: CpuRegisters) -> Option<CpuModeProblem> {
    match check_cpu_mode(&registers) {
        Ok(()) => None,
        Err(MemoryError::UnexpectedCpuMode { detail }) => Some(detail),
        Err(other) => panic!("{other:?}"),
    }
}

#[test]
fn the_paging_mode_is_checked_in_order() {
    let good = good_registers();
    assert_eq!(problem(good), None);
    assert_eq!(problem(CpuRegisters { cr0: 0x33, ..good }), Some(CpuModeProblem::PagingOff));
    assert_eq!(problem(CpuRegisters { cr4: 0x648, ..good }), Some(CpuModeProblem::PaeOff));
    assert_eq!(
        problem(CpuRegisters { cr4: 0x1668, ..good }),
        Some(CpuModeProblem::FiveLevelPaging)
    );
    assert_eq!(problem(CpuRegisters { efer: 0x901, ..good }), Some(CpuModeProblem::NotInLongMode));
    assert_eq!(
        problem(CpuRegisters { cr4: 0x2_0668, ..good }),
        Some(CpuModeProblem::PcideEnabled)
    );
    assert_eq!(
        problem(CpuRegisters { cr0: 0, cr4: 0, efer: 0 }),
        Some(CpuModeProblem::PagingOff)
    );
}

fn kernel_info() -> BootInfo {
    BootInfo {
        mmap_ptr: 0x5000,
        mmap_len: 1,
        mmap_desc_size: 48,
        mmap_desc_ver: 1,
        rsdp: 0xE0000,
        kernel_base: 0x100000,
        kernel_size: 0x80000,
        stack_top: 0x210000,
        stack_size: 0x10000,
        exit_port: 0xF4,
        ..BootInfo::new()
    }
}

fn one_region(kind: u32, base: u64, pages: u64) -> Vec<u8> {
    let mut bytes = vec![0u8; 48];
    bytes[0..4].copy_from_slice(&kind.to_le_bytes());
    bytes[8..16].copy_from_slice(&base.to_le_bytes());
    bytes[24..32].copy_from_slice(&pages.to_le_bytes());
    bytes
}

#[test]
fn the_arena_has_to_lie_in_the_kernel() {
    let info = kernel_info();
    assert_eq!(check_arena(&info, 0x100000, 0x80000), Ok(()));
    assert_eq!(check_arena(&info, 0x179000, 0x7000), Ok(()));
    assert_eq!(check_arena(&info, 0x17FFFF, 1), Ok(()));
    for (arena, len) in [(0x180000, 1), (0x180000, 0), (0xFFFFF, 1), (0x17A000, 0x7000)] {
        assert_eq!(
            check_arena(&info, arena, len),
            Err(MemoryError::ArenaOutsideKernel { arena })
        );
    }
    let huge = BootInfo { kernel_size: u64::MAX, ..info };
    assert_eq!(check_arena(&huge, u64::MAX - 1, 1), Ok(()));
    assert!(check_arena(&huge, u64::MAX - 1, 2).is_err());
    assert!(check_arena(&huge, u64::MAX, 0).is_err());
    assert_eq!(tables_needed(MAX_IDENTITY_BYTES, BLOCK_SIZE), ARENA_PAGES);
    assert_eq!(ARENA_PAGES * 4096, ARENA_BYTES);
}

#[test]
fn a_damaged_stride_is_not_called_too_large() {
    let info = kernel_info();
    assert_eq!(memory_map_len(&info), Ok(48));
    let narrow = BootInfo { mmap_desc_size: 39, mmap_len: 0, ..info };
    assert_eq!(memory_map_len(&narrow), Err(MapError::StrideTooSmall(39)));
    assert_eq!(
        boot_info_memory_map(&narrow, &[]).unwrap_err(),
        MemoryError::BadMap(MapError::StrideTooSmall(39))
    );
    let long = BootInfo { mmap_len: u64::MAX, ..info };
    assert_eq!(
        memory_map_len(&long),
        Err(MapError::TooLarge { entries: u64::MAX, stride: 48 })
    );
    let empty = BootInfo { mmap_len: 0, ..info };
    assert_eq!(
        boot_info_memory_map(&empty, &[]).unwrap_err(),
        MemoryError::BadMap(MapError::Empty)
    );
    let bytes = one_region(7, 0x100000, 16);
    let map = boot_info_memory_map(&info, &bytes).expect("map");
    assert_eq!(map.ram_top(), Some(0x110000));
    assert_eq!(map.version(), 1);
}

#[test]
fn installing_reports_the_first_failure() {
    let info = kernel_info();
    let bytes = one_region(7, 0x100000, 0x300);
    let mut arena = vec![0u8; ARENA_BYTES];
    let tables = install(&good_registers(), &info, &bytes, &mut arena, 0x140000).expect("tables");
    assert_eq!(tables.pml4_phys, 0x140000);
    assert_eq!(tables.limit, 0x400000);
    assert_eq!((tables.pages, tables.blocks, tables.tables_used), (0x100, 1, 7));

    let off = CpuRegisters { cr0: 0, ..good_registers() };
    assert_eq!(
        install(&off, &info, &bytes, &mut arena, 0),
        Err(MemoryError::UnexpectedCpuMode { detail: CpuModeProblem::PagingOff })
    );
    assert_eq!(
        install(&good_registers(), &info, &bytes, &mut arena, 0x1000),
        Err(MemoryError::ArenaOutsideKernel { arena: 0x1000 })
    );
    assert_eq!(
        install(&good_registers(), &info, &bytes[..40], &mut arena, 0x140000),
        Err(MemoryError::BadMap(MapError::TooShort { needed: 48, got: 40 }))
    );
    assert_eq!(
        install(&good_registers(), &info, &bytes, &mut arena[..4096], 0x140000),
        Err(MemoryError::Build(BuildError::ArenaTooSmall { needed: 28672, got: 4096 }))
    );
    assert_eq!(check_after_switch(&info), Ok(()));
    assert_eq!(
        check_after_switch(&BootInfo { magic: 0, ..info }),
        Err(MemoryError::BootInfoLostAfterSwitch)
    );
}

/// What the processor makes of an address, given the tables in an arena at `base`.
fn translate(arena: &[u8], base: u64, address: u64) -> Option<u64> {
    let entry = |table: u64, index: u64| {
        let offset = (table - base + index * 8) as usize;
        u64::from_le_bytes(arena[offset..offset + 8].try_into().expect("eight bytes"))
    };
    let mut table = base;
    for shift in [39u32, 30, 21, 12] {
        let found = entry(table, (address >> shift) % 512);
        if found & 1 == 0 {
            return None;
        }
        table = found & ADDRESS_MASK;
        if shift == 12 || found & BLOCK != 0 {
            return Some(table + address % (1 << shift));
        }
    }
    None
}

#[test]
fn loaded_tables_keep_ram_and_drop_the_rest() {
    let info = kernel_info();
    let mut bytes = one_region(7, 0x0, 0x9F);
    bytes.extend(one_region(7, 0x100000, 0x300));
    bytes.extend(one_region(11, 0xFEC00000, 0x1));
    let info = BootInfo { mmap_len: 3, ..info };
    let mut arena = vec![0xEEu8; ARENA_BYTES];
    let base = 0x140000;
    install(&good_registers(), &info, &bytes, &mut arena, base).expect("tables");
    for ram in [0x1000, 0x9EFFF, 0x100123, 0x1FFFFF, 0x200000, 0x345678, 0x3FFFFF] {
        assert_eq!(translate(&arena, base, ram), Some(ram));
    }
    for hole in [0, 8, 0xFFF, 0x9F000, 0xFFFFF, 0x400000, 0xFEC00000, 0x1_0000_0000, 0x7F_FFFF_FFFF] {
        assert_eq!(translate(&arena, base, hole), None);
    }
}

#[test]
fn memory_messages_say_what_is_wrong() {
    assert_eq!(
        MemoryError::UnexpectedCpuMode { detail: CpuModeProblem::PagingOff }.to_string(),
        "CPU 分页模式不符合预期：分页未开启（CR0.PG = 0）"
    );
    assert_eq!(CpuModeProblem::PaeOff.to_string(), "未启用 PAE（CR4.PAE = 0）");
    assert_eq!(
        CpuModeProblem::FiveLevelPaging.to_string(),
        "处于五级分页（CR4.LA57 = 1），本实现只支持四级"
    );
    assert_eq!(CpuModeProblem::NotInLongMode.to_string(), "未处于长模式（EFER.LMA = 0）");
    assert_eq!(
        CpuModeProblem::PcideEnabled.to_string(),
        "已启用 PCID（CR4.PCIDE = 1），写入裸 CR3 会破坏地址"
    );
    assert_eq!(
        MemoryError::ArenaOutsideKernel { arena: 0xAB000 }.to_string(),
        "页表竞技场 0xAB000 不在内核镜像区间内（内核未按链接地址加载？）"
    );
    assert_eq!(
        MemoryError::from(MapError::Empty).to_string(),
        "内存图不可用：内存图为空（0 条描述符）"
    );
    assert_eq!(
        MemoryError::from(BuildError::NoUsableRam).to_string(),
        "页表构建失败：内存图中没有可用的 RAM 区域"
    );
    assert_eq!(
        MemoryError::BootInfoLostAfterSwitch.to_string(),
        "切换 CR3 后 BootInfo 不再可读：恒等映射没有覆盖交接结构"
    );
}

// The kernel heap ---------------------------------------------------------------------------------

#[test]
fn the_kernel_heap_hands_out_addresses() {
    let mut arena = vec![0u8; HEAP_SIZE];
    let mut heap = HeapState::new();
    assert_eq!(heap.region(), (0, 0));
    assert_eq!(heap.allocate(&mut arena, 16, 8), None);
    heap.dealloc(&mut arena, 0x168018);

    heap.init(&mut arena, 0x168000);
    assert_eq!(heap.region(), (0x168000, HEAP_SIZE));
    assert_eq!(heap.stats().free_bytes, 1_048_552);
    let first = heap.allocate(&mut arena, 100, 8).expect("room");
    assert_eq!(first, 0x168000 + HEADER_SIZE as u64);
    let second = heap.allocate(&mut arena, 4096, 4096).expect("room");
    assert_eq!(second % 4096, 0);

    // Addresses that do not belong to the heap, and double frees, change nothing.
    let before = heap.stats();
    for address in [0u64, 1, 0x167FFF, 0x168000 + HEAP_SIZE as u64, u64::MAX, first + 1] {
        heap.dealloc(&mut arena, address);
        assert_eq!(heap.stats(), before);
    }
    heap.dealloc(&mut arena, first);
    let once = heap.stats();
    heap.dealloc(&mut arena, first);
    assert_eq!(heap.stats(), once);
    heap.dealloc(&mut arena, second);
    assert_eq!(heap.stats().free_blocks, 1);
    assert_eq!(heap.stats().free_bytes, 1_048_552);
    assert_eq!(heap.allocate(&mut arena, 2 * HEAP_SIZE, 8), None);
    assert_eq!(heap.allocate(&mut arena, 2 * HEAP_SIZE, 8), None);
}

// The self-check ----------------------------------------------------------------------------------

fn texts(check: &SelfCheck) -> Vec<(Level, &str)> {
    check.lines.iter().map(|line| (line.level, line.text.as_str())).collect()
}

#[test]
fn a_complete_handover_passes() {
    let check = self_check(&kernel_info());
    assert_eq!(check.exit_value, EXIT_VALUE_KERNEL_OK);
    assert_eq!(
        texts(&check),
        vec![
            (Level::Info, "BootInfo v0 size=88 magic=0x506172616E756B01"),
            (
                Level::Warn,
                "内存描述符步长是 48 字节（标准为 40），按 BootInfo 给出的步长处理"
            ),
            (Level::Info, "memory map: 1 项, desc_size=48, desc_ver=1"),
            (Level::Info, "kernel range: 0x100000..0x180000"),
            (Level::Info, "stack: 0x200000..0x210000"),
            (Level::Info, "rsdp=0xE0000"),
            (Level::Info, "self-check OK"),
        ]
    );
    let standard = self_check(&BootInfo { mmap_desc_size: 40, ..kernel_info() });
    assert_eq!(standard.lines.len(), 6);
    assert_eq!(standard.exit_value, EXIT_VALUE_KERNEL_OK);
}

#[test]
fn the_self_check_can_be_had_line_by_line() {
    let good = kernel_info();
    for info in [
        good,
        BootInfo { mmap_desc_size: 40, ..good },
        BootInfo { rsdp: 0, ..good },
        BootInfo { mmap_len: 0, ..good },
        BootInfo { magic: 0x1122_3344_5566_7788, ..good },
        BootInfo { size: 8, version: 0, ..good },
        BootInfo { version: 3, ..good },
    ] {
        let check = self_check(&info);
        for (index, line) in check.lines.iter().enumerate() {
            let (level, text) = check_line(&info, index).expect("line");
            assert_eq!((level, text.to_string()), (line.level, line.text.clone()));
        }
        assert!(check_line(&info, check.lines.len()).is_none());
        assert_eq!(check_value(&info), check.exit_value);
    }
    let end = finish(0xF4, 0x12);
    assert_eq!(finish_line(0xF4, 0x12).to_string(), end.line);
    assert_eq!(finish_write(0xF4, 0x12), end.write);
    assert_eq!(finish_write(0, 0x12), None);
}

#[test]
fn a_damaged_header_is_shown_word_by_word() {
    let info = BootInfo { magic: 0x1234, ..kernel_info() };
    let check = self_check(&info);
    assert_eq!(check.exit_value, EXIT_VALUE_KERNEL_FAILURE);
    let failure = format!(
        "self-check FAILED: {}",
        BootInfoError::WrongMagic { found: 0x1234 }.to_string()
    );
    assert_eq!(
        texts(&check),
        vec![
            (Level::Error, failure.as_str()),
            (Level::Error, "  bootinfo+0 = 0x0000000000001234"),
            (Level::Error, "  bootinfo+8 = 0x0000005800000000"),
            (Level::Error, "  bootinfo+16 = 0x0000000000005000"),
            (Level::Error, "  bootinfo+24 = 0x0000000000000001"),
        ]
    );
}

#[test]
fn a_missing_map_or_root_pointer_fails() {
    let check = self_check(&BootInfo { mmap_len: 0, ..kernel_info() });
    assert_eq!(check.exit_value, EXIT_VALUE_KERNEL_FAILURE);
    assert_eq!(
        texts(&check)[1],
        (
            Level::Error,
            "self-check FAILED: 内存图不可用（mmap_ptr/len/desc_size 不完整）"
        )
    );
    assert_eq!(check.lines.len(), 2);
    let check = self_check(&BootInfo { rsdp: 0, ..kernel_info() });
    assert_eq!(check.exit_value, EXIT_VALUE_KERNEL_FAILURE);
    assert_eq!(
        texts(&check).last(),
        Some(&(Level::Error, "self-check FAILED: 未找到 ACPI RSDP"))
    );
}

#[test]
fn the_kernel_ends_through_the_exit_port() {
    let end = finish(0xF4, EXIT_VALUE_KERNEL_OK);
    assert_eq!(end.line, "退出码 37 (isa-debug-exit 端口 0xF4 <- 0x12)");
    assert_eq!(end.write, Some(PortWrite { port: 0xF4, value: 0x12 }));
    let end = finish(0, EXIT_VALUE_KERNEL_OK);
    assert_eq!(end.line, "未启用调试退出，进入 hlt 停机");
    assert_eq!(end.write, None);
    assert_eq!(finish(0x1_00F4, 5).write, Some(PortWrite { port: 0xF4, value: 5 }));
}
