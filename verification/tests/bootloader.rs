use paranukos::boot_info::{
    BootInfo, DEBUG_EXIT_PORT, EXIT_VALUE_KERNEL_FAILURE, EXIT_VALUE_KERNEL_OK,
};
use paranukos::bootloader::block_io::{check_buffer, BlockError, Media};
use paranukos::bootloader::fs_loader::{
    pages_needed, parse_elf_header, plan_load, LoadError, LoadPlan, LoadStatus, LoadedKernel,
};
use paranukos::bootloader::handoff::{
    boot_info, exit_port, find_rsdp, prepare, ConfigEntry, FirmwareMap, TableKind,
    KERNEL_STACK_PAGES, KERNEL_STACK_SIZE,
};
use paranukos::kernel::boot::self_check;

fn image() -> [u8; 64] {
    let mut data = [0u8; 64];
    data[0..4].copy_from_slice(b"\x7fELF");
    data[4] = 2;
    data[5] = 1;
    data[16] = 2;
    data[18] = 62;
    data[24..32].copy_from_slice(&0x20_1190u64.to_le_bytes());
    data
}

#[test]
fn a_medium_has_one_block_more_than_its_last_index() {
    let media = Media { media_id: 7, last_block: 2047, block_size: 512 };
    assert_eq!(media.size(), 1024 * 1024);
    assert_eq!(media.block_size(), 512);
    assert_eq!(Media { media_id: 0, last_block: 0, block_size: 1 }.size(), 1);
}

#[test]
fn transfers_are_whole_blocks() {
    assert_eq!(check_buffer(1024, 512), Ok(()));
    assert_eq!(check_buffer(0, 512), Ok(()));
    assert_eq!(check_buffer(513, 512), Err(BlockError::InvalidParameter));
    assert_eq!(check_buffer(512, 0), Err(BlockError::InvalidParameter));
    let media = Media { media_id: 7, last_block: 1, block_size: 512 };
    assert_eq!(media.check_transfer(1024), Ok(1024));
    assert_eq!(media.check_transfer(100), Err(BlockError::InvalidParameter));
}

#[test]
fn headers_are_checked_in_order() {
    assert_eq!(parse_elf_header(&image()), Ok(0x20_1190));
    assert_eq!(parse_elf_header(&image()[..63]), Err(LoadError::TooSmall(63)));
    let mut data = image();
    data[3] = b'X';
    assert_eq!(parse_elf_header(&data), Err(LoadError::NotElf));
    let mut data = image();
    data[4] = 1;
    assert_eq!(parse_elf_header(&data), Err(LoadError::NotElf64));
    let mut data = image();
    data[5] = 2;
    assert_eq!(parse_elf_header(&data), Err(LoadError::NotLittleEndian));
    let mut data = image();
    data[16] = 3;
    assert_eq!(parse_elf_header(&data), Err(LoadError::NotExecutable(3)));
    let mut data = image();
    data[18] = 0xB7;
    assert_eq!(parse_elf_header(&data), Err(LoadError::UnsupportedMachine(0xB7)));
}

#[test]
fn errors_become_firmware_states() {
    assert_eq!(LoadError::Efi(14).status(), LoadStatus::Firmware(14));
    assert_eq!(LoadError::FsIo(5).status(), LoadStatus::Firmware(5));
    assert_eq!(LoadError::Fs.status(), LoadStatus::VolumeCorrupted);
    for error in [
        LoadError::TooSmall(1),
        LoadError::NotElf,
        LoadError::NotElf64,
        LoadError::NotLittleEndian,
        LoadError::NotExecutable(3),
        LoadError::UnsupportedMachine(40),
    ] {
        assert_eq!(error.status(), LoadStatus::LoadError);
    }
}

#[test]
fn images_take_whole_pages() {
    assert_eq!(pages_needed(0), 0);
    assert_eq!(pages_needed(1), 1);
    assert_eq!(pages_needed(4096), 1);
    assert_eq!(pages_needed(4097), 2);
    assert_eq!(pages_needed(usize::MAX), usize::MAX / 4096 + 1);
}

#[test]
fn a_plan_covers_the_whole_image() {
    let mut data = image().to_vec();
    data.resize(5000, 0);
    let plan = plan_load(&data).expect("plan");
    assert_eq!(plan, LoadPlan { size: 5000, pages: 2, entry_point: 0x20_1190 });
    assert_eq!(
        plan.loaded_at(0x40_0000),
        LoadedKernel { base_address: 0x40_0000, size: 5000, entry_point: 0x20_1190 }
    );
    assert_eq!(plan_load(&data[..10]), Err(LoadError::TooSmall(10)));
}

#[test]
fn acpi2_wins_over_acpi1() {
    let other = ConfigEntry { kind: TableKind::Other, address: 0x1 };
    let old = ConfigEntry { kind: TableKind::Acpi1, address: 0x1000 };
    let older = ConfigEntry { kind: TableKind::Acpi1, address: 0x1800 };
    let null = ConfigEntry { kind: TableKind::Acpi1, address: 0 };
    let new = ConfigEntry { kind: TableKind::Acpi2, address: 0x2000 };
    let newer = ConfigEntry { kind: TableKind::Acpi2, address: 0x3000 };
    assert_eq!(find_rsdp(&[]), 0);
    assert_eq!(find_rsdp(&[other]), 0);
    assert_eq!(find_rsdp(&[other, old, older]), 0x1000);
    assert_eq!(find_rsdp(&[null, older, old]), 0x1800);
    assert_eq!(find_rsdp(&[old, other, new, newer]), 0x2000);
}

#[test]
fn the_kernel_is_told_what_was_prepared() {
    let prepared = prepare(0x20_0000, 0x30_0000, 0xE_0000);
    assert_eq!(prepared.stack_top, 0x21_0000);
    assert_eq!(prepared.entry_stack_pointer(), 0x20_FFF8);
    assert_eq!(prepared.entry_stack_pointer() % 16, 8);
    assert_eq!(KERNEL_STACK_PAGES * 4096, KERNEL_STACK_SIZE);
    assert_eq!(exit_port(true), DEBUG_EXIT_PORT);
    assert_eq!(exit_port(false), 0);

    let map = FirmwareMap { address: 0x5000, entries: 120, desc_size: 48, desc_version: 1 };
    let kernel = LoadedKernel { base_address: 0x10_0000, size: 0x8000, entry_point: 0x10_1190 };
    let info = boot_info(&map, &kernel, &prepared, exit_port(true));
    assert_eq!(
        info,
        BootInfo {
            mmap_ptr: 0x5000,
            mmap_len: 120,
            mmap_desc_size: 48,
            mmap_desc_ver: 1,
            rsdp: 0xE_0000,
            kernel_base: 0x10_0000,
            kernel_size: 0x8000,
            stack_top: 0x21_0000,
            stack_size: 0x1_0000,
            exit_port: 0xF4,
            ..BootInfo::new()
        }
    );
    assert_eq!(info.validate(), Ok(()));
    assert!(info.has_memory_map());
    assert!(info.exit_enabled());
    assert_eq!(self_check(&info).exit_value, EXIT_VALUE_KERNEL_OK);

    // Without a map or a root pointer the kernel refuses.
    let no_map = FirmwareMap { entries: 0, ..map };
    let info = boot_info(&no_map, &kernel, &prepared, exit_port(true));
    assert_eq!(self_check(&info).exit_value, EXIT_VALUE_KERNEL_FAILURE);
    let no_acpi = prepare(0x20_0000, 0x30_0000, 0);
    let info = boot_info(&map, &kernel, &no_acpi, exit_port(true));
    assert_eq!(self_check(&info).exit_value, EXIT_VALUE_KERNEL_FAILURE);
}
