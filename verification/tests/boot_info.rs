use std::mem::size_of;

use paranukos::boot_info::{
    qemu_exit_code, BootInfo, BootInfoError, BOOT_INFO_MAGIC, BOOT_INFO_SIZE, BOOT_INFO_VERSION,
    DEBUG_EXIT_PORT, EXIT_CODE_BOOTLOADER_OK, EXIT_CODE_KERNEL_FAILURE, EXIT_CODE_KERNEL_FAULT,
    EXIT_CODE_KERNEL_MEMORY_FAILURE, EXIT_CODE_KERNEL_OK, EXIT_CODE_KERNEL_SCHED_FAILURE,
    EXIT_CODE_LOAD_FAILURE, EXIT_VALUE_BOOTLOADER_OK, EXIT_VALUE_KERNEL_FAILURE,
    EXIT_VALUE_KERNEL_FAULT, EXIT_VALUE_KERNEL_MEMORY_FAILURE, EXIT_VALUE_KERNEL_OK,
    EXIT_VALUE_KERNEL_SCHED_FAILURE, EXIT_VALUE_LOAD_FAILURE, OFF_EXIT_PORT, OFF_KERNEL_BASE,
    OFF_KERNEL_SIZE, OFF_MAGIC, OFF_MMAP_DESC_SIZE, OFF_MMAP_DESC_VER, OFF_MMAP_LEN, OFF_MMAP_PTR,
    OFF_RESERVED, OFF_RSDP, OFF_SIZE, OFF_STACK_SIZE, OFF_STACK_TOP, OFF_VERSION,
};

/// A structure with a different value in every field.
fn sample() -> BootInfo {
    BootInfo {
        magic: 0x0102_0304_0506_0708,
        version: 0x1112_1314,
        size: 0x2122_2324,
        mmap_ptr: 0x3132_3334_3536_3738,
        mmap_len: 0x4142_4344_4546_4748,
        mmap_desc_size: 0x5152_5354,
        mmap_desc_ver: 0x6162_6364,
        rsdp: 0x7172_7374_7576_7778,
        kernel_base: 0x8182_8384_8586_8788,
        kernel_size: 0x9192_9394_9596_9798,
        stack_top: 0xA1A2_A3A4_A5A6_A7A8,
        stack_size: 0xB1B2_B3B4_B5B6_B7B8,
        exit_port: 0xC1C2_C3C4,
        _reserved: 0xD1D2_D3D4,
    }
}

#[test]
fn v0_layout_is_pinned() {
    assert_eq!(OFF_MAGIC, 0);
    assert_eq!(OFF_VERSION, 8);
    assert_eq!(OFF_SIZE, 12);
    assert_eq!(OFF_MMAP_PTR, 16);
    assert_eq!(OFF_MMAP_LEN, 24);
    assert_eq!(OFF_MMAP_DESC_SIZE, 32);
    assert_eq!(OFF_MMAP_DESC_VER, 36);
    assert_eq!(OFF_RSDP, 40);
    assert_eq!(OFF_KERNEL_BASE, 48);
    assert_eq!(OFF_KERNEL_SIZE, 56);
    assert_eq!(OFF_STACK_TOP, 64);
    assert_eq!(OFF_STACK_SIZE, 72);
    assert_eq!(OFF_EXIT_PORT, 80);
    assert_eq!(OFF_RESERVED, 84);
    assert_eq!(size_of::<BootInfo>(), 88);
    assert_eq!(BOOT_INFO_SIZE, 88);

    // Each field lands at its offset, and nowhere else.
    let info = sample();
    let bytes = info.to_bytes();
    assert_eq!(bytes.len(), 88);
    assert_eq!(bytes[0..8], info.magic.to_le_bytes());
    assert_eq!(bytes[8..12], info.version.to_le_bytes());
    assert_eq!(bytes[12..16], info.size.to_le_bytes());
    assert_eq!(bytes[16..24], info.mmap_ptr.to_le_bytes());
    assert_eq!(bytes[24..32], info.mmap_len.to_le_bytes());
    assert_eq!(bytes[32..36], info.mmap_desc_size.to_le_bytes());
    assert_eq!(bytes[36..40], info.mmap_desc_ver.to_le_bytes());
    assert_eq!(bytes[40..48], info.rsdp.to_le_bytes());
    assert_eq!(bytes[48..56], info.kernel_base.to_le_bytes());
    assert_eq!(bytes[56..64], info.kernel_size.to_le_bytes());
    assert_eq!(bytes[64..72], info.stack_top.to_le_bytes());
    assert_eq!(bytes[72..80], info.stack_size.to_le_bytes());
    assert_eq!(bytes[80..84], info.exit_port.to_le_bytes());
    assert_eq!(bytes[84..88], info._reserved.to_le_bytes());
}

#[test]
fn new_is_valid() {
    let info = BootInfo::new();
    assert_eq!(info.magic, BOOT_INFO_MAGIC);
    assert_eq!(info.version, BOOT_INFO_VERSION);
    assert_eq!(info.size, size_of::<BootInfo>() as u32);
    assert_eq!(info.validate(), Ok(()));
    assert!(!info.has_memory_map());
    assert!(!info.exit_enabled());
}

#[test]
fn zeroed_magic_is_rejected() {
    let info = BootInfo::default();
    assert_eq!(info.validate(), Err(BootInfoError::WrongMagic { found: 0 }));
}

#[test]
fn wrong_magic_is_rejected() {
    let info = BootInfo {
        magic: BOOT_INFO_MAGIC ^ 0xFFFF,
        ..BootInfo::new()
    };
    assert!(matches!(
        info.validate(),
        Err(BootInfoError::WrongMagic { .. })
    ));
}

#[test]
fn unsupported_version_is_rejected() {
    let info = BootInfo {
        version: BOOT_INFO_VERSION + 1,
        ..BootInfo::new()
    };
    assert_eq!(
        info.validate(),
        Err(BootInfoError::UnsupportedVersion {
            found: BOOT_INFO_VERSION + 1,
            supported: BOOT_INFO_VERSION,
        })
    );
}

#[test]
fn too_small_size_is_rejected() {
    let info = BootInfo {
        size: (size_of::<BootInfo>() - 1) as u32,
        ..BootInfo::new()
    };
    assert!(matches!(
        info.validate(),
        Err(BootInfoError::TooSmall { .. })
    ));
}

#[test]
fn larger_size_from_a_newer_loader_is_accepted() {
    let info = BootInfo {
        size: (size_of::<BootInfo>() + 64) as u32,
        ..BootInfo::new()
    };
    assert_eq!(info.validate(), Ok(()));
}

#[test]
fn exit_codes_match_the_documented_table() {
    assert_eq!(EXIT_CODE_BOOTLOADER_OK, 33);
    assert_eq!(EXIT_CODE_LOAD_FAILURE, 35);
    assert_eq!(EXIT_CODE_KERNEL_OK, 37);
    assert_eq!(EXIT_CODE_KERNEL_FAILURE, 39);
    assert_eq!(EXIT_CODE_KERNEL_FAULT, 41);
    assert_eq!(EXIT_CODE_KERNEL_MEMORY_FAILURE, 43);
    assert_eq!(EXIT_CODE_KERNEL_SCHED_FAILURE, 45);
    assert_ne!(EXIT_CODE_KERNEL_FAULT, EXIT_CODE_KERNEL_SCHED_FAILURE);
    assert_ne!(
        EXIT_CODE_KERNEL_MEMORY_FAILURE,
        EXIT_CODE_KERNEL_SCHED_FAILURE
    );
    assert_ne!(EXIT_CODE_KERNEL_FAILURE, EXIT_CODE_KERNEL_FAULT);
    assert_ne!(EXIT_CODE_KERNEL_FAILURE, EXIT_CODE_KERNEL_MEMORY_FAILURE);
    assert_ne!(EXIT_CODE_KERNEL_FAULT, EXIT_CODE_KERNEL_MEMORY_FAILURE);
    assert_ne!(EXIT_CODE_BOOTLOADER_OK, EXIT_CODE_KERNEL_OK);
    assert_eq!(DEBUG_EXIT_PORT, 0xF4);
}

#[test]
fn memory_map_availability_requires_all_three_fields() {
    let base = BootInfo::new();
    assert!(!base.has_memory_map());
    let only_ptr = BootInfo {
        mmap_ptr: 0x1000,
        ..base
    };
    assert!(!only_ptr.has_memory_map());
    let complete = BootInfo {
        mmap_ptr: 0x1000,
        mmap_len: 12,
        mmap_desc_size: 40,
        ..base
    };
    assert!(complete.has_memory_map());
}

#[test]
fn layout_round_trip_gives_every_field_back() {
    let info = sample();
    assert_eq!(BootInfo::from_bytes(&info.to_bytes()), Some(info));
    // Fields that a newer boot loader appends are ignored, a shorter buffer is refused.
    let mut longer = info.to_bytes();
    longer.extend_from_slice(&[0xEE; 16]);
    assert_eq!(BootInfo::from_bytes(&longer), Some(info));
    assert_eq!(BootInfo::from_bytes(&longer[..87]), None);

    // Written in place it is the same, and the bytes behind it stay.
    let mut page = [0x5Au8; 100];
    info.write_to(&mut page);
    assert_eq!(page[..88], info.to_bytes());
    assert_eq!(page[88..], [0x5A; 12]);
}

#[test]
fn exit_codes_belong_to_their_values() {
    assert_eq!(qemu_exit_code(EXIT_VALUE_BOOTLOADER_OK), EXIT_CODE_BOOTLOADER_OK);
    assert_eq!(qemu_exit_code(EXIT_VALUE_LOAD_FAILURE), EXIT_CODE_LOAD_FAILURE);
    assert_eq!(qemu_exit_code(EXIT_VALUE_KERNEL_OK), EXIT_CODE_KERNEL_OK);
    assert_eq!(qemu_exit_code(EXIT_VALUE_KERNEL_FAILURE), EXIT_CODE_KERNEL_FAILURE);
    assert_eq!(qemu_exit_code(EXIT_VALUE_KERNEL_FAULT), EXIT_CODE_KERNEL_FAULT);
    assert_eq!(
        qemu_exit_code(EXIT_VALUE_KERNEL_MEMORY_FAILURE),
        EXIT_CODE_KERNEL_MEMORY_FAILURE
    );
    assert_eq!(
        qemu_exit_code(EXIT_VALUE_KERNEL_SCHED_FAILURE),
        EXIT_CODE_KERNEL_SCHED_FAILURE
    );
    assert_eq!(qemu_exit_code(0), 1);
    assert_eq!(qemu_exit_code(255), 511);
}

#[test]
fn boot_info_messages_name_the_values() {
    assert_eq!(
        BootInfoError::WrongMagic { found: 0xAB }.to_string(),
        "BootInfo magic 不匹配（得到 0x00000000000000AB，期望 0x506172616E756B01）"
    );
    assert_eq!(
        BootInfoError::UnsupportedVersion { found: 7, supported: 0 }.to_string(),
        "BootInfo 版本不受支持（得到 7，支持 0）"
    );
    assert_eq!(
        BootInfoError::TooSmall { size: 80, expected: 88 }.to_string(),
        "BootInfo 过小（得到 80 字节，至少需要 88 字节）"
    );
}
