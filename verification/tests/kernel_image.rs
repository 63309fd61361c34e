use paranukos::kernel_image::{
    check_entry, check_no_overlap, check_segments, loaded_span, segments, validate, ImageError,
    Segment, SegmentError, EI_CLASS, EI_DATA, ELFCLASS64, ELFDATA2LSB, ELF_HEADER_MIN_LEN,
    ELF_MAGIC, EM_X86_64, ET_EXEC, E_ENTRY_OFFSET, E_MACHINE_OFFSET, E_PHENTSIZE_OFFSET,
    E_PHNUM_OFFSET, E_PHOFF_OFFSET, E_TYPE_OFFSET, PF_R, PF_W, PF_X, PHDR_LEN, PT_LOAD,
    P_ALIGN_OFFSET, P_FILESZ_OFFSET, P_FLAGS_OFFSET, P_MEMSZ_OFFSET, P_OFFSET_OFFSET,
    P_PADDR_OFFSET, P_TYPE_OFFSET,
};

const P_VADDR_OFFSET: usize = 16;

const ENTRY: u64 = 0x0000_0000_0020_1190;

fn valid_header() -> [u8; ELF_HEADER_MIN_LEN] {
    let mut header = [0u8; ELF_HEADER_MIN_LEN];
    header[0..4].copy_from_slice(&ELF_MAGIC.to_le_bytes());
    header[EI_CLASS] = ELFCLASS64;
    header[EI_DATA] = ELFDATA2LSB;
    header[E_TYPE_OFFSET..E_TYPE_OFFSET + 2].copy_from_slice(&ET_EXEC.to_le_bytes());
    header[E_MACHINE_OFFSET..E_MACHINE_OFFSET + 2].copy_from_slice(&EM_X86_64.to_le_bytes());
    header[E_ENTRY_OFFSET..E_ENTRY_OFFSET + 8].copy_from_slice(&ENTRY.to_le_bytes());
    header
}

fn collect(data: &[u8]) -> Vec<Segment> {
    let mut walk = segments(data).unwrap();
    let mut found = Vec::new();
    while let Some(segment) = walk.next() {
        found.push(segment.unwrap());
    }
    found
}

#[test]
fn accepts_valid_image_and_returns_entry_point() {
    assert_eq!(validate(&valid_header()), Ok(ENTRY));
}

#[test]
fn accepts_longer_image_with_trailing_sections() {
    let mut data = valid_header().to_vec();
    data.extend_from_slice(&[0xAA; 4096]);
    assert_eq!(validate(&data), Ok(ENTRY));
}

#[test]
fn rejects_too_small_input() {
    let data = [0u8; ELF_HEADER_MIN_LEN - 1];
    assert_eq!(
        validate(&data),
        Err(ImageError::TooSmall(ELF_HEADER_MIN_LEN - 1))
    );
    assert_eq!(validate(&[]), Err(ImageError::TooSmall(0)));
}

#[test]
fn accepts_exact_header_length() {
    assert!(validate(&valid_header()).is_ok());
}

#[test]
fn rejects_missing_magic() {
    let mut header = valid_header();
    header[1] = b'X';
    assert_eq!(validate(&header), Err(ImageError::NotElf));
}

#[test]
fn rejects_non_64_bit_image() {
    let mut header = valid_header();
    header[EI_CLASS] = 1; // ELFCLASS32
    assert_eq!(validate(&header), Err(ImageError::NotElf64));
}

#[test]
fn rejects_big_endian_image() {
    let mut header = valid_header();
    header[EI_DATA] = 2; // ELFDATA2MSB
    assert_eq!(validate(&header), Err(ImageError::NotLittleEndian));
}

#[test]
fn rejects_pie_image() {
    let mut header = valid_header();
    header[E_TYPE_OFFSET..E_TYPE_OFFSET + 2].copy_from_slice(&3u16.to_le_bytes());
    assert_eq!(validate(&header), Err(ImageError::NotExecutable(3)));
}

#[test]
fn rejects_foreign_architecture() {
    let mut header = valid_header();
    header[E_MACHINE_OFFSET..E_MACHINE_OFFSET + 2].copy_from_slice(&0x28u16.to_le_bytes()); // aarch64
    assert_eq!(validate(&header), Err(ImageError::UnsupportedMachine(0x28)));
}

#[test]
fn error_messages_are_specific() {
    assert!(ImageError::NotExecutable(3).to_string().contains("ET_DYN"));
    assert!(
        ImageError::UnsupportedMachine(0x28)
            .to_string()
            .contains("x86-64")
    );
}


fn header_with_phdrs(phnum: u16) -> Vec<u8> {
    let mut data = valid_header().to_vec();
    data[E_PHOFF_OFFSET..E_PHOFF_OFFSET + 8]
        .copy_from_slice(&(ELF_HEADER_MIN_LEN as u64).to_le_bytes());
    data[E_PHENTSIZE_OFFSET..E_PHENTSIZE_OFFSET + 2]
        .copy_from_slice(&(PHDR_LEN as u16).to_le_bytes());
    data[E_PHNUM_OFFSET..E_PHNUM_OFFSET + 2].copy_from_slice(&phnum.to_le_bytes());
    data
}

#[allow(clippy::too_many_arguments)]
fn push_phdr(
    data: &mut Vec<u8>,
    p_type: u32,
    flags: u32,
    offset: u64,
    vaddr: u64,
    paddr: u64,
    filesz: u64,
    memsz: u64,
) {
    let mut entry = [0u8; PHDR_LEN];
    entry[P_TYPE_OFFSET..P_TYPE_OFFSET + 4].copy_from_slice(&p_type.to_le_bytes());
    entry[P_FLAGS_OFFSET..P_FLAGS_OFFSET + 4].copy_from_slice(&flags.to_le_bytes());
    entry[P_OFFSET_OFFSET..P_OFFSET_OFFSET + 8].copy_from_slice(&offset.to_le_bytes());
    entry[P_VADDR_OFFSET..P_VADDR_OFFSET + 8].copy_from_slice(&vaddr.to_le_bytes());
    entry[P_PADDR_OFFSET..P_PADDR_OFFSET + 8].copy_from_slice(&paddr.to_le_bytes());
    entry[P_FILESZ_OFFSET..P_FILESZ_OFFSET + 8].copy_from_slice(&filesz.to_le_bytes());
    entry[P_MEMSZ_OFFSET..P_MEMSZ_OFFSET + 8].copy_from_slice(&memsz.to_le_bytes());
    data.extend_from_slice(&entry);
}

fn two_segment_image() -> Vec<u8> {
    let mut data = header_with_phdrs(2);
    push_phdr(
        &mut data,
        PT_LOAD,
        PF_R | PF_X,
        0x2000,
        0x101000,
        0x101000,
        16,
        16,
    );
    push_phdr(
        &mut data,
        PT_LOAD,
        PF_R | PF_W,
        0x3000,
        0x104B38,
        0x104B38,
        8,
        56,
    );
    data.resize(0x3000 + 8, 0);
    data
}

#[test]
fn parses_two_loadable_segments() {
    let data = two_segment_image();
    assert_eq!(check_segments(&data), Ok(2));
    assert_eq!(check_no_overlap(&data), Ok(()));
    let segs = collect(&data);
    assert_eq!(segs.len(), 2);
    assert!(segs[0].is_executable());
    assert!(!segs[1].is_executable());
    let mut with_note = two_segment_image();
    with_note[E_PHNUM_OFFSET..E_PHNUM_OFFSET + 2].copy_from_slice(&3u16.to_le_bytes());
    push_phdr(&mut with_note, 4 /* PT_NOTE */, PF_R, 0, 0, 0, 0, 0);
    assert_eq!(check_segments(&with_note), Ok(2));
}

#[test]
fn unaligned_paddr_needs_a_page_aligned_range() {
    let segment = Segment {
        offset: 0,
        paddr: 0x104B38,
        filesz: 8,
        memsz: 56,
        flags: PF_R | PF_W,
    };
    assert_eq!(segment.page_range(), (0x104000, 0x105000));

    let aligned = Segment {
        paddr: 0x100000,
        memsz: 4096,
        ..segment
    };
    assert_eq!(aligned.page_range(), (0x100000, 0x101000));

    let crossing = Segment {
        paddr: 0x100FF0,
        memsz: 0x20,
        ..segment
    };
    assert_eq!(crossing.page_range(), (0x100000, 0x102000));
}

#[test]
fn rejects_bad_segments() {
    // p_filesz > p_memsz
    let mut data = header_with_phdrs(1);
    push_phdr(&mut data, PT_LOAD, PF_R, 0, 0x1000, 0x1000, 100, 10);
    data.resize(0x1000, 0);
    assert_eq!(
        check_segments(&data),
        Err(SegmentError::FileszLargerThanMemsz)
    );

    let mut data = header_with_phdrs(1);
    push_phdr(&mut data, PT_LOAD, PF_R, 0, 0x1000, 0x1000, 4096, 4096);
    assert_eq!(check_segments(&data), Err(SegmentError::DataOutOfBounds));

    let mut data = header_with_phdrs(1);
    push_phdr(&mut data, PT_LOAD, PF_R, 0, 0x1000, 0x1000, 0, 0);
    assert_eq!(check_segments(&data), Err(SegmentError::EmptySegment));

    let mut data = header_with_phdrs(4);
    push_phdr(&mut data, PT_LOAD, PF_R, 0, 0x1000, 0x1000, 1, 1);
    assert_eq!(check_segments(&data), Err(SegmentError::BadProgramHeaders));
}

#[test]
fn rejects_overlapping_segments() {
    let mut data = header_with_phdrs(2);
    push_phdr(&mut data, PT_LOAD, PF_R, 0, 0x1000, 0x1000, 8, 64);
    push_phdr(&mut data, PT_LOAD, PF_R, 0, 0x1020, 0x1020, 8, 64);
    data.resize(0x1000, 0);
    assert_eq!(
        check_no_overlap(&data),
        Err(SegmentError::OverlappingSegments)
    );
}

#[test]
fn entry_must_be_inside_an_executable_segment() {
    let data = two_segment_image();
    assert_eq!(
        check_entry(&data, ENTRY),
        Err(SegmentError::EntryNotExecutable)
    );
    assert_eq!(check_entry(&data, 0x101008), Ok(()));
    assert_eq!(
        check_entry(&data, 0x104B38),
        Err(SegmentError::EntryNotExecutable)
    );
}

#[test]
fn loaded_span_covers_all_segments() {
    let data = two_segment_image();
    assert_eq!(loaded_span(&data), Ok((0x101000, 0x105000)));
}

#[test]
fn a_header_outside_the_file_ends_the_walk() {
    let mut data = header_with_phdrs(4);
    push_phdr(&mut data, PT_LOAD, PF_R, 0, 0x1000, 0x1000, 1, 1);
    let mut walk = segments(&data).unwrap();
    assert!(matches!(walk.next(), Some(Ok(_))));
    assert!(matches!(walk.next(), Some(Err(SegmentError::BadProgramHeaders))));
    assert!(walk.next().is_none());

    // A table near the end of the address space must not wrap around.
    let mut data = header_with_phdrs(2);
    data[E_PHOFF_OFFSET..E_PHOFF_OFFSET + 8].copy_from_slice(&(u64::MAX - 8).to_le_bytes());
    let mut walk = segments(&data).unwrap();
    assert!(matches!(walk.next(), Some(Err(SegmentError::BadProgramHeaders))));
    assert_eq!(check_segments(&data), Err(SegmentError::BadProgramHeaders));
    assert_eq!(check_no_overlap(&data), Err(SegmentError::BadProgramHeaders));
    assert_eq!(check_entry(&data, 0), Err(SegmentError::BadProgramHeaders));
    assert_eq!(loaded_span(&data), Err(SegmentError::BadProgramHeaders));
}

#[test]
fn tables_that_cannot_be_walked_are_refused() {
    assert_eq!(check_segments(&[0u8; 63]), Err(SegmentError::BadProgramHeaders));
    let none = header_with_phdrs(0);
    assert_eq!(check_segments(&none), Err(SegmentError::BadProgramHeaders));
    let mut narrow = header_with_phdrs(1);
    narrow[E_PHENTSIZE_OFFSET] = 55;
    assert_eq!(check_segments(&narrow), Err(SegmentError::BadProgramHeaders));
    // Only headers of another type: nothing to load.
    let mut notes = header_with_phdrs(1);
    push_phdr(&mut notes, 4, PF_R, 0, 0, 0, 0, 0);
    assert_eq!(check_segments(&notes), Err(SegmentError::BadProgramHeaders));
    assert_eq!(check_no_overlap(&notes), Ok(()));
    assert_eq!(loaded_span(&notes), Err(SegmentError::BadProgramHeaders));
}

#[test]
fn overflowing_segments_are_refused() {
    let mut data = header_with_phdrs(1);
    push_phdr(&mut data, PT_LOAD, PF_R | PF_X, u64::MAX, 0, 0x1000, 8, 8);
    assert_eq!(check_segments(&data), Err(SegmentError::AddressOverflow));

    let mut data = header_with_phdrs(1);
    push_phdr(&mut data, PT_LOAD, PF_R | PF_X, 0, 0, u64::MAX - 4, 8, 8);
    assert_eq!(check_segments(&data), Err(SegmentError::AddressOverflow));
    assert_eq!(check_no_overlap(&data), Err(SegmentError::AddressOverflow));
    assert_eq!(check_entry(&data, u64::MAX), Err(SegmentError::AddressOverflow));
}

#[test]
fn touching_segments_do_not_overlap_however_many_there_are() {
    let mut data = header_with_phdrs(17);
    for index in 0..17u64 {
        push_phdr(&mut data, PT_LOAD, PF_R, 0, 0, 0x1000 + index * 64, 8, 64);
    }
    assert_eq!(check_segments(&data), Ok(17));
    assert_eq!(check_no_overlap(&data), Ok(()));

    data[E_PHNUM_OFFSET..E_PHNUM_OFFSET + 2].copy_from_slice(&18u16.to_le_bytes());
    push_phdr(&mut data, PT_LOAD, PF_R, 0, 0, 0x1000 + 16 * 64 + 63, 8, 64);
    assert_eq!(check_no_overlap(&data), Err(SegmentError::OverlappingSegments));
}

#[test]
fn empty_segments_overlap_nothing() {
    let mut data = header_with_phdrs(2);
    push_phdr(&mut data, PT_LOAD, PF_R, 0, 0, 0x1000, 0, 0x100);
    push_phdr(&mut data, PT_LOAD, PF_R, 0, 0, 0x1080, 0, 0);
    assert_eq!(check_no_overlap(&data), Ok(()));
    assert_eq!(check_segments(&data), Err(SegmentError::EmptySegment));
}

#[test]
fn alignments_are_powers_of_two_or_nothing() {
    let mut data = header_with_phdrs(1);
    push_phdr(&mut data, PT_LOAD, PF_R, 0, 0, 0x1000, 8, 8);
    let at = ELF_HEADER_MIN_LEN + P_ALIGN_OFFSET;
    for align in [0u64, 1, 2, 16, 4096, 1 << 63] {
        data[at..at + 8].copy_from_slice(&align.to_le_bytes());
        assert_eq!(check_segments(&data), Ok(1));
    }
    for align in [3u64, 6, 4095, (1 << 63) + 1, u64::MAX] {
        data[at..at + 8].copy_from_slice(&align.to_le_bytes());
        assert_eq!(check_segments(&data), Err(SegmentError::BadProgramHeaders));
    }
}

#[test]
fn image_messages_name_the_values() {
    assert_eq!(
        ImageError::TooSmall(12).to_string(),
        "镜像过小（12 字节），不足以容纳 ELF 头"
    );
    assert_eq!(ImageError::NotElf.to_string(), "缺少 ELF magic");
    assert_eq!(ImageError::NotElf64.to_string(), "不是 64 位 ELF");
    assert_eq!(ImageError::NotLittleEndian.to_string(), "不是小端序 ELF");
    assert_eq!(
        ImageError::NotExecutable(3).to_string(),
        "e_type = 3，期望 ET_EXEC(2)（PIE/ET_DYN 需要重定位，不支持）"
    );
    assert_eq!(
        ImageError::UnsupportedMachine(40).to_string(),
        "e_machine = 40，期望 x86-64(62)"
    );
    assert_eq!(SegmentError::BadProgramHeaders.to_string(), "Program Header 表越界或不完整");
    assert_eq!(SegmentError::FileszLargerThanMemsz.to_string(), "p_filesz 大于 p_memsz");
    assert_eq!(SegmentError::DataOutOfBounds.to_string(), "段数据超出文件长度");
    assert_eq!(SegmentError::AddressOverflow.to_string(), "段地址范围溢出");
    assert_eq!(SegmentError::EmptySegment.to_string(), "段长度为 0");
    assert_eq!(SegmentError::OverlappingSegments.to_string(), "两个段的区间重叠");
    assert_eq!(SegmentError::EntryNotExecutable.to_string(), "入口点不在任何可执行段内");
}
