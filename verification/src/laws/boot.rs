//! Start-up: what the self-check logs, and when the page tables can be built.

use vstd::prelude::*;

use crate::boot_info::BootInfo;
use crate::bytes::{u32_at, u64_at};
use crate::kernel::boot::{
    check_lines, failure_line, header_line, kernel_line, map_line, rsdp_line, stack_line,
    stride_line, word_line,
};
use crate::kernel::logging::Level;
use crate::kernel::memory::{boot_regions, installed, CpuRegisters, MemoryError};
use crate::laws::map::law_which_maps_are_read;
use crate::laws::paging::law_when_tables_are_built;
use crate::paging::{PageTables, PagingConfig};

verus! {

/// How many lines the self-check logs, and at which levels: an invalid header gives five errors, a
/// missing memory map one, a missing root pointer one. A stride other than 40 is warned about.
pub proof fn law_what_is_logged(info: BootInfo)
    ensures
        ({
            let valid = info.magic == 0x5061_7261_6E75_6B01 && info.version == 0 && info.size >= 88;
            let map = info.mmap_ptr != 0 && info.mmap_len != 0 && info.mmap_desc_size != 0;
            let lines = check_lines(info);
            &&& !valid ==> lines.len() == 5 && forall|i: int|
                0 <= i < 5 ==> (#[trigger] lines[i]).0 == Level::Error
            &&& !valid ==> lines[0] == failure_line(info) && forall|i: int|
                1 <= i < 5 ==> #[trigger] lines[i] == word_line(info, i - 1)
            &&& valid && !map ==> lines.len() == 2 && lines[0].0 == Level::Info && lines[1].0
                == Level::Error
            &&& valid ==> lines[0] == header_line(info)
            &&& valid && !map ==> lines[1].1
                == "self-check FAILED: 内存图不可用（mmap_ptr/len/desc_size 不完整）"@
            &&& valid && map ==> {
                let more: int = if info.mmap_desc_size != 40 { 1 } else { 0 };
                &&& lines.len() == 4 + more + (if info.rsdp == 0 { 1int } else { 2 })
                &&& lines.last().0 == (if info.rsdp == 0 { Level::Error } else { Level::Info })
                &&& lines.last().1 == (if info.rsdp == 0 {
                    "self-check FAILED: 未找到 ACPI RSDP"@
                } else {
                    "self-check OK"@
                })
                &&& more == 1 ==> lines[1] == stride_line(info)
                &&& lines[1 + more] == map_line(info)
                &&& lines[2 + more] == kernel_line(info)
                &&& lines[3 + more] == stack_line(info)
                &&& info.rsdp != 0 ==> lines[4 + more] == rsdp_line(info)
                &&& forall|i: int|
                    0 <= i < lines.len() - 1 ==> (#[trigger] lines[i]).0 == (if more == 1 && i == 1 {
                        Level::Warn
                    } else {
                        Level::Info
                    })
            }
        }),
{
    lemma_levels(info);
    let lines = check_lines(info);
    if info.check() is Err {
        assert forall|i: int| 0 <= i < 5 implies (#[trigger] lines[i]).0 == Level::Error by {
            if i > 0 {
                assert(lines[i] == word_line(info, i - 1));
            }
        }
    }
}

/// The levels of the lines.
proof fn lemma_levels(info: BootInfo)
    ensures
        failure_line(info).0 == Level::Error,
        word_line(info, 0).0 == Level::Error,
        word_line(info, 1).0 == Level::Error,
        word_line(info, 2).0 == Level::Error,
        word_line(info, 3).0 == Level::Error,
        header_line(info).0 == Level::Info,
        stride_line(info).0 == Level::Warn,
        map_line(info).0 == Level::Info,
        kernel_line(info).0 == Level::Info,
        stack_line(info).0 == Level::Info,
        rsdp_line(info).0 == Level::Info,
{
    assert(failure_line(info).0 == Level::Error) by {
        reveal(failure_line);
    }
    assert(word_line(info, 0).0 == Level::Error && word_line(info, 1).0 == Level::Error
        && word_line(info, 2).0 == Level::Error && word_line(info, 3).0 == Level::Error) by {
        reveal(word_line);
    }
    assert(header_line(info).0 == Level::Info) by {
        reveal(header_line);
    }
    assert(stride_line(info).0 == Level::Warn) by {
        reveal(stride_line);
    }
    assert(map_line(info).0 == Level::Info) by {
        reveal(map_line);
    }
    assert(kernel_line(info).0 == Level::Info) by {
        reveal(kernel_line);
    }
    assert(stack_line(info).0 == Level::Info) by {
        reveal(stack_line);
    }
    assert(rsdp_line(info).0 == Level::Info) by {
        reveal(rsdp_line);
    }
}

/// When the kernel's page tables can be built: the processor pages with four levels in long mode and
/// without context identifiers, the arena lies in the kernel image, on a page, and holds seven
/// tables, the memory map can be read, and it has RAM below 4 GiB. A failure changes nothing.
pub proof fn law_when_memory_is_set_up(
    registers: CpuRegisters,
    info: BootInfo,
    bytes: Seq<u8>,
    address: u64,
    before: Seq<u8>,
    result: Result<PageTables, MemoryError>,
    after: Seq<u8>,
)
    requires
        installed(registers, info, bytes, address, before, result, after),
        before.len() <= usize::MAX,
        bytes.len() <= usize::MAX,
    ensures
        result is Err ==> after == before,
        result is Ok <==> {
            let stride = info.mmap_desc_size;
            &&& registers.cr0 & 0x8000_0000 != 0
            &&& registers.cr4 & 0x20 != 0
            &&& registers.cr4 & 0x1000 == 0
            &&& registers.efer & 0x400 != 0
            &&& registers.cr4 & 0x2_0000 == 0
            &&& info.kernel_base <= address
            &&& address < info.kernel_base + info.kernel_size
            &&& address < u64::MAX
            &&& address + before.len() <= info.kernel_base + info.kernel_size
            &&& address + before.len() <= u64::MAX
            &&& address % 4096 == 0
            &&& before.len() >= 28672
            &&& info.mmap_len > 0
            &&& stride >= 40
            &&& info.mmap_len * stride <= bytes.len()
            &&& info.mmap_len * stride <= u64::MAX
            &&& forall|i: int|
                0 <= i < info.mmap_len ==> #[trigger] u64_at(bytes, i * stride + 8) + u64_at(
                    bytes,
                    i * stride + 24,
                ) * 4096 <= u64::MAX
            &&& exists|r: int|
                {
                    &&& 0 <= r < info.mmap_len
                    &&& 1 <= #[trigger] u32_at(bytes, r * stride) <= 7 || u32_at(bytes, r * stride)
                        == 9 || u32_at(bytes, r * stride) == 10
                    &&& u64_at(bytes, r * stride + 24) > 0
                    &&& u64_at(bytes, r * stride + 8) < 0x1_0000_0000
                }
        },
{
    let stride = info.mmap_desc_size;
    let regions = boot_regions(info, bytes);
    let config = PagingConfig {
        max_identity_bytes: 0x1_0000_0000,
        fine_grained_bytes: 0x20_0000,
    };
    law_which_maps_are_read(bytes, info.mmap_len, stride);
    lemma_ram_below(info, bytes);
    match result {
        Ok(tables) => {
            law_when_tables_are_built(before, address, regions, config, Ok(tables), after);
        },
        Err(MemoryError::Build(error)) => {
            law_when_tables_are_built(before, address, regions, config, Err(error), after);
        },
        Err(_) => {},
    }
}

/// The regions with RAM below 4 GiB, in the descriptors and in the map.
proof fn lemma_ram_below(info: BootInfo, bytes: Seq<u8>)
    ensures
        ({
            let stride = info.mmap_desc_size;
            let regions = boot_regions(info, bytes);
            (exists|r: int|
                {
                    &&& 0 <= r < info.mmap_len
                    &&& 1 <= #[trigger] u32_at(bytes, r * stride) <= 7 || u32_at(bytes, r * stride)
                        == 9 || u32_at(bytes, r * stride) == 10
                    &&& u64_at(bytes, r * stride + 24) > 0
                    &&& u64_at(bytes, r * stride + 8) < 0x1_0000_0000
                }) <==> exists|r: int|
                {
                    &&& 0 <= r < regions.len()
                    &&& !((#[trigger] regions[r]).kind is Unknown)
                    &&& 1 <= regions[r].kind.number() <= 7 || regions[r].kind.number() == 9
                        || regions[r].kind.number() == 10
                    &&& regions[r].pages > 0
                    &&& regions[r].base < 0x1_0000_0000
                }
        }),
{
    let stride = info.mmap_desc_size;
    let regions = boot_regions(info, bytes);
    assert(regions.len() == info.mmap_len);
    if exists|r: int|
        {
            &&& 0 <= r < info.mmap_len
            &&& 1 <= #[trigger] u32_at(bytes, r * stride) <= 7 || u32_at(bytes, r * stride) == 9
                || u32_at(bytes, r * stride) == 10
            &&& u64_at(bytes, r * stride + 24) > 0
            &&& u64_at(bytes, r * stride + 8) < 0x1_0000_0000
        } {
        let r = choose|r: int|
            {
                &&& 0 <= r < info.mmap_len
                &&& 1 <= #[trigger] u32_at(bytes, r * stride) <= 7 || u32_at(bytes, r * stride) == 9
                    || u32_at(bytes, r * stride) == 10
                &&& u64_at(bytes, r * stride + 24) > 0
                &&& u64_at(bytes, r * stride + 8) < 0x1_0000_0000
            };
        assert(!(regions[r].kind is Unknown));
    }
    if exists|r: int|
        {
            &&& 0 <= r < regions.len()
            &&& !((#[trigger] regions[r]).kind is Unknown)
            &&& 1 <= regions[r].kind.number() <= 7 || regions[r].kind.number() == 9
                || regions[r].kind.number() == 10
            &&& regions[r].pages > 0
            &&& regions[r].base < 0x1_0000_0000
        } {
        let r = choose|r: int|
            {
                &&& 0 <= r < regions.len()
                &&& !((#[trigger] regions[r]).kind is Unknown)
                &&& 1 <= regions[r].kind.number() <= 7 || regions[r].kind.number() == 9
                    || regions[r].kind.number() == 10
                &&& regions[r].pages > 0
                &&& regions[r].base < 0x1_0000_0000
            };
        assert(u32_at(bytes, r * stride) == regions[r].kind.number());
    }
}

} // verus!
