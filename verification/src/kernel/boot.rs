//! The kernel's self-check on what the boot loader handed over, and how the kernel ends.

use vstd::prelude::*;
use vstd::string::*;

use crate::boot_info::{
    exit_code, law_layout_round_trip, qemu_exit_code, BootInfo, BootInfoError,
    EXIT_VALUE_KERNEL_FAILURE, EXIT_VALUE_KERNEL_OK,
};
use crate::bytes::u64_at;
use crate::kernel::logging::Level;
use crate::kernel::port::PortWrite;
use crate::text::{decimal, hex, hex_padded, Pieces, MESSAGE_PIECES};

verus! {

/// A line to log.
pub struct LogLine {
    /// Its level.
    pub level: Level,
    /// Its text.
    pub text: String,
}

/// Levels and texts of some lines.
pub open spec fn entries(lines: Seq<LogLine>) -> Seq<(Level, Seq<char>)> {
    Seq::new(lines.len(), |i: int| (lines[i].level, lines[i].text@))
}

/// The outcome of the self-check.
pub struct SelfCheck {
    /// What to log.
    pub lines: Vec<LogLine>,
    /// How to end: the value for [`finish`].
    pub exit_value: u8,
}

/// The line that shows word `i` of the boot information.
#[verifier::opaque]
pub open spec fn word_line(info: BootInfo, i: int) -> (Level, Seq<char>) {
    (
        Level::Error,
        "  bootinfo+"@ + decimal((8 * i) as nat) + " = 0x"@ + hex_padded(
            u64_at(info.encoded(), 8 * i) as nat,
            16,
        ),
    )
}

/// The line about the header of the boot information.
#[verifier::opaque]
pub open spec fn header_line(info: BootInfo) -> (Level, Seq<char>) {
    (
        Level::Info,
        "BootInfo v"@ + decimal(info.version as nat) + " size="@ + decimal(info.size as nat)
            + " magic=0x"@ + hex_padded(info.magic as nat, 16),
    )
}

/// The warning about an unusual stride.
#[verifier::opaque]
pub open spec fn stride_line(info: BootInfo) -> (Level, Seq<char>) {
    (
        Level::Warn,
        "内存描述符步长是 "@ + decimal(info.mmap_desc_size as nat)
            + " 字节（标准为 40），按 BootInfo 给出的步长处理"@,
    )
}

/// The line about the memory map.
#[verifier::opaque]
pub open spec fn map_line(info: BootInfo) -> (Level, Seq<char>) {
    (
        Level::Info,
        "memory map: "@ + decimal(info.mmap_len as nat) + " 项, desc_size="@ + decimal(
            info.mmap_desc_size as nat,
        ) + ", desc_ver="@ + decimal(info.mmap_desc_ver as nat),
    )
}

/// The line about the kernel image.
#[verifier::opaque]
pub open spec fn kernel_line(info: BootInfo) -> (Level, Seq<char>) {
    (
        Level::Info,
        "kernel range: 0x"@ + hex(info.kernel_base as nat) + "..0x"@ + hex(
            (info.kernel_base + info.kernel_size) as nat,
        ),
    )
}

/// The line about the stack.
#[verifier::opaque]
pub open spec fn stack_line(info: BootInfo) -> (Level, Seq<char>) {
    (
        Level::Info,
        "stack: 0x"@ + hex((info.stack_top - info.stack_size) as nat) + "..0x"@ + hex(
            info.stack_top as nat,
        ),
    )
}

/// The line about an invalid header.
#[verifier::opaque]
pub open spec fn failure_line(info: BootInfo) -> (Level, Seq<char>) {
    (Level::Error, "self-check FAILED: "@ + info.check()->Err_0.message())
}

/// The line about the ACPI root pointer.
#[verifier::opaque]
pub open spec fn rsdp_line(info: BootInfo) -> (Level, Seq<char>) {
    (Level::Info, "rsdp=0x"@ + hex(info.rsdp as nat))
}

/// Whether there is a memory map.
pub open spec fn has_map(info: BootInfo) -> bool {
    info.mmap_ptr != 0 && info.mmap_len != 0 && info.mmap_desc_size != 0
}

/// What the self-check logs.
pub open spec fn check_lines(info: BootInfo) -> Seq<(Level, Seq<char>)> {
    if info.check() is Err {
        seq![
            failure_line(info),
            word_line(info, 0),
            word_line(info, 1),
            word_line(info, 2),
            word_line(info, 3),
        ]
    } else if !has_map(info) {
        seq![
            header_line(info),
            (
                Level::Error,
                "self-check FAILED: 内存图不可用（mmap_ptr/len/desc_size 不完整）"@,
            ),
        ]
    } else {
        let warned = if info.mmap_desc_size != 40 {
            seq![header_line(info), stride_line(info)]
        } else {
            seq![header_line(info)]
        };
        let described = warned.push(map_line(info)).push(kernel_line(info)).push(stack_line(info));
        if info.rsdp == 0 {
            described.push((Level::Error, "self-check FAILED: 未找到 ACPI RSDP"@))
        } else {
            described.push(rsdp_line(info)).push((Level::Info, "self-check OK"@))
        }
    }
}

/// Whether the boot information passes: a valid header, a memory map, and an ACPI root pointer.
pub open spec fn passes(info: BootInfo) -> bool {
    info.check() is Ok && has_map(info) && info.rsdp != 0
}

/// Whether the ranges that the self-check logs end inside the address space.
pub open spec fn sound_ranges(info: BootInfo) -> bool {
    info.check() is Ok && has_map(info) ==> {
        &&& info.kernel_base + info.kernel_size <= u64::MAX
        &&& info.stack_size <= info.stack_top
    }
}

/// How the kernel is to end after the self-check: the value for [`finish`].
#[must_use]
pub fn check_value(info: &BootInfo) -> (value: u8)
    ensures
        value == (if passes(*info) {
            EXIT_VALUE_KERNEL_OK
        } else {
            EXIT_VALUE_KERNEL_FAILURE
        }),
        value == (if info.magic == 0x5061_7261_6E75_6B01 && info.version == 0 && info.size >= 88
            && info.mmap_ptr != 0 && info.mmap_len != 0 && info.mmap_desc_size != 0 && info.rsdp
            != 0 {
            0x12u8
        } else {
            0x13u8
        }),
{
    if info.validate().is_ok() && info.has_memory_map() && info.rsdp != 0 {
        EXIT_VALUE_KERNEL_OK
    } else {
        EXIT_VALUE_KERNEL_FAILURE
    }
}

/// Line `index` of what the self-check logs, with its level and in pieces; `None` behind the last
/// line.
#[must_use]
pub fn check_line(info: &BootInfo, index: usize) -> (line: Option<(Level, Pieces)>)
    requires
        sound_ranges(*info),
    ensures
        match line {
            Some((level, line)) => {
                &&& index < check_lines(*info).len()
                &&& line.len <= MESSAGE_PIECES
                &&& (level, line@) == check_lines(*info)[index as int]
            },
            None => index >= check_lines(*info).len(),
        },
{
    if let Err(error) = info.validate() {
        // The raw words behind the reason: they are all there is to find out who changed them.
        return if index == 0 {
            Some((Level::Error, failure_pieces(info, &error)))
        } else if index <= 4 {
            Some((Level::Error, word_pieces(info, index - 1)))
        } else {
            None
        };
    }
    if index == 0 {
        return Some((Level::Info, header_pieces(info)));
    }
    if !info.has_memory_map() {
        return if index == 1 {
            let mut line = Pieces::new();
            line.text("self-check FAILED: 内存图不可用（mmap_ptr/len/desc_size 不完整）");
            assert(line@
                =~= "self-check FAILED: 内存图不可用（mmap_ptr/len/desc_size 不完整）"@);
            Some((Level::Error, line))
        } else {
            None
        };
    }
    let warned: bool = info.mmap_desc_size != 40;
    if warned && index == 1 {
        return Some((Level::Warn, stride_pieces(info)));
    }
    let rest: usize = if warned {
        index - 2
    } else {
        index - 1
    };
    if rest == 0 {
        Some((Level::Info, map_pieces(info)))
    } else if rest == 1 {
        Some((Level::Info, kernel_pieces(info)))
    } else if rest == 2 {
        Some((Level::Info, stack_pieces(info)))
    } else if rest == 3 && info.rsdp == 0 {
        let mut line = Pieces::new();
        line.text("self-check FAILED: 未找到 ACPI RSDP");
        assert(line@ =~= "self-check FAILED: 未找到 ACPI RSDP"@);
        Some((Level::Error, line))
    } else if rest == 3 {
        Some((Level::Info, rsdp_pieces(info)))
    } else if rest == 4 && info.rsdp != 0 {
        let mut line = Pieces::new();
        line.text("self-check OK");
        assert(line@ =~= "self-check OK"@);
        Some((Level::Info, line))
    } else {
        None
    }
}

/// Checks what the boot loader handed over.
#[must_use]
pub fn self_check(info: &BootInfo) -> (outcome: SelfCheck)
    requires
        sound_ranges(*info),
    ensures
        entries(outcome.lines@) == check_lines(*info),
        outcome.exit_value == (if passes(*info) {
            EXIT_VALUE_KERNEL_OK
        } else {
            EXIT_VALUE_KERNEL_FAILURE
        }),
        outcome.exit_value == (if info.magic == 0x5061_7261_6E75_6B01 && info.version == 0
            && info.size >= 88 && info.mmap_ptr != 0 && info.mmap_len != 0 && info.mmap_desc_size
            != 0 && info.rsdp != 0 {
            0x12u8
        } else {
            0x13u8
        }),
{
    let mut lines: Vec<LogLine> = Vec::new();
    assert(entries(lines@) =~= check_lines(*info).take(0));
    let mut i: usize = 0;
    loop
        invariant
            sound_ranges(*info),
            i <= check_lines(*info).len() <= 7,
            entries(lines@) == check_lines(*info).take(i as int),
        ensures
            entries(lines@) == check_lines(*info),
        decreases 7 - i,
    {
        match check_line(info, i) {
            Some((level, line)) => {
                let ghost before = entries(lines@);
                let text = line.to_string();
                lines.push(LogLine { level, text });
                proof {
                    assert(entries(lines@) =~= before.push((level, line@)));
                    assert(check_lines(*info).take(i + 1) =~= check_lines(*info).take(
                        i as int,
                    ).push(check_lines(*info)[i as int]));
                }
                i = i + 1;
            },
            None => {
                assert(check_lines(*info).take(i as int) =~= check_lines(*info));
                break;
            },
        }
    }
    SelfCheck { lines, exit_value: check_value(info) }
}

/// The line about an invalid header.
fn failure_pieces(info: &BootInfo, error: &BootInfoError) -> (line: Pieces)
    requires
        info.check() == Err::<(), BootInfoError>(*error),
    ensures
        line.len <= MESSAGE_PIECES,
        (Level::Error, line@) == failure_line(*info),
{
    let mut line = Pieces::new();
    line.text("self-check FAILED: ");
    line.append(&error.pieces());
    proof {
        reveal(failure_line);
        assert(line@ =~= "self-check FAILED: "@ + error.message());
    }
    line
}

/// The line that shows word `i` of the boot information.
fn word_pieces(info: &BootInfo, i: usize) -> (line: Pieces)
    requires
        i < 4,
    ensures
        line.len <= MESSAGE_PIECES,
        (Level::Error, line@) == word_line(*info, i as int),
{
    let word: u64 = if i == 0 {
        info.magic
    } else if i == 1 {
        info.version as u64 + 0x1_0000_0000 * (info.size as u64)
    } else if i == 2 {
        info.mmap_ptr
    } else {
        info.mmap_len
    };
    proof {
        law_layout_round_trip(*info);
        assert(word == u64_at(info.encoded(), 8 * i));
    }
    let mut line = Pieces::new();
    line.text("  bootinfo+");
    line.decimal(8 * i as u64);
    line.text(" = 0x");
    line.hex_padded(word, 16);
    proof {
        reveal(word_line);
        assert(line@ =~= word_line(*info, i as int).1);
    }
    line
}

/// The line about the header of the boot information.
fn header_pieces(info: &BootInfo) -> (line: Pieces)
    ensures
        line.len <= MESSAGE_PIECES,
        (Level::Info, line@) == header_line(*info),
{
    let mut line = Pieces::new();
    line.text("BootInfo v");
    line.decimal(info.version as u64);
    line.text(" size=");
    line.decimal(info.size as u64);
    line.text(" magic=0x");
    line.hex_padded(info.magic, 16);
    proof {
        reveal(header_line);
        assert(line@ =~= header_line(*info).1);
    }
    line
}

/// The warning about an unusual stride.
fn stride_pieces(info: &BootInfo) -> (line: Pieces)
    ensures
        line.len <= MESSAGE_PIECES,
        (Level::Warn, line@) == stride_line(*info),
{
    let mut line = Pieces::new();
    line.text("内存描述符步长是 ");
    line.decimal(info.mmap_desc_size as u64);
    line.text(" 字节（标准为 40），按 BootInfo 给出的步长处理");
    proof {
        reveal(stride_line);
        assert(line@ =~= stride_line(*info).1);
    }
    line
}

/// The line about the memory map.
fn map_pieces(info: &BootInfo) -> (line: Pieces)
    ensures
        line.len <= MESSAGE_PIECES,
        (Level::Info, line@) == map_line(*info),
{
    let mut line = Pieces::new();
    line.text("memory map: ");
    line.decimal(info.mmap_len);
    line.text(" 项, desc_size=");
    line.decimal(info.mmap_desc_size as u64);
    line.text(", desc_ver=");
    line.decimal(info.mmap_desc_ver as u64);
    proof {
        reveal(map_line);
        assert(line@ =~= map_line(*info).1);
    }
    line
}

/// The line about the kernel image.
fn kernel_pieces(info: &BootInfo) -> (line: Pieces)
    requires
        info.kernel_base + info.kernel_size <= u64::MAX,
    ensures
        line.len <= MESSAGE_PIECES,
        (Level::Info, line@) == kernel_line(*info),
{
    let mut line = Pieces::new();
    line.text("kernel range: 0x");
    line.hex(info.kernel_base);
    line.text("..0x");
    line.hex(info.kernel_base + info.kernel_size);
    proof {
        reveal(kernel_line);
        assert(line@ =~= kernel_line(*info).1);
    }
    line
}

/// The line about the stack.
fn stack_pieces(info: &BootInfo) -> (line: Pieces)
    requires
        info.stack_size <= info.stack_top,
    ensures
        line.len <= MESSAGE_PIECES,
        (Level::Info, line@) == stack_line(*info),
{
    let mut line = Pieces::new();
    line.text("stack: 0x");
    line.hex(info.stack_top - info.stack_size);
    line.text("..0x");
    line.hex(info.stack_top);
    proof {
        reveal(stack_line);
        assert(line@ =~= stack_line(*info).1);
    }
    line
}

/// The line about the ACPI root pointer.
fn rsdp_pieces(info: &BootInfo) -> (line: Pieces)
    ensures
        line.len <= MESSAGE_PIECES,
        (Level::Info, line@) == rsdp_line(*info),
{
    let mut line = Pieces::new();
    line.text("rsdp=0x");
    line.hex(info.rsdp);
    proof {
        reveal(rsdp_line);
        assert(line@ =~= rsdp_line(*info).1);
    }
    line
}

/// How the kernel ends.
pub struct Finish {
    /// What to log first.
    pub line: String,
    /// What to write to end the emulator; `None` means to halt.
    pub write: Option<PortWrite>,
}

/// The last line that the kernel logs.
pub open spec fn last_line(port: u32, value: u8) -> Seq<char> {
    if port == 0 {
        "未启用调试退出，进入 hlt 停机"@
    } else {
        "退出码 "@ + decimal(exit_code(value) as nat) + " (isa-debug-exit 端口 0x"@ + hex(
            port as nat,
        ) + " <- 0x"@ + hex_padded(value as nat, 2) + ")"@
    }
}

/// The last line that the kernel logs, in pieces.
#[must_use]
pub fn finish_line(port: u32, value: u8) -> (line: Pieces)
    ensures
        line.len <= MESSAGE_PIECES,
        line@ == last_line(port, value),
{
    let mut line = Pieces::new();
    if port == 0 {
        line.text("未启用调试退出，进入 hlt 停机");
    } else {
        line.text("退出码 ");
        line.decimal(qemu_exit_code(value) as u64);
        line.text(" (isa-debug-exit 端口 0x");
        line.hex(port as u64);
        line.text(" <- 0x");
        line.hex_padded(value as u64, 2);
        line.text(")");
    }
    assert(line@ =~= last_line(port, value));
    line
}

/// What ends the emulator: a write to the debug exit port. Without such a port the kernel halts.
#[must_use]
pub fn finish_write(port: u32, value: u8) -> (write: Option<PortWrite>)
    ensures
        write == (if port == 0 {
            None
        } else {
            Some(PortWrite { port: port as u16, value })
        }),
{
    if port == 0 {
        None
    } else {
        Some(PortWrite::new(#[verifier::truncate] (port as u16), value))
    }
}

/// Decides how the kernel ends: with a write to the debug exit port, or by halting if there is no
/// such port.
#[must_use]
pub fn finish(port: u32, value: u8) -> (end: Finish)
    ensures
        end.line@ == last_line(port, value),
        end.write == (if port == 0 {
            None
        } else {
            Some(PortWrite { port: port as u16, value })
        }),
{
    Finish { line: finish_line(port, value).to_string(), write: finish_write(port, value) }
}

/// The words are logged as errors.
proof fn lemma_word_level(info: BootInfo, i: int)
    ensures
        word_line(info, i).0 == Level::Error,
{
    reveal(word_line);
}

/// The kernel passes its self-check exactly if the header is valid, there is a memory map, and
/// there is an ACPI root pointer: the last line is no error then.
pub proof fn law_self_check_verdict(info: BootInfo)
    ensures
        check_lines(info).len() > 0,
        passes(info) <==> check_lines(info).last().0 == Level::Info,
{
    lemma_word_level(info, 3);
}

} // verus!
