//! The wording of messages, reports and log lines, each with its numbers.

use vstd::prelude::*;

use crate::boot_info::{BootInfo, BootInfoError};
use crate::bytes::u64_at;
use crate::frame::{FreeError, InitError};
use crate::heap::FreeListError;
use crate::kernel::boot::{
    failure_line, header_line, kernel_line, last_line, map_line, rsdp_line, stack_line, stride_line,
    word_line,
};
use crate::kernel::idt::{name_of, report_lines, ExceptionFrame};
use crate::kernel::logging::Level;
use crate::kernel::memory::{CpuModeProblem, MemoryError};
use crate::kernel::sched::Notice;
use crate::kernel_image::{ImageError, SegmentError};
use crate::map::MapError;
use crate::paging::BuildError;
use crate::sched::SchedError;
use crate::text::{decimal, hex, hex_padded};

verus! {

/// The words for why a memory map could not be read.
pub proof fn law_wording_of_map_errors(error: MapError)
    ensures
        error.message() == (match error {
            MapError::Empty => "内存图为空（0 条描述符）"@,
            MapError::StrideTooSmall(stride) => "内存描述符步长 "@ + decimal(stride as nat)
                + " 小于标准长度 "@ + decimal(40),
            MapError::TooShort { needed, got } => "内存图缓冲区过小：需要 "@ + decimal(needed as nat)
                + " 字节，实际 "@ + decimal(got as nat) + " 字节"@,
            MapError::TooLarge { entries, stride } => "内存图过大："@ + decimal(entries as nat)
                + " 条 × "@ + decimal(stride as nat) + " 字节超出地址空间"@,
            MapError::AddressOverflow { index } => "第 "@ + decimal(index as nat)
                + " 条内存描述符的结束地址溢出"@,
        }),
{
}

/// The words for why a frame allocator could not be set up.
pub proof fn law_wording_of_init_errors(error: InitError)
    ensures
        error.message() == (match error {
            InitError::BitmapTooSmall { needed, got } => "页帧位图过小：需要 "@ + decimal(
                needed as nat,
            ) + " 字节，实际 "@ + decimal(got as nat) + " 字节"@,
            InitError::TooManyReservedRanges { count } => "保留区间过多："@ + decimal(count as nat)
                + " 个，上限 "@ + decimal(8) + " 个"@,
            InitError::EmptyRange { managed_start, limit } => "受管理的物理区间非法：0x"@ + hex(
                managed_start as nat,
            ) + "..0x"@ + hex(limit as nat),
            InitError::NoUsableMemory => "没有任何可发放的 EfiConventionalMemory 页帧"@,
        }),
{
}

/// The words for why a frame could not be freed.
pub proof fn law_wording_of_free_errors(error: FreeError)
    ensures
        error.message() == (match error {
            FreeError::NotManaged(address) => "页帧 0x"@ + hex(address as nat)
                + " 不在受管理区间内"@,
            FreeError::AlreadyFree(address) => "页帧 0x"@ + hex(address as nat) + " 重复释放"@,
            FreeError::Reserved(address) => "页帧 0x"@ + hex(address as nat)
                + " 位于保留区间内，不可释放"@,
        }),
{
}

/// The words for why an offset could not be freed.
pub proof fn law_wording_of_heap_errors(error: FreeListError)
    ensures
        error.message() == (match error {
            FreeListError::OutOfArena { offset } => "堆偏移 0x"@ + hex(offset as nat)
                + " 不在堆区间内或未对齐"@,
            FreeListError::AlreadyFree { offset } => "堆偏移 0x"@ + hex(offset as nat)
                + " 重复释放"@,
            FreeListError::NotAllocated { offset } => "堆偏移 0x"@ + hex(offset as nat)
                + " 之前没有已分配的块头"@,
            FreeListError::Corrupted { offset } => "堆元数据在偏移 0x"@ + hex(offset as nat)
                + " 处已损坏"@,
        }),
{
}

/// The words for why the scheduler refused.
pub proof fn law_wording_of_sched_errors(error: SchedError)
    ensures
        error.message() == (match error {
            SchedError::NoFreeSlot => "线程表已满（"@ + decimal(16) + " 项）"@,
            SchedError::InvalidId(id) => "非法线程号 "@ + decimal(id as nat),
            SchedError::NoCurrentThread => "尚未登记引导上下文"@,
            SchedError::IdleAlreadyRegistered => "空闲线程已经登记过"@,
            SchedError::NothingToRun => "没有任何可运行的线程（也没有空闲线程）"@,
        }),
{
}

/// The words for why an image was refused.
pub proof fn law_wording_of_image_errors(error: ImageError)
    ensures
        error.message() == (match error {
            ImageError::TooSmall(len) => "镜像过小（"@ + decimal(len as nat)
                + " 字节），不足以容纳 ELF 头"@,
            ImageError::NotElf => "缺少 ELF magic"@,
            ImageError::NotElf64 => "不是 64 位 ELF"@,
            ImageError::NotLittleEndian => "不是小端序 ELF"@,
            ImageError::NotExecutable(e_type) => "e_type = "@ + decimal(e_type as nat)
                + "，期望 ET_EXEC("@ + decimal(2)
                + ")（PIE/ET_DYN 需要重定位，不支持）"@,
            ImageError::UnsupportedMachine(machine) => "e_machine = "@ + decimal(machine as nat)
                + "，期望 x86-64("@ + decimal(62) + ")"@,
        }),
{
}

/// The words for what is wrong with the segments of an image.
pub proof fn law_wording_of_segment_errors(error: SegmentError)
    ensures
        error.message() == (match error {
            SegmentError::BadProgramHeaders => "Program Header 表越界或不完整"@,
            SegmentError::FileszLargerThanMemsz => "p_filesz 大于 p_memsz"@,
            SegmentError::DataOutOfBounds => "段数据超出文件长度"@,
            SegmentError::AddressOverflow => "段地址范围溢出"@,
            SegmentError::EmptySegment => "段长度为 0"@,
            SegmentError::OverlappingSegments => "两个段的区间重叠"@,
            SegmentError::EntryNotExecutable => "入口点不在任何可执行段内"@,
        }),
{
}

/// The words for why page tables could not be built.
pub proof fn law_wording_of_build_errors(error: BuildError)
    ensures
        error.message() == (match error {
            BuildError::ArenaMisaligned { address } => "页表竞技场 0x"@ + hex(address as nat)
                + " 未按 "@ + decimal(4096) + " 字节对齐"@,
            BuildError::ArenaTooSmall { needed, got } => "页表竞技场过小：需要 "@ + decimal(
                needed as nat,
            ) + " 字节，实际 "@ + decimal(got as nat) + " 字节"@,
            BuildError::NoUsableRam => "内存图中没有可用的 RAM 区域"@,
            BuildError::ConfigTooLarge { max_identity_bytes, supported } => "映射上限 "@ + decimal(
                max_identity_bytes as nat,
            ) + " 字节超出本实现支持的 "@ + decimal(supported as nat) + " 字节"@,
            BuildError::FineGrainedTooLarge { fine_grained_bytes, supported } => "细粒度区间 "@
                + decimal(fine_grained_bytes as nat) + " 字节超出本实现支持的 "@ + decimal(
                supported as nat,
            ) + " 字节"@,
        }),
{
}

/// The words for why boot information was refused.
pub proof fn law_wording_of_boot_info_errors(error: BootInfoError)
    ensures
        error.message() == (match error {
            BootInfoError::WrongMagic { found } => "BootInfo magic 不匹配（得到 0x"@ + hex_padded(
                found as nat,
                16,
            ) + "，期望 0x"@ + hex_padded(0x5061_7261_6E75_6B01, 16) + "）"@,
            BootInfoError::UnsupportedVersion { found, supported } =>
            "BootInfo 版本不受支持（得到 "@ + decimal(found as nat) + "，支持 "@ + decimal(
                supported as nat,
            ) + "）"@,
            BootInfoError::TooSmall { size, expected } => "BootInfo 过小（得到 "@ + decimal(
                size as nat,
            ) + " 字节，至少需要 "@ + decimal(expected as nat) + " 字节）"@,
        }),
{
}

/// The words for what is wrong with the paging mode.
pub proof fn law_wording_of_mode_problems(problem: CpuModeProblem)
    ensures
        problem.message() == (match problem {
            CpuModeProblem::PagingOff => "分页未开启（CR0.PG = 0）"@,
            CpuModeProblem::PaeOff => "未启用 PAE（CR4.PAE = 0）"@,
            CpuModeProblem::FiveLevelPaging =>
            "处于五级分页（CR4.LA57 = 1），本实现只支持四级"@,
            CpuModeProblem::NotInLongMode => "未处于长模式（EFER.LMA = 0）"@,
            CpuModeProblem::PcideEnabled =>
            "已启用 PCID（CR4.PCIDE = 1），写入裸 CR3 会破坏地址"@,
        }),
{
}

/// The words for why memory could not be set up.
pub proof fn law_wording_of_memory_errors(error: MemoryError)
    ensures
        error.message() == (match error {
            MemoryError::UnexpectedCpuMode { detail } => "CPU 分页模式不符合预期："@
                + detail.message(),
            MemoryError::ArenaOutsideKernel { arena } => "页表竞技场 0x"@ + hex(arena as nat)
                + " 不在内核镜像区间内（内核未按链接地址加载？）"@,
            MemoryError::BadMap(error) => "内存图不可用："@ + error.message(),
            MemoryError::Build(error) => "页表构建失败："@ + error.message(),
            MemoryError::BootInfoLostAfterSwitch =>
            "切换 CR3 后 BootInfo 不再可读：恒等映射没有覆盖交接结构"@,
        }),
{
}

/// The words for what is remarkable about an interrupt.
pub proof fn law_wording_of_notices(notice: Notice)
    ensures
        notice.message() == (match notice {
            Notice::Spurious =>
            "收到伪 IRQ7（未在服务寄存器里）：未发送 EOI，避免误清真实中断"@,
            Notice::UnexpectedIrq7 => "意外的 IRQ7：已 EOI"@,
            Notice::UnexpectedVector { vector, irq } => "未预期的中断向量 0x"@ + hex_padded(
                vector as nat,
                2,
            ) + "（IRQ"@ + decimal(irq as nat) + "）：已屏蔽并 EOI"@,
        }),
{
}

/// The names of the exceptions.
pub proof fn law_wording_of_exceptions(vector: u64)
    ensures
        name_of(vector) == (match vector {
            0 => "#DE 除零"@,
            1 => "#DB 调试"@,
            2 => "NMI 不可屏蔽中断"@,
            3 => "#BP 断点"@,
            4 => "#OF 溢出"@,
            5 => "#BR 越界"@,
            6 => "#UD 非法指令"@,
            7 => "#NM 设备不可用"@,
            8 => "#DF 双重故障"@,
            9 => "保留(9)"@,
            10 => "#TS 无效 TSS"@,
            11 => "#NP 段不存在"@,
            12 => "#SS 栈段错误"@,
            13 => "#GP 通用保护"@,
            14 => "#PF 页错误"@,
            15 => "保留(15)"@,
            16 => "#MF x87 浮点"@,
            17 => "#AC 对齐检查"@,
            18 => "#MC 机器检查"@,
            19 => "#XM SIMD 浮点"@,
            20 => "#VE 虚拟化异常"@,
            21 => "#CP 控制流保护"@,
            22 => "保留(22)"@,
            23 => "保留(23)"@,
            24 => "保留(24)"@,
            25 => "保留(25)"@,
            26 => "保留(26)"@,
            27 => "保留(27)"@,
            28 => "#HV 虚拟化注入"@,
            29 => "#VC SEV 异常"@,
            30 => "#SX 安全异常"@,
            31 => "保留(31)"@,
            _ => "未知向量"@,
        }),
{
}

/// The report of an exception: three lines, and a fourth for a page fault alone.
pub proof fn law_wording_of_the_report(frame: ExceptionFrame, cr2: u64)
    ensures
        report_lines(frame, cr2).len() == (if frame.vector == 14 { 4int } else { 3 }),
        report_lines(frame, cr2)[0] == "未处理的 CPU 异常: "@ + name_of(frame.vector) + " (vector "@
            + decimal(frame.vector as nat) + ")"@,
        report_lines(frame, cr2)[1] == "  error_code=0x"@ + hex(frame.error_code as nat)
            + " rip=0x"@ + hex(frame.rip as nat) + " cs=0x"@ + hex(frame.cs as nat)
            + " rflags=0x"@ + hex(frame.rflags as nat),
        report_lines(frame, cr2)[2] == "  rsp=0x"@ + hex(frame.rsp as nat) + " ss=0x"@ + hex(
            frame.ss as nat,
        ),
        frame.vector == 14 ==> report_lines(frame, cr2)[3] == "  cr2=0x"@ + hex(cr2 as nat)
            + " (触发页错误的地址)"@,
{
}

/// The lines of the self-check, each with its level.
pub proof fn law_wording_of_the_self_check(info: BootInfo, i: int)
    ensures
        word_line(info, i) == (
            Level::Error,
            "  bootinfo+"@ + decimal((8 * i) as nat) + " = 0x"@ + hex_padded(
                u64_at(info.encoded(), 8 * i) as nat,
                16,
            ),
        ),
        header_line(info) == (
            Level::Info,
            "BootInfo v"@ + decimal(info.version as nat) + " size="@ + decimal(info.size as nat)
                + " magic=0x"@ + hex_padded(info.magic as nat, 16),
        ),
        stride_line(info) == (
            Level::Warn,
            "内存描述符步长是 "@ + decimal(info.mmap_desc_size as nat)
                + " 字节（标准为 40），按 BootInfo 给出的步长处理"@,
        ),
        map_line(info) == (
            Level::Info,
            "memory map: "@ + decimal(info.mmap_len as nat) + " 项, desc_size="@ + decimal(
                info.mmap_desc_size as nat,
            ) + ", desc_ver="@ + decimal(info.mmap_desc_ver as nat),
        ),
        kernel_line(info) == (
            Level::Info,
            "kernel range: 0x"@ + hex(info.kernel_base as nat) + "..0x"@ + hex(
                (info.kernel_base + info.kernel_size) as nat,
            ),
        ),
        stack_line(info) == (
            Level::Info,
            "stack: 0x"@ + hex((info.stack_top - info.stack_size) as nat) + "..0x"@ + hex(
                info.stack_top as nat,
            ),
        ),
        failure_line(info) == (Level::Error, "self-check FAILED: "@ + info.check()->Err_0.message()),
        rsdp_line(info) == (Level::Info, "rsdp=0x"@ + hex(info.rsdp as nat)),
{
    reveal(word_line);
    reveal(header_line);
    reveal(stride_line);
    reveal(map_line);
    reveal(kernel_line);
    reveal(stack_line);
    reveal(failure_line);
    reveal(rsdp_line);
}

/// The last line that the kernel logs.
pub proof fn law_wording_of_the_end(port: u32, value: u8)
    ensures
        last_line(port, value) == (if port == 0 {
            "未启用调试退出，进入 hlt 停机"@
        } else {
            "退出码 "@ + decimal((2 * value + 1) as nat) + " (isa-debug-exit 端口 0x"@ + hex(
                port as nat,
            ) + " <- 0x"@ + hex_padded(value as nat, 2) + ")"@
        }),
{
}

} // verus!
