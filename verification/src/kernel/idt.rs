//! Interrupt gates and the report of a processor exception.
//!
//! An exception ends the kernel: it is reported and the machine is stopped, so nothing is ever
//! returned to.

use vstd::prelude::*;
use vstd::string::*;

use crate::kernel::gdt::{
    IST_DOUBLE_FAULT, IST_NMI, IST_VECTOR_DOUBLE_FAULT, IST_VECTOR_NMI,
};
use crate::text::{decimal, hex, Pieces, MESSAGE_PIECES};

verus! {

/// Number of processor exceptions.
pub const EXCEPTIONS: usize = 32;

/// Number of gates.
pub const GATES: usize = 256;

/// Length of the table minus one, as the processor wants it: 256 gates of 16 bytes.
pub const IDT_LIMIT: u16 = 4095;

/// Vector of the page fault.
pub const PAGE_FAULT: u64 = 14;

/// Name of an exception.
pub open spec fn name_of(vector: u64) -> Seq<char> {
    match vector {
        0 => "#DE 除零"@,
        1 => "#DB 调试"@,
        2 => "NMI 不可屏蔽中断"@,
        3 => "#BP 断点"@,
        4 => "#OF 溢出"@,
        5 => "#BR 越界"@,
        6 => "#UD 非法指令"@,
        7 => "#NM 设备不可用"@,
        8 => "#DF 双重故障"@,
        9 => "保留(9)"@,
        10 => "#TS 无效 TSS"@,
        11 => "#NP 段不存在"@,
        12 => "#SS 栈段错误"@,
        13 => "#GP 通用保护"@,
        14 => "#PF 页错误"@,
        15 => "保留(15)"@,
        16 => "#MF x87 浮点"@,
        17 => "#AC 对齐检查"@,
        18 => "#MC 机器检查"@,
        19 => "#XM SIMD 浮点"@,
        20 => "#VE 虚拟化异常"@,
        21 => "#CP 控制流保护"@,
        22 => "保留(22)"@,
        23 => "保留(23)"@,
        24 => "保留(24)"@,
        25 => "保留(25)"@,
        26 => "保留(26)"@,
        27 => "保留(27)"@,
        28 => "#HV 虚拟化注入"@,
        29 => "#VC SEV 异常"@,
        30 => "#SX 安全异常"@,
        31 => "保留(31)"@,
        _ => "未知向量"@,
    }
}

/// Name of an exception.
#[must_use]
pub fn exception_name(vector: u64) -> (name: &'static str)
    ensures
        name@ == name_of(vector),
{
    match vector {
        0 => "#DE 除零",
        1 => "#DB 调试",
        2 => "NMI 不可屏蔽中断",
        3 => "#BP 断点",
        4 => "#OF 溢出",
        5 => "#BR 越界",
        6 => "#UD 非法指令",
        7 => "#NM 设备不可用",
        8 => "#DF 双重故障",
        9 => "保留(9)",
        10 => "#TS 无效 TSS",
        11 => "#NP 段不存在",
        12 => "#SS 栈段错误",
        13 => "#GP 通用保护",
        14 => "#PF 页错误",
        15 => "保留(15)",
        16 => "#MF x87 浮点",
        17 => "#AC 对齐检查",
        18 => "#MC 机器检查",
        19 => "#XM SIMD 浮点",
        20 => "#VE 虚拟化异常",
        21 => "#CP 控制流保护",
        22 => "保留(22)",
        23 => "保留(23)",
        24 => "保留(24)",
        25 => "保留(25)",
        26 => "保留(26)",
        27 => "保留(27)",
        28 => "#HV 虚拟化注入",
        29 => "#VC SEV 异常",
        30 => "#SX 安全异常",
        31 => "保留(31)",
        _ => "未知向量",
    }
}

/// An interrupt gate.
#[derive(Clone, Copy, PartialEq, Eq, Structural, Debug)]
pub struct Gate {
    /// Bits 0 to 15 of the handler's address.
    pub offset_low: u16,
    /// Code segment of the handler.
    pub selector: u16,
    /// Interrupt stack; 0 keeps the current stack.
    pub ist: u8,
    /// Present bit, privilege level and type.
    pub type_attr: u8,
    /// Bits 16 to 31 of the handler's address.
    pub offset_mid: u16,
    /// Bits 32 to 63 of the handler's address.
    pub offset_high: u32,
    /// Always zero.
    pub reserved: u32,
}

impl Gate {
    /// A gate that is not present.
    pub open spec fn absent() -> Gate {
        Gate {
            offset_low: 0,
            selector: 0,
            ist: 0,
            type_attr: 0,
            offset_mid: 0,
            offset_high: 0,
            reserved: 0,
        }
    }

    /// A 64-bit interrupt gate of privilege level 0.
    pub open spec fn interrupt(handler: u64, selector: u16, ist: u8) -> Gate {
        Gate {
            offset_low: (handler % 0x1_0000) as u16,
            selector,
            ist,
            type_attr: 0x8E,
            offset_mid: (handler / 0x1_0000 % 0x1_0000) as u16,
            offset_high: (handler / 0x1_0000_0000) as u32,
            reserved: 0,
        }
    }

    /// The handler's address, put together from its three places.
    pub open spec fn handler(self) -> int {
        self.offset_low + 0x1_0000 * self.offset_mid + 0x1_0000_0000 * self.offset_high
    }

    /// A gate that is not present.
    #[must_use]
    pub fn missing() -> (gate: Self)
        ensures
            gate == Self::absent(),
            gate.type_attr == 0,
    {
        Self {
            offset_low: 0,
            selector: 0,
            ist: 0,
            type_attr: 0,
            offset_mid: 0,
            offset_high: 0,
            reserved: 0,
        }
    }

    /// An interrupt gate that keeps the current stack.
    #[must_use]
    pub fn new(handler: u64, selector: u16) -> (gate: Self)
        ensures
            gate == Self::interrupt(handler, selector, 0),
            gate.offset_low + 0x1_0000 * gate.offset_mid + 0x1_0000_0000 * gate.offset_high
                == handler,
            gate.selector == selector,
            gate.ist == 0,
            gate.type_attr == 0x8E,
            gate.reserved == 0,
    {
        Self {
            offset_low: (handler % 0x1_0000) as u16,
            selector,
            ist: 0,
            type_attr: 0x8E,
            offset_mid: (handler / 0x1_0000 % 0x1_0000) as u16,
            offset_high: (handler / 0x1_0000_0000) as u32,
            reserved: 0,
        }
    }
}

/// The processor finds the handler it was given, on a present interrupt gate.
pub proof fn law_gate_leads_to_handler(handler: u64, selector: u16, ist: u8)
    ensures
        Gate::interrupt(handler, selector, ist).handler() == handler,
        Gate::interrupt(handler, selector, ist).type_attr == 0x8E,
{
}

/// The interrupt stack of a vector once interrupt stacks can be used.
pub open spec fn stack_of(vector: int) -> u8 {
    if vector == IST_VECTOR_DOUBLE_FAULT {
        IST_DOUBLE_FAULT
    } else if vector == IST_VECTOR_NMI {
        IST_NMI
    } else {
        0
    }
}

/// The gates: one for each exception, the rest not present.
///
/// Before the task state segment is loaded every gate has to keep the current stack; afterwards
/// (`stacks`) the double fault and the non-maskable interrupt get stacks of their own.
#[must_use]
pub fn gates(handlers: &[u64; EXCEPTIONS], selector: u16, stacks: bool) -> (table: [Gate; GATES])
    ensures
        table@ == Seq::new(
            GATES as nat,
            |i: int|
                if i < EXCEPTIONS {
                    Gate::interrupt(handlers@[i], selector, if stacks { stack_of(i) } else { 0 })
                } else {
                    Gate::absent()
                },
        ),
        // Every exception has a present interrupt gate to its own handler; only vectors 2 and 8
        // ever leave the current stack.
        forall|i: int|
            0 <= i < 32 ==> {
                &&& (#[trigger] table@[i]).offset_low + 0x1_0000 * table@[i].offset_mid
                    + 0x1_0000_0000 * table@[i].offset_high == handlers@[i]
                &&& table@[i].selector == selector
                &&& table@[i].type_attr == 0x8E
                &&& table@[i].ist == (if stacks && i == 8 {
                    1
                } else if stacks && i == 2 {
                    2int
                } else {
                    0
                })
            },
        forall|i: int| 32 <= i < 256 ==> (#[trigger] table@[i]).type_attr == 0,
{
    let missing = Gate::missing();
    let mut table: [Gate; GATES] = [missing; GATES];
    let mut vector: usize = 0;
    while vector < EXCEPTIONS
        invariant
            vector <= EXCEPTIONS,
            forall|i: int|
                0 <= i < GATES ==> #[trigger] table@[i] == (if i < vector {
                    Gate::interrupt(handlers@[i], selector, if stacks { stack_of(i) } else { 0 })
                } else {
                    Gate::absent()
                }),
        decreases EXCEPTIONS - vector,
    {
        let mut gate = Gate::new(handlers[vector], selector);
        if stacks && vector == IST_VECTOR_DOUBLE_FAULT as usize {
            gate.ist = IST_DOUBLE_FAULT;
        } else if stacks && vector == IST_VECTOR_NMI as usize {
            gate.ist = IST_NMI;
        }
        table[vector] = gate;
        vector = vector + 1;
    }
    table
}

/// What lies on the stack when an exception is handled.
#[derive(Clone, Copy, PartialEq, Eq, Structural, Debug)]
pub struct ExceptionFrame {
    /// The vector.
    pub vector: u64,
    /// The error code; 0 for exceptions without one.
    pub error_code: u64,
    /// Instruction pointer.
    pub rip: u64,
    /// Code segment.
    pub cs: u64,
    /// Flags.
    pub rflags: u64,
    /// Stack pointer.
    pub rsp: u64,
    /// Stack segment.
    pub ss: u64,
}

/// First line of the report.
pub open spec fn title_line(frame: ExceptionFrame) -> Seq<char> {
    "未处理的 CPU 异常: "@ + name_of(frame.vector) + " (vector "@ + decimal(frame.vector as nat)
        + ")"@
}

/// Second line of the report.
pub open spec fn code_line(frame: ExceptionFrame) -> Seq<char> {
    "  error_code=0x"@ + hex(frame.error_code as nat) + " rip=0x"@ + hex(frame.rip as nat)
        + " cs=0x"@ + hex(frame.cs as nat) + " rflags=0x"@ + hex(frame.rflags as nat)
}

/// Third line of the report.
pub open spec fn stack_line(frame: ExceptionFrame) -> Seq<char> {
    "  rsp=0x"@ + hex(frame.rsp as nat) + " ss=0x"@ + hex(frame.ss as nat)
}

/// Fourth line of the report, for a page fault alone: the address that was accessed.
pub open spec fn fault_line(cr2: u64) -> Seq<char> {
    "  cr2=0x"@ + hex(cr2 as nat) + " (触发页错误的地址)"@
}

/// The lines that report an exception; `cr2` matters for a page fault alone.
pub open spec fn report_lines(frame: ExceptionFrame, cr2: u64) -> Seq<Seq<char>> {
    let lines = seq![title_line(frame), code_line(frame), stack_line(frame)];
    if frame.vector == PAGE_FAULT {
        lines.push(fault_line(cr2))
    } else {
        lines
    }
}

/// Line `index` of the report of an exception, in pieces; `None` behind the last line.
#[must_use]
pub fn exception_line(frame: &ExceptionFrame, cr2: u64, index: usize) -> (line: Option<Pieces>)
    ensures
        match line {
            Some(line) => {
                &&& index < report_lines(*frame, cr2).len()
                &&& line.len <= MESSAGE_PIECES
                &&& line@ == report_lines(*frame, cr2)[index as int]
            },
            None => index >= report_lines(*frame, cr2).len(),
        },
{
    let mut line = Pieces::new();
    if index == 0 {
        line.text("未处理的 CPU 异常: ");
        line.text(exception_name(frame.vector));
        line.text(" (vector ");
        line.decimal(frame.vector);
        line.text(")");
        assert(line@ =~= title_line(*frame));
    } else if index == 1 {
        line.text("  error_code=0x");
        line.hex(frame.error_code);
        line.text(" rip=0x");
        line.hex(frame.rip);
        line.text(" cs=0x");
        line.hex(frame.cs);
        line.text(" rflags=0x");
        line.hex(frame.rflags);
        assert(line@ =~= code_line(*frame));
    } else if index == 2 {
        line.text("  rsp=0x");
        line.hex(frame.rsp);
        line.text(" ss=0x");
        line.hex(frame.ss);
        assert(line@ =~= stack_line(*frame));
    } else if index == 3 && frame.vector == PAGE_FAULT {
        line.text("  cr2=0x");
        line.hex(cr2);
        line.text(" (触发页错误的地址)");
        assert(line@ =~= fault_line(cr2));
    } else {
        return None;
    }
    Some(line)
}

/// The lines that report an exception; `cr2` matters for a page fault alone.
#[must_use]
pub fn exception_report(frame: &ExceptionFrame, cr2: u64) -> (lines: Vec<String>)
    ensures
        lines@.len() == report_lines(*frame, cr2).len(),
        forall|i: int|
            0 <= i < lines@.len() ==> (#[trigger] lines@[i])@ == report_lines(*frame, cr2)[i],
{
    let mut lines: Vec<String> = Vec::new();
    let count: usize = if frame.vector == PAGE_FAULT {
        4
    } else {
        3
    };
    let mut i: usize = 0;
    while i < count
        invariant
            i <= count,
            count == report_lines(*frame, cr2).len(),
            lines@.len() == i,
            forall|k: int|
                0 <= k < i ==> (#[trigger] lines@[k])@ == report_lines(*frame, cr2)[k],
        decreases count - i,
    {
        if let Some(line) = exception_line(frame, cr2, i) {
            lines.push(line.to_string());
        }
        i = i + 1;
    }
    lines
}

} // verus!
