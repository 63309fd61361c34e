//! The scheduler's side of interrupts: what a hardware interrupt means and how it is answered.

use vstd::prelude::*;
use vstd::string::*;

use crate::kernel::pic::{
    eoi, eoi_writes, handle_spurious_irq7, mask, mask_bit, mask_port, SPURIOUS_IRQ7_VECTOR,
    TIMER_HZ, TIMER_IRQ, TIMER_VECTOR,
};
use crate::kernel::port::{PortWrite, PortWrites};
use crate::sched::{SchedError, Scheduler, ThreadKind, ThreadState, NO_THREAD};
use crate::text::{decimal, hex_padded, push_decimal, Pieces, MESSAGE_PIECES};

verus! {

/// How often [`wait_for_ticks`] may look at the tick count before it gives up.
pub const SPIN_BUDGET: u64 = 200_000_000;

/// Registers the context the kernel was started in as thread 0.
///
/// # Errors
/// [`SchedError::InvalidId`] if it is registered already or slot 0 is taken.
pub fn init_boot(sched: &mut Scheduler) -> (result: Result<(), SchedError>)
    requires
        old(sched).well_formed(),
    ensures
        final(sched).well_formed(),
        match result {
            Ok(()) => {
                &&& old(sched).current_id() == NO_THREAD
                &&& old(sched).states()@[0] == ThreadState::Unused
                &&& final(sched).states()@ == old(sched).states()@.update(0, ThreadState::Running)
                &&& final(sched).kinds()@ == old(sched).kinds()@.update(0, ThreadKind::Boot)
                &&& final(sched).current_id() == 0
                &&& final(sched).idle_id() == old(sched).idle_id()
                &&& final(sched).ready() == old(sched).ready()
                &&& final(sched).same_counts(old(sched))
                &&& final(sched).tick_count() == old(sched).tick_count()
                &&& final(sched).switch_count() == old(sched).switch_count()
            },
            Err(error) => {
                &&& error == SchedError::InvalidId(0)
                &&& old(sched).current_id() != NO_THREAD || old(sched).states()@[0]
                    != ThreadState::Unused
                &&& *final(sched) == *old(sched)
            },
        },
{
    sched.register_boot(0)
}

/// Ticks so far.
#[must_use]
pub fn ticks(sched: &Scheduler) -> (ticks: u64)
    ensures
        ticks == sched.tick_count(),
{
    sched.stats().ticks
}

/// What the interrupt controllers say at the time of an interrupt.
#[derive(Clone, Copy, PartialEq, Eq, Structural, Debug)]
pub struct PicState {
    /// Mask of the master.
    pub master_mask: u8,
    /// Mask of the slave.
    pub slave_mask: u8,
    /// The master's in-service register; it matters for IRQ 7 alone.
    pub in_service: u8,
}

/// What is remarkable about an interrupt.
#[derive(Clone, Copy, PartialEq, Eq, Structural, Debug)]
pub enum Notice {
    /// IRQ 7 without being in service.
    Spurious,
    /// IRQ 7 in service.
    UnexpectedIrq7,
    /// An interrupt that should have been masked.
    UnexpectedVector {
        /// Its vector.
        vector: u8,
        /// Its IRQ.
        irq: u8,
    },
}

impl Notice {
    /// The text to log.
    pub open spec fn message(self) -> Seq<char> {
        match self {
            Notice::Spurious =>
            "收到伪 IRQ7（未在服务寄存器里）：未发送 EOI，避免误清真实中断"@,
            Notice::UnexpectedIrq7 => "意外的 IRQ7：已 EOI"@,
            Notice::UnexpectedVector { vector, irq } => "未预期的中断向量 0x"@ + hex_padded(
                vector as nat,
                2,
            ) + "（IRQ"@ + decimal(irq as nat) + "）：已屏蔽并 EOI"@,
        }
    }

    /// The text to log, in pieces.
    #[must_use]
    pub fn pieces(&self) -> (line: Pieces)
        ensures
            line.len <= MESSAGE_PIECES,
            line@ == self.message(),
    {
        let mut line = Pieces::new();
        match *self {
            Self::Spurious => {
                line.text("收到伪 IRQ7（未在服务寄存器里）：未发送 EOI，避免误清真实中断");
            },
            Self::UnexpectedIrq7 => {
                line.text("意外的 IRQ7：已 EOI");
            },
            Self::UnexpectedVector { vector, irq } => {
                line.text("未预期的中断向量 0x");
                line.hex_padded(vector as u64, 2);
                line.text("（IRQ");
                line.decimal(irq as u64);
                line.text("）：已屏蔽并 EOI");
            },
        }
        assert(line@ =~= self.message());
        line
    }

    /// The text to log.
    #[must_use]
    pub fn to_string(&self) -> (text: String)
        ensures
            text@ == self.message(),
    {
        self.pieces().to_string()
    }
}

/// How an interrupt is answered.
#[derive(Clone, Copy, Debug)]
pub struct Reply {
    /// What to write to the controllers, in order.
    pub writes: PortWrites,
    /// What to log as an error, if anything.
    pub notice: Option<Notice>,
}

/// The IRQ of an unexpected vector: its low four bits, as the controllers start at 0x20.
pub open spec fn irq_of(vector: u8) -> u8 {
    vector % 16
}

/// What is written to answer an interrupt.
pub open spec fn reply_writes(vector: u8, pic: PicState) -> Seq<PortWrite> {
    let irq = irq_of(vector);
    let current = if irq < 8 { pic.master_mask } else { pic.slave_mask };
    if vector == TIMER_VECTOR {
        eoi_writes(TIMER_IRQ)
    } else if vector == SPURIOUS_IRQ7_VECTOR {
        if pic.in_service & 0x80 == 0 {
            Seq::empty()
        } else {
            eoi_writes(7)
        }
    } else {
        seq![PortWrite { port: mask_port(irq), value: current | mask_bit(irq) }] + eoi_writes(irq)
    }
}

/// What is logged about an interrupt.
pub open spec fn reply_notice(vector: u8, pic: PicState) -> Option<Notice> {
    if vector == TIMER_VECTOR {
        None
    } else if vector == SPURIOUS_IRQ7_VECTOR {
        if pic.in_service & 0x80 == 0 {
            Some(Notice::Spurious)
        } else {
            Some(Notice::UnexpectedIrq7)
        }
    } else {
        Some(Notice::UnexpectedVector { vector, irq: irq_of(vector) })
    }
}

/// Answers a hardware interrupt.
///
/// The timer counts a tick and is ended. IRQ 7 is ended only if it is in service. Any other
/// interrupt should be masked; it is masked again, ended and reported.
#[must_use]
pub fn irq_handler(sched: &mut Scheduler, vector: u8, pic: &PicState) -> (reply: Reply)
    requires
        old(sched).well_formed(),
        vector == TIMER_VECTOR ==> old(sched).tick_count() < u64::MAX,
    ensures
        reply.writes.well_formed(),
        reply.writes@ == reply_writes(vector, *pic),
        reply.notice == reply_notice(vector, *pic),
        final(sched).well_formed(),
        final(sched).states()@ == old(sched).states()@,
        final(sched).ready() == old(sched).ready(),
        final(sched).same_roles(old(sched)),
        final(sched).switch_count() == old(sched).switch_count(),
        final(sched).tick_count() == old(sched).tick_count() + (if vector == TIMER_VECTOR { 1int } else { 0 }),
        final(sched).tick_count() == old(sched).tick_count() + (if vector == 0x20 { 1int } else { 0 }),
        final(sched).current_id() == old(sched).current_id(),
        final(sched).idle_id() == old(sched).idle_id(),
        final(sched).kinds()@ == old(sched).kinds()@,
        // The timer, and IRQ 7 while it is in service, are ended on the master. IRQ 7 out of
        // service is not answered. Any other interrupt is masked on its controller and ended, one
        // of the slave on both.
        vector == 0x20 ==> reply.notice is None && reply.writes@ == seq![
            PortWrite { port: 0x20, value: 0x20 },
        ],
        vector == 0x27 && pic.in_service & 0x80 == 0 ==> reply.notice == Some(Notice::Spurious)
            && reply.writes@.len() == 0,
        vector == 0x27 && pic.in_service & 0x80 != 0 ==> reply.notice == Some(
            Notice::UnexpectedIrq7,
        ) && reply.writes@ == seq![PortWrite { port: 0x20, value: 0x20 }],
        vector != 0x20 && vector != 0x27 ==> {
            let irq = (vector % 16) as u8;
            &&& reply.notice == Some(Notice::UnexpectedVector { vector, irq })
            &&& irq < 8 ==> reply.writes@ == seq![
                PortWrite { port: 0x21, value: pic.master_mask | (1u8 << irq) },
                PortWrite { port: 0x20, value: 0x20 },
            ]
            &&& irq >= 8 ==> reply.writes@ == seq![
                PortWrite { port: 0xA1, value: pic.slave_mask | (1u8 << (irq - 8)) },
                PortWrite { port: 0xA0, value: 0x20 },
                PortWrite { port: 0x20, value: 0x20 },
            ]
        },
{
    if vector == TIMER_VECTOR {
        let _ = sched.on_tick(false);
        return Reply { writes: eoi(TIMER_IRQ), notice: None };
    }
    if vector == SPURIOUS_IRQ7_VECTOR {
        let (spurious, writes) = handle_spurious_irq7(pic.in_service);
        let notice = if spurious {
            Notice::Spurious
        } else {
            Notice::UnexpectedIrq7
        };
        return Reply { writes, notice: Some(notice) };
    }
    let irq: u8 = vector % 16;
    let current: u8 = if irq < 8 {
        pic.master_mask
    } else {
        pic.slave_mask
    };
    let masked = mask(irq, current);
    let mut writes = PortWrites::new();
    writes.push(masked.port, masked.value);
    writes.append(&eoi(irq));
    assert(writes@ =~= reply_writes(vector, *pic));
    Reply { writes, notice: Some(Notice::UnexpectedVector { vector, irq }) }
}

/// One look at the tick count while waiting.
#[derive(Clone, Copy, PartialEq, Eq, Structural, Debug)]
pub enum Wait {
    /// Enough ticks were counted: this many.
    Reached(u64),
    /// The budget is used up.
    GivenUp,
    /// Look again.
    Again,
}

/// Decides, after `spins` looks without success, about a tick count of `ticks` while `wanted` are
/// waited for.
#[must_use]
pub fn wait_for_ticks(ticks: u64, wanted: u64, spins: u64) -> (step: Wait)
    ensures
        step == (if ticks >= wanted {
            Wait::Reached(ticks)
        } else if spins >= SPIN_BUDGET {
            Wait::GivenUp
        } else {
            Wait::Again
        }),
        step is GivenUp <==> ticks < wanted && spins >= 200_000_000,
{
    if ticks >= wanted {
        Wait::Reached(ticks)
    } else if spins >= SPIN_BUDGET {
        Wait::GivenUp
    } else {
        Wait::Again
    }
}

/// The line that reports the scheduler as ready.
#[must_use]
pub fn log_ready(ready_threads: usize) -> (line: String)
    ensures
        line@ == "sched: "@ + decimal(ready_threads as nat) + " 个线程就绪，PIT "@ + decimal(
            TIMER_HZ as nat,
        ) + " Hz，GDT/TSS 已装载"@,
{
    let mut line = String::from_str("sched: ");
    push_decimal(&mut line, ready_threads as u64);
    line.append(" 个线程就绪，PIT ");
    push_decimal(&mut line, TIMER_HZ as u64);
    line.append(" Hz，GDT/TSS 已装载");
    line
}

} // verus!
