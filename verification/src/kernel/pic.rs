//! The 8259 interrupt controllers and the interval timer, driven by port I/O alone.

use vstd::prelude::*;

use crate::kernel::port::{PortWrite, PortWrites, MAX_WRITES};

verus! {

/// Command port of the master.
pub const PIC1: u16 = 0x20;

/// Data port of the master.
pub const PIC1_DATA: u16 = 0x21;

/// Command port of the slave.
pub const PIC2: u16 = 0xA0;

/// Data port of the slave.
pub const PIC2_DATA: u16 = 0xA1;

/// Vector of IRQ 0; the master has this one and the next seven.
pub const PIC1_OFFSET: u8 = 0x20;

/// Vector of IRQ 8; the slave has this one and the next seven.
pub const PIC2_OFFSET: u8 = 0x28;

/// The timer is IRQ 0.
pub const TIMER_IRQ: u8 = 0;

/// Vector of the timer.
pub const TIMER_VECTOR: u8 = PIC1_OFFSET + TIMER_IRQ;

/// Vector of IRQ 7, where spurious interrupts arrive.
pub const SPURIOUS_IRQ7_VECTOR: u8 = PIC1_OFFSET + 7;

/// Input frequency of the interval timer in Hz.
pub const PIT_FREQUENCY: u32 = 1_193_182;

/// Frequency of the timer interrupt in Hz, as near as the divisor allows.
pub const TIMER_HZ: u32 = 100;

/// Command port of the interval timer.
pub const PIT_COMMAND: u16 = 0x43;

/// Data port of timer channel 0.
pub const PIT_CHANNEL0: u16 = 0x40;

/// A port that takes a bus cycle and does nothing else.
pub const WAIT_PORT: u16 = 0x80;

/// A write followed by a short wait.
pub open spec fn settled(port: u16, value: u8) -> Seq<PortWrite> {
    seq![PortWrite { port, value }, PortWrite { port: WAIT_PORT, value: 0 }]
}

/// Appends a write followed by a short wait.
fn push_settled(writes: &mut PortWrites, port: u16, value: u8)
    requires
        old(writes).well_formed(),
        old(writes)@.len() + 2 <= MAX_WRITES,
    ensures
        final(writes).well_formed(),
        final(writes)@ == old(writes)@ + settled(port, value),
{
    writes.push(port, value);
    writes.push(WAIT_PORT, 0);
    assert(writes@ =~= old(writes)@ + settled(port, value));
}

/// The writes that move the master to vectors `0x20..0x28` and the slave to `0x28..0x30`, and mask
/// every IRQ.
pub open spec fn remap_writes() -> Seq<PortWrite> {
    settled(PIC1, 0x11) + settled(PIC2, 0x11) + settled(PIC1_DATA, PIC1_OFFSET) + settled(
        PIC2_DATA,
        PIC2_OFFSET,
    ) + settled(PIC1_DATA, 0x04) + settled(PIC2_DATA, 0x02) + settled(PIC1_DATA, 0x01) + settled(
        PIC2_DATA,
        0x01,
    ) + seq![
        PortWrite { port: PIC1_DATA, value: 0xFF },
        PortWrite { port: PIC2_DATA, value: 0xFF },
    ]
}

/// Moves both controllers away from the vectors of processor exceptions and masks every IRQ.
#[must_use]
pub fn remap() -> (writes: PortWrites)
    ensures
        writes.well_formed(),
        writes@ == remap_writes(),
        // Each word is followed by a write to port 0x80: start, vectors, wiring and mode, for the
        // master at 0x20 and the slave at 0xA0 in turn. The two masks come last.
        writes@.len() == 18,
        forall|i: int|
            0 <= i < 8 ==> #[trigger] writes@[2 * i + 1] == (PortWrite { port: 0x80, value: 0 }),
        writes@[0] == (PortWrite { port: 0x20, value: 0x11 }),
        writes@[2] == (PortWrite { port: 0xA0, value: 0x11 }),
        writes@[4] == (PortWrite { port: 0x21, value: 0x20 }),
        writes@[6] == (PortWrite { port: 0xA1, value: 0x28 }),
        writes@[8] == (PortWrite { port: 0x21, value: 4 }),
        writes@[10] == (PortWrite { port: 0xA1, value: 2 }),
        writes@[12] == (PortWrite { port: 0x21, value: 1 }),
        writes@[14] == (PortWrite { port: 0xA1, value: 1 }),
        writes@[16] == (PortWrite { port: 0x21, value: 0xFF }),
        writes@[17] == (PortWrite { port: 0xA1, value: 0xFF }),
{
    let mut writes = PortWrites::new();
    push_settled(&mut writes, PIC1, 0x11);  // start, with a fourth word to come
    assert(writes@ =~= settled(PIC1, 0x11));
    push_settled(&mut writes, PIC2, 0x11);
    push_settled(&mut writes, PIC1_DATA, PIC1_OFFSET);  // vectors of the master
    push_settled(&mut writes, PIC2_DATA, PIC2_OFFSET);  // vectors of the slave
    push_settled(&mut writes, PIC1_DATA, 0x04);  // the slave is on IRQ 2
    push_settled(&mut writes, PIC2_DATA, 0x02);  // the slave's own number
    push_settled(&mut writes, PIC1_DATA, 0x01);  // 8086 mode
    push_settled(&mut writes, PIC2_DATA, 0x01);
    let ghost before = writes@;
    writes.push(PIC1_DATA, 0xFF);
    writes.push(PIC2_DATA, 0xFF);
    assert(writes@ =~= before + seq![
        PortWrite { port: PIC1_DATA, value: 0xFF },
        PortWrite { port: PIC2_DATA, value: 0xFF },
    ]);
    writes
}

/// The port that holds the mask of an IRQ.
pub open spec fn mask_port(irq: u8) -> u16 {
    if irq < 8 {
        PIC1_DATA
    } else {
        PIC2_DATA
    }
}

/// The bit of an IRQ in its mask.
pub open spec fn mask_bit(irq: u8) -> u8 {
    1u8 << (irq % 8)
}

/// The writes that let an IRQ through, given both masks: its own bit is cleared, and for an IRQ of
/// the slave also the bit of IRQ 2, through which the slave reports.
pub open spec fn unmask_writes(irq: u8, master: u8, slave: u8) -> Seq<PortWrite> {
    if irq < 8 {
        seq![PortWrite { port: PIC1_DATA, value: master & !mask_bit(irq) }]
    } else {
        seq![
            PortWrite { port: PIC2_DATA, value: slave & !mask_bit(irq) },
            PortWrite { port: PIC1_DATA, value: master & !mask_bit(2) },
        ]
    }
}

/// Lets an IRQ through, given the masks that both controllers have now.
#[must_use]
pub fn unmask(irq: u8, master: u8, slave: u8) -> (writes: PortWrites)
    requires
        irq < 16,
    ensures
        writes.well_formed(),
        writes@ == unmask_writes(irq, master, slave),
        irq < 8 ==> writes@ == seq![PortWrite { port: 0x21, value: master & !(1u8 << irq) }],
        irq >= 8 ==> writes@ == seq![
            PortWrite { port: 0xA1, value: slave & !(1u8 << (irq - 8)) },
            PortWrite { port: 0x21, value: master & !(1u8 << 2u8) },
        ],
{
    let bit: u8 = 1u8 << (irq % 8);
    let mut writes = PortWrites::new();
    if irq < 8 {
        writes.push(PIC1_DATA, master & !bit);
    } else {
        writes.push(PIC2_DATA, slave & !bit);
        writes.push(PIC1_DATA, master & !(1u8 << (2u8 % 8)));
    }
    assert(writes@ =~= unmask_writes(irq, master, slave));
    writes
}

/// Masks an IRQ, given the mask its controller has now.
#[must_use]
pub fn mask(irq: u8, current: u8) -> (write: PortWrite)
    requires
        irq < 16,
    ensures
        write == (PortWrite { port: mask_port(irq), value: current | mask_bit(irq) }),
        irq < 8 ==> write == (PortWrite { port: 0x21, value: current | (1u8 << irq) }),
        irq >= 8 ==> write == (PortWrite { port: 0xA1, value: current | (1u8 << (irq - 8)) }),
{
    let port: u16 = if irq < 8 {
        PIC1_DATA
    } else {
        PIC2_DATA
    };
    PortWrite::new(port, current | (1u8 << (irq % 8)))
}

/// The writes that end an interrupt.
pub open spec fn eoi_writes(irq: u8) -> Seq<PortWrite> {
    if irq >= 8 {
        seq![PortWrite { port: PIC2, value: 0x20 }, PortWrite { port: PIC1, value: 0x20 }]
    } else {
        seq![PortWrite { port: PIC1, value: 0x20 }]
    }
}

/// Ends an interrupt; one of the slave has to be ended on both controllers.
#[must_use]
pub fn eoi(irq: u8) -> (writes: PortWrites)
    ensures
        writes.well_formed(),
        writes@ == eoi_writes(irq),
        irq < 8 ==> writes@ == seq![PortWrite { port: 0x20, value: 0x20 }],
        irq >= 8 ==> writes@ == seq![
            PortWrite { port: 0xA0, value: 0x20 },
            PortWrite { port: 0x20, value: 0x20 },
        ],
{
    let mut writes = PortWrites::new();
    if irq >= 8 {
        writes.push(PIC2, 0x20);
    }
    writes.push(PIC1, 0x20);
    assert(writes@ =~= eoi_writes(irq));
    writes
}

/// Decides about an interrupt on IRQ 7, given the master's in-service register: whether it is
/// spurious, and what to write.
///
/// A spurious interrupt is not in service. Ending it would end another interrupt that is, so
/// nothing is written then.
#[must_use]
pub fn handle_spurious_irq7(in_service: u8) -> (result: (bool, PortWrites))
    ensures
        result.1.well_formed(),
        result.0 == (in_service & 0x80 == 0),
        result.1@ == (if in_service & 0x80 == 0 { Seq::<PortWrite>::empty() } else { eoi_writes(7) }),
        in_service & 0x80 != 0 ==> result.1@ == seq![PortWrite { port: 0x20, value: 0x20 }],
{
    if in_service & 0x80 == 0 {
        (true, PortWrites::new())
    } else {
        (false, eoi(7))
    }
}

/// The divisor nearest to `PIT_FREQUENCY / hz` that fits the timer.
pub open spec fn pit_divisor(hz: u32) -> int {
    let nearest = (PIT_FREQUENCY + hz as int / 2) / hz as int;
    if nearest < 1 {
        1
    } else if nearest > u16::MAX {
        u16::MAX as int
    } else {
        nearest
    }
}

/// Sets timer channel 0 to a square wave near `hz`; returns the divisor and the writes.
#[must_use]
pub fn init_pit(hz: u32) -> (result: (u16, PortWrites))
    requires
        hz > 0,
    ensures
        result.1.well_formed(),
        result.0 == pit_divisor(hz),
        result.1@ == settled(PIT_COMMAND, 0x36) + settled(
            PIT_CHANNEL0,
            (result.0 % 0x100) as u8,
        ) + settled(PIT_CHANNEL0, (result.0 / 0x100) as u8),
        result.1@ == seq![
            PortWrite { port: 0x43, value: 0x36 },
            PortWrite { port: 0x80, value: 0 },
            PortWrite { port: 0x40, value: (result.0 % 0x100) as u8 },
            PortWrite { port: 0x80, value: 0 },
            PortWrite { port: 0x40, value: (result.0 / 0x100) as u8 },
            PortWrite { port: 0x80, value: 0 },
        ],
{
    let nearest: u32 = (PIT_FREQUENCY + hz / 2) / hz;
    let divisor: u16 = if nearest < 1 {
        1
    } else if nearest > 0xFFFF {
        0xFFFF
    } else {
        nearest as u16
    };
    let mut writes = PortWrites::new();
    push_settled(&mut writes, PIT_COMMAND, 0x36);  // channel 0, both bytes, mode 3, binary
    assert(writes@ =~= settled(PIT_COMMAND, 0x36));
    push_settled(&mut writes, PIT_CHANNEL0, (divisor % 0x100) as u8);
    push_settled(&mut writes, PIT_CHANNEL0, (divisor / 0x100) as u8);
    (divisor, writes)
}

/// The divisor misses the wanted rate by at most half a step, as long as it need not be clamped.
pub proof fn law_divisor_is_nearest(hz: u32)
    requires
        hz > 0,
        1 <= (PIT_FREQUENCY + hz as int / 2) / hz as int <= u16::MAX,
    ensures
        -(hz as int) <= 2 * (pit_divisor(hz) * hz - PIT_FREQUENCY) <= hz,
{
    let h = hz as int;
    let sum = PIT_FREQUENCY + h / 2;
    vstd::arithmetic::div_mod::lemma_fundamental_div_mod(sum, h);
    vstd::arithmetic::div_mod::lemma_mod_bound(sum, h);
    vstd::arithmetic::mul::lemma_mul_is_commutative(pit_divisor(hz), h);
}

/// The kernel's rate takes the divisor 11932.
pub proof fn law_kernel_divisor()
    ensures
        pit_divisor(TIMER_HZ) == 11932,
{
}

/// Masking and unmasking change the bit of the IRQ alone, and undo each other.
pub proof fn law_mask_changes_one_bit(current: u8, irq: u8, other: u8)
    requires
        irq < 8,
        other < 8,
    ensures
        (current | mask_bit(irq)) & mask_bit(irq) != 0,
        (current & !mask_bit(irq)) & mask_bit(irq) == 0,
        irq != other ==> (current | mask_bit(irq)) & mask_bit(other) == current & mask_bit(other),
        irq != other ==> (current & !mask_bit(irq)) & mask_bit(other) == current & mask_bit(other),
{
    assert((current | (1u8 << (irq % 8))) & (1u8 << (irq % 8)) != 0) by (bit_vector)
        requires
            irq < 8,
    ;
    assert((current & !(1u8 << (irq % 8))) & (1u8 << (irq % 8)) == 0) by (bit_vector)
        requires
            irq < 8,
    ;
    if irq != other {
        assert((current | (1u8 << (irq % 8))) & (1u8 << (other % 8)) == current & (1u8 << (other
            % 8)) && (current & !(1u8 << (irq % 8))) & (1u8 << (other % 8)) == current & (1u8 << (
        other % 8))) by (bit_vector)
            requires
                irq < 8,
                other < 8,
                irq != other,
        ;
    }
}

} // verus!
