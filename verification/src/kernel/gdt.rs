//! Segment descriptors, the task state segment and the interrupt stacks.
//!
//! The selectors keep their usual values (`0x08` code, `0x10` data, `0x18` TSS), so the running
//! code stays valid when the table is loaded.

use vstd::prelude::*;

verus! {

/// Selector of the kernel's code segment.
pub const KERNEL_CODE: u16 = 0x08;

/// Selector of the kernel's data segment.
pub const KERNEL_DATA: u16 = 0x10;

/// Selector of the task state segment.
pub const TSS_SELECTOR: u16 = 0x18;

/// Interrupt stack of the double fault.
pub const IST_DOUBLE_FAULT: u8 = 1;

/// Interrupt stack of the non-maskable interrupt.
pub const IST_NMI: u8 = 2;

/// Vector of the double fault.
pub const IST_VECTOR_DOUBLE_FAULT: u8 = 8;

/// Vector of the non-maskable interrupt.
pub const IST_VECTOR_NMI: u8 = 2;

/// Length of a 64-bit task state segment.
pub const TSS_SIZE: u16 = 104;

/// Number of descriptors in the table.
pub const GDT_ENTRIES: usize = 8;

/// Length of the descriptor table minus one, as the processor wants it.
pub const GDT_LIMIT: u16 = 63;

/// Number of interrupt stacks.
pub const IST_COUNT: usize = 7;

/// The 64-bit task state segment.
#[derive(Clone, Copy, Debug)]
pub struct Tss {
    /// Stack for privilege level 0.
    pub rsp0: u64,
    /// Stack for privilege level 1.
    pub rsp1: u64,
    /// Stack for privilege level 2.
    pub rsp2: u64,
    /// Tops of the interrupt stacks 1 to 7.
    pub ist: [u64; IST_COUNT],
    /// Offset of the I/O permission map; the length of the segment means that there is none.
    pub iomap_base: u16,
}

impl Tss {
    /// A task state segment without stacks and without an I/O permission map.
    #[must_use]
    pub fn new() -> (tss: Self)
        ensures
            tss.rsp0 == 0 && tss.rsp1 == 0 && tss.rsp2 == 0,
            tss.ist@ == Seq::new(7, |i: int| 0u64),
            tss.iomap_base == TSS_SIZE,
            tss.iomap_base == 104,
    {
        Self { rsp0: 0, rsp1: 0, rsp2: 0, ist: [0u64; IST_COUNT], iomap_base: TSS_SIZE }
    }

    /// Sets the interrupt stacks of the double fault and the non-maskable interrupt.
    pub fn set_stacks(&mut self, double_fault: u64, nmi: u64)
        ensures
            final(self).ist@ == old(self).ist@.update(IST_DOUBLE_FAULT - 1, double_fault).update(
                IST_NMI - 1,
                nmi,
            ),
            final(self).ist@ == old(self).ist@.update(0, double_fault).update(1, nmi),
            final(self).rsp0 == old(self).rsp0,
            final(self).rsp1 == old(self).rsp1,
            final(self).rsp2 == old(self).rsp2,
            final(self).iomap_base == old(self).iomap_base,
    {
        self.ist[IST_DOUBLE_FAULT as usize - 1] = double_fault;
        self.ist[IST_NMI as usize - 1] = nmi;
    }

    /// Top of an interrupt stack; 0 if there is no such stack.
    #[must_use]
    pub fn ist_top(&self, index: u8) -> (top: u64)
        ensures
            top == (if 1 <= index <= 7 { self.ist@[index - 1] } else { 0 }),
    {
        if index < 1 || index > 7 {
            return 0;
        }
        self.ist[index as usize - 1]
    }
}

/// The flat 64-bit code segment: limit 0xFFFF, access 0x9A, flags 0xAF.
#[must_use]
pub fn code_descriptor() -> (descriptor: u64)
    ensures
        descriptor == 0x00AF_9A00_0000_FFFF,
{
    0x00AF_9A00_0000_FFFF
}

/// The flat data segment: limit 0xFFFF, access 0x92, flags 0xCF.
#[must_use]
pub fn data_descriptor() -> (descriptor: u64)
    ensures
        descriptor == 0x00CF_9200_0000_FFFF,
{
    0x00CF_9200_0000_FFFF
}

/// The low half of a TSS descriptor: from the lowest bit up 16 bits of the limit, 24 bits of the
/// base, the access byte, four bits of the limit, four flags, and 8 more bits of the base.
pub open spec fn tss_low(base: u64) -> int {
    (TSS_SIZE - 1) + 0x1_0000 * (base as int % 0x100_0000) + 0x100_0000_0000 * 0x89
        + 0x100_0000_0000_0000 * (base as int / 0x100_0000 % 0x100)
}

/// The two halves of the descriptor of a task state segment at `base`: present, privilege level
/// 0, an available 64-bit TSS.
#[must_use]
pub fn tss_descriptor(base: u64) -> (halves: (u64, u64))
    ensures
        halves.0 == tss_low(base),
        halves.1 == base / 0x1_0000_0000,
        // The base is put together from its three places; the limit is 103, the type a present
        // 64-bit TSS.
        halves.0 as int / 0x1_0000 % 0x100_0000 + 0x100_0000 * (halves.0 as int
            / 0x100_0000_0000_0000) + 0x1_0000_0000 * halves.1 == base,
        halves.0 as int % 0x1_0000 == 103,
        halves.0 as int / 0x100_0000_0000 % 0x100 == 0x89,
        halves.0 as int / 0x1_0000_0000_0000 % 0x100 == 0,
{
    proof {
        law_tss_descriptor(base);
    }
    let limit: u64 = (TSS_SIZE - 1) as u64;
    let low: u64 = limit + 0x1_0000 * (base % 0x100_0000) + 0x8900_0000_0000
        + 0x100_0000_0000_0000 * (base / 0x100_0000 % 0x100);
    (low, base / 0x1_0000_0000)
}

/// The base address in a descriptor, put together from its three places.
pub open spec fn descriptor_base(low: int, high: int) -> int {
    low / 0x1_0000 % 0x100_0000 + 0x100_0000 * (low / 0x100_0000_0000_0000 % 0x100)
        + 0x1_0000_0000 * high
}

/// The processor finds the segment where it is, with its length and as a present 64-bit TSS.
pub proof fn law_tss_descriptor(base: u64)
    ensures
        descriptor_base(tss_low(base), base as int / 0x1_0000_0000) == base,
        tss_low(base) % 0x1_0000 == TSS_SIZE - 1,
        tss_low(base) / 0x100_0000_0000 % 0x100 == 0x89,
        tss_low(base) / 0x1_0000_0000_0000 % 0x100 == 0,
{
    let a = base as int % 0x100_0000;
    let b = base as int / 0x100_0000 % 0x100;
    let low = tss_low(base);
    assert(low == 103 + 0x1_0000 * (a + 0x100_0000 * (0x89 + 0x1_0000 * b)));
    assert(low / 0x1_0000 == a + 0x100_0000 * (0x89 + 0x1_0000 * b));
    assert(low / 0x1_0000 % 0x100_0000 == a);
    assert(low == (103 + 0x1_0000 * a) + 0x100_0000_0000 * (0x89 + 0x1_0000 * b));
    assert(low / 0x100_0000_0000 == 0x89 + 0x1_0000 * b);
    assert(low == (103 + 0x1_0000 * a + 0x100_0000_0000 * 0x89) + 0x100_0000_0000_0000 * b);
    assert(low / 0x100_0000_0000_0000 == b);
    assert(low == (103 + 0x1_0000 * a + 0x100_0000_0000 * 0x89) + 0x1_0000_0000_0000 * (0x100 * b));
    assert(low / 0x1_0000_0000_0000 == 0x100 * b);
    assert(base as int / 0x1_0000_0000 == base as int / 0x100_0000 / 0x100);
}

/// The descriptors: empty, code, data, the TSS (two places), and three spare places.
#[must_use]
pub fn descriptors(tss_base: u64) -> (table: [u64; GDT_ENTRIES])
    ensures
        table@ == seq![
            0u64,
            0x00AF_9A00_0000_FFFFu64,
            0x00CF_9200_0000_FFFFu64,
            tss_low(tss_base) as u64,
            tss_base / 0x1_0000_0000,
            0u64,
            0u64,
            0u64,
        ],
{
    let (low, high) = tss_descriptor(tss_base);
    let table: [u64; GDT_ENTRIES] = [0, code_descriptor(), data_descriptor(), low, high, 0, 0, 0];
    table
}

/// Compares the table register that was read back with what was loaded.
///
/// # Errors
/// A message, if base or limit differ.
pub fn check_loaded(base: u64, limit: u16, read_base: u64, read_limit: u16) -> (result: Result<
    (),
    &'static str,
>)
    ensures
        match result {
            Ok(()) => read_base == base && read_limit == limit,
            Err(text) => (read_base != base || read_limit != limit) && text@
                == "sgdt 读回的 GDTR 与装载的不一致"@,
        },
{
    if read_base != base || read_limit != limit {
        return Err("sgdt 读回的 GDTR 与装载的不一致");
    }
    Ok(())
}

} // verus!
