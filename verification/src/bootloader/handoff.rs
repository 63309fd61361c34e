//! From the boot loader to the kernel: the stack, the ACPI root pointer, and the boot information.

use vstd::prelude::*;

use crate::boot_info::{BootInfo, BOOT_INFO_MAGIC, BOOT_INFO_SIZE, BOOT_INFO_VERSION, DEBUG_EXIT_PORT};
use crate::bootloader::fs_loader::LoadedKernel;
use crate::kernel::boot::passes;

verus! {

/// Size of the kernel's stack: 64 KiB.
pub const KERNEL_STACK_SIZE: usize = 65536;

/// Number of pages in the kernel's stack.
pub const KERNEL_STACK_PAGES: usize = 16;

/// What was prepared before the firmware is left.
#[derive(Clone, Copy, PartialEq, Eq, Structural, Debug)]
pub struct Prepared {
    /// Top of the kernel's stack.
    pub stack_top: u64,
    /// Address of the page for the boot information.
    pub boot_info: u64,
    /// Address of the ACPI root pointer; 0 if there is none.
    pub rsdp: u64,
}

/// Puts together what was prepared: the stack at `stack_base`, the page at `boot_info`.
#[must_use]
pub fn prepare(stack_base: u64, boot_info: u64, rsdp: u64) -> (prepared: Prepared)
    requires
        stack_base + KERNEL_STACK_SIZE <= u64::MAX,
    ensures
        prepared.stack_top == stack_base + KERNEL_STACK_SIZE,
        prepared.stack_top == stack_base + 65536,
        prepared.boot_info == boot_info,
        prepared.rsdp == rsdp,
{
    Prepared { stack_top: stack_base + KERNEL_STACK_SIZE as u64, boot_info, rsdp }
}

impl Prepared {
    /// The stack pointer that the kernel is entered with: eight bytes below the top, as if it had
    /// been called.
    #[must_use]
    pub fn entry_stack_pointer(&self) -> (rsp: u64)
        requires
            self.stack_top >= 8,
        ensures
            rsp == self.stack_top - 8,
    {
        self.stack_top - 8
    }
}

/// A page-aligned stack gives the alignment that the kernel expects on entry.
pub proof fn law_entry_alignment(stack_base: u64, rsp: u64)
    requires
        stack_base % 4096 == 0,
        rsp == stack_base + KERNEL_STACK_SIZE - 8,
    ensures
        rsp % 16 == 8,
        stack_base < rsp < stack_base + KERNEL_STACK_SIZE,
{
}

/// What a firmware table is, as far as it matters here.
#[derive(Clone, Copy, PartialEq, Eq, Structural, Debug)]
pub enum TableKind {
    /// The ACPI 2.0 root pointer.
    Acpi2,
    /// The ACPI 1.0 root pointer.
    Acpi1,
    /// Anything else.
    Other,
}

/// An entry of the firmware's configuration table.
#[derive(Clone, Copy, PartialEq, Eq, Structural, Debug)]
pub struct ConfigEntry {
    /// What the entry points to.
    pub kind: TableKind,
    /// Where it points.
    pub address: u64,
}

/// The address of the first entry of a kind, leaving out addresses of 0 where `nonzero` is set.
pub open spec fn first_of(entries: Seq<ConfigEntry>, kind: TableKind, nonzero: bool) -> Option<u64>
    decreases entries.len(),
{
    if entries.len() == 0 {
        None
    } else if entries[0].kind == kind && (!nonzero || entries[0].address != 0) {
        Some(entries[0].address)
    } else {
        first_of(entries.skip(1), kind, nonzero)
    }
}

/// The ACPI root pointer: the first one of ACPI 2.0, or else the first one of ACPI 1.0 with an
/// address, or else 0.
pub open spec fn rsdp_in(entries: Seq<ConfigEntry>) -> u64 {
    match first_of(entries, TableKind::Acpi2, false) {
        Some(address) => address,
        None => match first_of(entries, TableKind::Acpi1, true) {
            Some(address) => address,
            None => 0,
        },
    }
}

/// Finds the ACPI root pointer in the firmware's configuration table.
#[must_use]
pub fn find_rsdp(entries: &[ConfigEntry]) -> (address: u64)
    ensures
        address == rsdp_in(entries@),
{
    let mut fallback: u64 = 0;
    let mut i: usize = 0;
    assert(entries@.skip(0) =~= entries@);
    while i < entries.len()
        invariant
            i <= entries@.len(),
            first_of(entries@, TableKind::Acpi2, false) == first_of(
                entries@.skip(i as int),
                TableKind::Acpi2,
                false,
            ),
            fallback == 0 ==> first_of(entries@, TableKind::Acpi1, true) == first_of(
                entries@.skip(i as int),
                TableKind::Acpi1,
                true,
            ),
            fallback != 0 ==> first_of(entries@, TableKind::Acpi1, true) == Some(fallback),
        decreases entries@.len() - i,
    {
        let entry = entries[i];
        assert(entries@.skip(i as int)[0] == entry);
        assert(entries@.skip(i as int).skip(1) =~= entries@.skip(i + 1));
        if entry.kind == TableKind::Acpi2 {
            return entry.address;
        }
        if entry.kind == TableKind::Acpi1 && fallback == 0 {
            fallback = entry.address;
        }
        i = i + 1;
    }
    fallback
}

/// An entry for ACPI 2.0 wins over any entry for ACPI 1.0, wherever it stands.
pub proof fn law_acpi2_is_preferred(entries: Seq<ConfigEntry>, i: int)
    requires
        0 <= i < entries.len(),
        entries[i].kind == TableKind::Acpi2,
        forall|j: int| 0 <= j < i ==> (#[trigger] entries[j]).kind != TableKind::Acpi2,
    ensures
        rsdp_in(entries) == entries[i].address,
    decreases i,
{
    if i > 0 {
        let rest = entries.skip(1);
        assert forall|j: int| 0 <= j < i - 1 implies (#[trigger] rest[j]).kind
            != TableKind::Acpi2 by {
            assert(rest[j] == entries[j + 1]);
        }
        assert(entries[0].kind != TableKind::Acpi2);
        law_acpi2_is_preferred(rest, i - 1);
        lemma_found(rest, i - 1);
    }
}

/// Which entry gives the root pointer: the first one for ACPI 2.0, else the first one for ACPI 1.0
/// with an address, else none.
pub proof fn law_which_root_pointer(entries: Seq<ConfigEntry>)
    ensures
        forall|i: int|
            {
                &&& 0 <= i < entries.len()
                &&& (#[trigger] entries[i]).kind == TableKind::Acpi2
                &&& forall|j: int| 0 <= j < i ==> (#[trigger] entries[j]).kind != TableKind::Acpi2
            } ==> rsdp_in(entries) == entries[i].address,
        forall|i: int|
            {
                &&& 0 <= i < entries.len()
                &&& forall|j: int|
                    0 <= j < entries.len() ==> (#[trigger] entries[j]).kind != TableKind::Acpi2
                &&& (#[trigger] entries[i]).kind == TableKind::Acpi1
                &&& entries[i].address != 0
                &&& forall|j: int|
                    0 <= j < i ==> (#[trigger] entries[j]).kind != TableKind::Acpi1
                        || entries[j].address == 0
            } ==> rsdp_in(entries) == entries[i].address,
        (forall|j: int|
            0 <= j < entries.len() ==> (#[trigger] entries[j]).kind != TableKind::Acpi2 && (
            entries[j].kind != TableKind::Acpi1 || entries[j].address == 0)) ==> rsdp_in(entries)
            == 0,
{
    lemma_first_of(entries, TableKind::Acpi2, false);
    lemma_first_of(entries, TableKind::Acpi1, true);
}

/// What the search for a kind finds.
proof fn lemma_first_of(entries: Seq<ConfigEntry>, kind: TableKind, nonzero: bool)
    ensures
        match first_of(entries, kind, nonzero) {
            Some(address) => exists|i: int|
                {
                    &&& 0 <= i < entries.len()
                    &&& (#[trigger] entries[i]).kind == kind
                    &&& nonzero ==> entries[i].address != 0
                    &&& address == entries[i].address
                    &&& forall|j: int|
                        0 <= j < i ==> (#[trigger] entries[j]).kind != kind || (nonzero
                            && entries[j].address == 0)
                },
            None => forall|j: int|
                0 <= j < entries.len() ==> (#[trigger] entries[j]).kind != kind || (nonzero
                    && entries[j].address == 0),
        },
    decreases entries.len(),
{
    if entries.len() > 0 {
        let rest = entries.skip(1);
        lemma_first_of(rest, kind, nonzero);
        if entries[0].kind == kind && (!nonzero || entries[0].address != 0) {
        } else if first_of(rest, kind, nonzero) is Some {
            let address = first_of(rest, kind, nonzero)->0;
            let i = choose|i: int|
                {
                    &&& 0 <= i < rest.len()
                    &&& (#[trigger] rest[i]).kind == kind
                    &&& nonzero ==> rest[i].address != 0
                    &&& address == rest[i].address
                    &&& forall|j: int|
                        0 <= j < i ==> (#[trigger] rest[j]).kind != kind || (nonzero
                            && rest[j].address == 0)
                };
            assert(entries[i + 1] == rest[i]);
            assert forall|j: int| 0 <= j < i + 1 implies (#[trigger] entries[j]).kind != kind || (
            nonzero && entries[j].address == 0) by {
                if j > 0 {
                    assert(rest[j - 1] == entries[j]);
                }
            }
        } else {
            assert forall|j: int| 0 <= j < entries.len() implies (#[trigger] entries[j]).kind
                != kind || (nonzero && entries[j].address == 0) by {
                if j > 0 {
                    assert(rest[j - 1] == entries[j]);
                }
            }
        }
    }
}

proof fn lemma_found(entries: Seq<ConfigEntry>, i: int)
    requires
        0 <= i < entries.len(),
        entries[i].kind == TableKind::Acpi2,
    ensures
        first_of(entries, TableKind::Acpi2, false) is Some,
    decreases i,
{
    if i > 0 {
        assert(entries.skip(1)[i - 1] == entries[i]);
        lemma_found(entries.skip(1), i - 1);
    }
}

/// The memory map that the firmware returned when it was left.
#[derive(Clone, Copy, PartialEq, Eq, Structural, Debug)]
pub struct FirmwareMap {
    /// Address of the descriptors.
    pub address: u64,
    /// Number of descriptors.
    pub entries: u64,
    /// Distance from one descriptor to the next.
    pub desc_size: u32,
    /// Version of the descriptors.
    pub desc_version: u32,
}

/// The debug exit port for the kernel: none unless the emulator is to be ended.
#[must_use]
pub fn exit_port(qemu_exit: bool) -> (port: u16)
    ensures
        port == (if qemu_exit { DEBUG_EXIT_PORT } else { 0 }),
        port == (if qemu_exit { 0xF4u16 } else { 0u16 }),
{
    if qemu_exit {
        DEBUG_EXIT_PORT
    } else {
        0
    }
}

/// The boot information for the kernel.
pub open spec fn handed_over(
    map: FirmwareMap,
    kernel: LoadedKernel,
    prepared: Prepared,
    port: u16,
) -> BootInfo {
    BootInfo {
        magic: BOOT_INFO_MAGIC,
        version: BOOT_INFO_VERSION,
        size: BOOT_INFO_SIZE as u32,
        mmap_ptr: map.address,
        mmap_len: map.entries,
        mmap_desc_size: map.desc_size,
        mmap_desc_ver: map.desc_version,
        rsdp: prepared.rsdp,
        kernel_base: kernel.base_address as u64,
        kernel_size: kernel.size as u64,
        stack_top: prepared.stack_top,
        stack_size: KERNEL_STACK_SIZE as u64,
        exit_port: port as u32,
        _reserved: 0,
    }
}

/// The boot information for the kernel.
#[must_use]
pub fn boot_info(map: &FirmwareMap, kernel: &LoadedKernel, prepared: &Prepared, port: u16) -> (info:
    BootInfo)
    ensures
        info == handed_over(*map, *kernel, *prepared, port),
        info.check() is Ok,
        info.magic == 0x5061_7261_6E75_6B01 && info.version == 0 && info.size == 88,
        info.mmap_ptr == map.address,
        info.mmap_len == map.entries,
        info.mmap_desc_size == map.desc_size,
        info.mmap_desc_ver == map.desc_version,
        info.rsdp == prepared.rsdp,
        info.kernel_base == kernel.base_address,
        info.kernel_size == kernel.size,
        info.stack_top == prepared.stack_top,
        info.stack_size == 65536,
        info.exit_port == port,
{
    let mut info = BootInfo::new();
    info.mmap_ptr = map.address;
    info.mmap_len = map.entries;
    info.mmap_desc_size = map.desc_size;
    info.mmap_desc_ver = map.desc_version;
    info.rsdp = prepared.rsdp;
    info.kernel_base = kernel.base_address as u64;
    info.kernel_size = kernel.size as u64;
    info.stack_top = prepared.stack_top;
    info.stack_size = KERNEL_STACK_SIZE as u64;
    info.exit_port = port as u32;
    info
}

/// What the boot loader hands over passes the kernel's self-check exactly if the firmware gave a
/// memory map and an ACPI root pointer.
pub proof fn law_handoff_passes_the_self_check(
    map: FirmwareMap,
    kernel: LoadedKernel,
    prepared: Prepared,
    port: u16,
)
    ensures
        passes(handed_over(map, kernel, prepared, port)) <==> {
            &&& map.address != 0
            &&& map.entries != 0
            &&& map.desc_size != 0
            &&& prepared.rsdp != 0
        },
{
}

} // verus!
