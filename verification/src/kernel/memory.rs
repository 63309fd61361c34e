//! Setting up the kernel's own page tables: the processor mode, the arena, the memory map.

use vstd::prelude::*;
use vstd::string::*;

use crate::boot_info::BootInfo;
use crate::map::{
    buffer_len, map_fault, regions_in, MapError, MemoryMap, Region, DESCRIPTOR_MIN_SIZE,
};
use crate::paging::{
    build_at, built, law_identity_mapping, law_page_zero_is_never_mapped, law_ram_is_mapped,
    translate, BuildError, PageTables, PagingConfig, BLOCK_SIZE, MAX_IDENTITY_BYTES, PAGE_SIZE,
};
use crate::text::{hex, push_hex};

verus! {

/// `CR0.PG`: paging is on.
pub const CR0_PG: u64 = 0x8000_0000;

/// `CR4.PAE`: physical address extension.
pub const CR4_PAE: u64 = 0x20;

/// `CR4.LA57`: five-level paging.
pub const CR4_LA57: u64 = 0x1000;

/// `CR4.PCIDE`: process context identifiers.
pub const CR4_PCIDE: u64 = 0x2_0000;

/// `EFER.LMA`: long mode is active.
pub const EFER_LMA: u64 = 0x400;

/// Number of the `EFER` register.
pub const MSR_EFER: u32 = 0xC000_0080;

/// Number of pages in the table arena.
pub const ARENA_PAGES: usize = 7;

/// Number of bytes in the table arena.
pub const ARENA_BYTES: usize = 28672;

/// The arena holds exactly the tables of the kernel's configuration.
pub proof fn law_arena_fits_the_tables(config: PagingConfig)
    requires
        config.max_identity_bytes == MAX_IDENTITY_BYTES,
        config.fine_grained_bytes == BLOCK_SIZE,
    ensures
        config.tables() == ARENA_PAGES,
        config.tables() * 4096 == ARENA_BYTES,
{
}

/// The control registers that tell the paging mode.
#[derive(Clone, Copy, PartialEq, Eq, Structural, Debug)]
pub struct CpuRegisters {
    /// Control register 0.
    pub cr0: u64,
    /// Control register 4.
    pub cr4: u64,
    /// Extended feature enable register.
    pub efer: u64,
}

/// What is wrong with the paging mode.
#[derive(Clone, Copy, PartialEq, Eq, Structural, Debug)]
pub enum CpuModeProblem {
    /// Paging is off.
    PagingOff,
    /// No physical address extension.
    PaeOff,
    /// Five-level paging; only four levels are supported.
    FiveLevelPaging,
    /// Not in long mode.
    NotInLongMode,
    /// Process context identifiers are on: the low bits of `CR3` would not be address bits.
    PcideEnabled,
}

impl CpuModeProblem {
    /// The message of this problem.
    pub open spec fn message(self) -> Seq<char> {
        match self {
            CpuModeProblem::PagingOff => "分页未开启（CR0.PG = 0）"@,
            CpuModeProblem::PaeOff => "未启用 PAE（CR4.PAE = 0）"@,
            CpuModeProblem::FiveLevelPaging =>
            "处于五级分页（CR4.LA57 = 1），本实现只支持四级"@,
            CpuModeProblem::NotInLongMode => "未处于长模式（EFER.LMA = 0）"@,
            CpuModeProblem::PcideEnabled =>
            "已启用 PCID（CR4.PCIDE = 1），写入裸 CR3 会破坏地址"@,
        }
    }

    /// The message of this problem.
    #[must_use]
    pub fn to_string(&self) -> (text: String)
        ensures
            text@ == self.message(),
    {
        match *self {
            Self::PagingOff => "分页未开启（CR0.PG = 0）".to_owned(),
            Self::PaeOff => "未启用 PAE（CR4.PAE = 0）".to_owned(),
            Self::FiveLevelPaging => {
                "处于五级分页（CR4.LA57 = 1），本实现只支持四级".to_owned()
            },
            Self::NotInLongMode => "未处于长模式（EFER.LMA = 0）".to_owned(),
            Self::PcideEnabled => {
                "已启用 PCID（CR4.PCIDE = 1），写入裸 CR3 会破坏地址".to_owned()
            },
        }
    }
}

/// Why memory could not be set up.
#[derive(Clone, Copy, PartialEq, Eq, Structural, Debug)]
pub enum MemoryError {
    /// The processor is not in the expected paging mode.
    UnexpectedCpuMode {
        /// What is wrong.
        detail: CpuModeProblem,
    },
    /// The table arena is not inside the kernel image, so the kernel was not loaded where it was
    /// linked.
    ArenaOutsideKernel {
        /// Address of the arena.
        arena: u64,
    },
    /// The memory map cannot be used.
    BadMap(MapError),
    /// The page tables could not be built.
    Build(BuildError),
    /// The boot information could not be read any more after the tables were loaded.
    BootInfoLostAfterSwitch,
}

impl MemoryError {
    /// The message of this error.
    pub open spec fn message(self) -> Seq<char> {
        match self {
            MemoryError::UnexpectedCpuMode { detail } => "CPU 分页模式不符合预期："@
                + detail.message(),
            MemoryError::ArenaOutsideKernel { arena } => "页表竞技场 0x"@ + hex(arena as nat)
                + " 不在内核镜像区间内（内核未按链接地址加载？）"@,
            MemoryError::BadMap(error) => "内存图不可用："@ + error.message(),
            MemoryError::Build(error) => "页表构建失败："@ + error.message(),
            MemoryError::BootInfoLostAfterSwitch =>
            "切换 CR3 后 BootInfo 不再可读：恒等映射没有覆盖交接结构"@,
        }
    }

    /// The message of this error.
    #[must_use]
    pub fn to_string(&self) -> (text: String)
        ensures
            text@ == self.message(),
    {
        let mut text = String::new();
        match *self {
            Self::UnexpectedCpuMode { detail } => {
                text.append("CPU 分页模式不符合预期：");
                text.append(detail.to_string().as_str());
            },
            Self::ArenaOutsideKernel { arena } => {
                text.append("页表竞技场 0x");
                push_hex(&mut text, arena);
                text.append(" 不在内核镜像区间内（内核未按链接地址加载？）");
            },
            Self::BadMap(error) => {
                text.append("内存图不可用：");
                text.append(error.to_string().as_str());
            },
            Self::Build(error) => {
                text.append("页表构建失败：");
                text.append(error.to_string().as_str());
            },
            Self::BootInfoLostAfterSwitch => {
                text.append("切换 CR3 后 BootInfo 不再可读：恒等映射没有覆盖交接结构");
            },
        }
        text
    }
}

impl From<MapError> for MemoryError {
    fn from(error: MapError) -> (result: Self) {
        Self::BadMap(error)
    }
}

impl vstd::std_specs::convert::FromSpecImpl<MapError> for MemoryError {
    open spec fn obeys_from_spec() -> bool {
        true
    }

    open spec fn from_spec(error: MapError) -> Self {
        MemoryError::BadMap(error)
    }
}

impl From<BuildError> for MemoryError {
    fn from(error: BuildError) -> (result: Self) {
        Self::Build(error)
    }
}

impl vstd::std_specs::convert::FromSpecImpl<BuildError> for MemoryError {
    open spec fn obeys_from_spec() -> bool {
        true
    }

    open spec fn from_spec(error: BuildError) -> Self {
        MemoryError::Build(error)
    }
}

/// The first thing that is wrong with the paging mode.
pub open spec fn cpu_problem(registers: CpuRegisters) -> Option<CpuModeProblem> {
    if registers.cr0 & CR0_PG == 0 {
        Some(CpuModeProblem::PagingOff)
    } else if registers.cr4 & CR4_PAE == 0 {
        Some(CpuModeProblem::PaeOff)
    } else if registers.cr4 & CR4_LA57 != 0 {
        Some(CpuModeProblem::FiveLevelPaging)
    } else if registers.efer & EFER_LMA == 0 {
        Some(CpuModeProblem::NotInLongMode)
    } else if registers.cr4 & CR4_PCIDE != 0 {
        Some(CpuModeProblem::PcideEnabled)
    } else {
        None
    }
}

/// Checks that the processor pages with four levels in long mode, without context identifiers.
///
/// # Errors
/// [`MemoryError::UnexpectedCpuMode`] with the first problem.
pub fn check_cpu_mode(registers: &CpuRegisters) -> (result: Result<(), MemoryError>)
    ensures
        result == (match cpu_problem(*registers) {
            Some(detail) => Err::<(), MemoryError>(MemoryError::UnexpectedCpuMode { detail }),
            None => Ok(()),
        }),
        result is Ok <==> {
            &&& registers.cr0 & 0x8000_0000 != 0
            &&& registers.cr4 & 0x20 != 0
            &&& registers.cr4 & 0x1000 == 0
            &&& registers.efer & 0x400 != 0
            &&& registers.cr4 & 0x2_0000 == 0
        },
        result matches Err(MemoryError::UnexpectedCpuMode { detail }) ==> match detail {
            CpuModeProblem::PagingOff => registers.cr0 & 0x8000_0000 == 0,
            CpuModeProblem::PaeOff => registers.cr0 & 0x8000_0000 != 0 && registers.cr4 & 0x20 == 0,
            CpuModeProblem::FiveLevelPaging => registers.cr0 & 0x8000_0000 != 0 && registers.cr4
                & 0x20 != 0 && registers.cr4 & 0x1000 != 0,
            CpuModeProblem::NotInLongMode => registers.cr0 & 0x8000_0000 != 0 && registers.cr4
                & 0x20 != 0 && registers.cr4 & 0x1000 == 0 && registers.efer & 0x400 == 0,
            CpuModeProblem::PcideEnabled => registers.cr0 & 0x8000_0000 != 0 && registers.cr4 & 0x20
                != 0 && registers.cr4 & 0x1000 == 0 && registers.efer & 0x400 != 0 && registers.cr4
                & 0x2_0000 != 0,
        },
{
    let detail = if registers.cr0 & CR0_PG == 0 {
        CpuModeProblem::PagingOff
    } else if registers.cr4 & CR4_PAE == 0 {
        CpuModeProblem::PaeOff
    } else if registers.cr4 & CR4_LA57 != 0 {
        CpuModeProblem::FiveLevelPaging
    } else if registers.efer & EFER_LMA == 0 {
        CpuModeProblem::NotInLongMode
    } else if registers.cr4 & CR4_PCIDE != 0 {
        CpuModeProblem::PcideEnabled
    } else {
        return Ok(());
    };
    Err(MemoryError::UnexpectedCpuMode { detail })
}

/// Whether `len` bytes from `address` on lie in the kernel image.
pub open spec fn inside_kernel(boot_info: BootInfo, address: u64, len: int) -> bool {
    let sum = boot_info.kernel_base + boot_info.kernel_size;
    let end = if sum <= u64::MAX { sum } else { u64::MAX as int };
    boot_info.kernel_base <= address < end && address + len <= end
}

/// Checks that the table arena of `len` bytes lies in the kernel image.
///
/// # Errors
/// [`MemoryError::ArenaOutsideKernel`].
pub fn check_arena(boot_info: &BootInfo, arena: u64, len: usize) -> (result: Result<
    (),
    MemoryError,
>)
    ensures
        result == (if inside_kernel(*boot_info, arena, len as int) {
            Ok::<(), MemoryError>(())
        } else {
            Err(MemoryError::ArenaOutsideKernel { arena })
        }),
        // The image ends at the end of the address space at the latest.
        result is Ok <==> {
            &&& boot_info.kernel_base <= arena
            &&& arena < boot_info.kernel_base + boot_info.kernel_size
            &&& arena < u64::MAX
            &&& arena + len <= boot_info.kernel_base + boot_info.kernel_size
            &&& arena + len <= u64::MAX
        },
{
    let kernel_end: u64 = boot_info.kernel_base.saturating_add(boot_info.kernel_size);
    if arena < boot_info.kernel_base || arena >= kernel_end || len as u64 > kernel_end - arena {
        return Err(MemoryError::ArenaOutsideKernel { arena });
    }
    Ok(())
}

/// Number of bytes that the memory map of the boot information takes.
///
/// # Errors
/// [`MapError::StrideTooSmall`] and [`MapError::TooLarge`], told apart: a damaged stride is not
/// reported as a map that is too large.
pub fn memory_map_len(boot_info: &BootInfo) -> (len: Result<usize, MapError>)
    ensures
        len == ({
            let needed = boot_info.mmap_len * boot_info.mmap_desc_size;
            if boot_info.mmap_desc_size < DESCRIPTOR_MIN_SIZE {
                Err(MapError::StrideTooSmall(boot_info.mmap_desc_size))
            } else if needed > u64::MAX || needed > usize::MAX {
                Err(
                    MapError::TooLarge {
                        entries: boot_info.mmap_len,
                        stride: boot_info.mmap_desc_size,
                    },
                )
            } else {
                Ok(needed as usize)
            }
        }),
        len matches Ok(len) ==> len == boot_info.mmap_len * boot_info.mmap_desc_size,
        len is Ok <==> boot_info.mmap_desc_size >= 40 && boot_info.mmap_len
            * boot_info.mmap_desc_size <= u64::MAX && boot_info.mmap_len * boot_info.mmap_desc_size
            <= usize::MAX,
        (len matches Err(MapError::StrideTooSmall(_))) <==> boot_info.mmap_desc_size < 40,
{
    if boot_info.mmap_desc_size < DESCRIPTOR_MIN_SIZE {
        return Err(MapError::StrideTooSmall(boot_info.mmap_desc_size));
    }
    match buffer_len(boot_info.mmap_len, boot_info.mmap_desc_size) {
        Some(len) => Ok(len),
        None => Err(
            MapError::TooLarge { entries: boot_info.mmap_len, stride: boot_info.mmap_desc_size },
        ),
    }
}

/// What is wrong with the memory map of the boot information, given its bytes.
pub open spec fn boot_map_fault(boot_info: BootInfo, bytes: Seq<u8>) -> Option<MapError> {
    if boot_info.mmap_desc_size < DESCRIPTOR_MIN_SIZE {
        Some(MapError::StrideTooSmall(boot_info.mmap_desc_size))
    } else {
        map_fault(bytes, boot_info.mmap_len, boot_info.mmap_desc_size)
    }
}

/// The regions of the memory map of the boot information.
pub open spec fn boot_regions(boot_info: BootInfo, bytes: Seq<u8>) -> Seq<Region> {
    regions_in(bytes, boot_info.mmap_len as int, boot_info.mmap_desc_size as int)
}

/// Reads the memory map of the boot information from the bytes it points to.
///
/// # Errors
/// [`MemoryError::BadMap`].
pub fn boot_info_memory_map<'a>(boot_info: &BootInfo, bytes: &'a [u8]) -> (result: Result<
    MemoryMap<'a>,
    MemoryError,
>)
    ensures
        match result {
            Ok(map) => {
                &&& boot_map_fault(*boot_info, bytes@) is None
                &&& map.well_formed()
                &&& map.regions() == boot_regions(*boot_info, bytes@)
                &&& map.descriptor_version() == boot_info.mmap_desc_ver
                &&& map.entry_count() == boot_info.mmap_len
                &&& map.step() == boot_info.mmap_desc_size
                &&& map.descriptors() == bytes@.take(
                    boot_info.mmap_len * boot_info.mmap_desc_size,
                )
            },
            Err(error) => {
                &&& boot_map_fault(*boot_info, bytes@) is Some
                &&& error == MemoryError::BadMap(boot_map_fault(*boot_info, bytes@)->0)
            },
        },
{
    assert(boot_info.mmap_len == 0 ==> boot_info.mmap_len * boot_info.mmap_desc_size == 0)
        by (nonlinear_arith);
    match memory_map_len(boot_info) {
        Err(error) => {
            return Err(MemoryError::from(error));
        },
        Ok(_) => {},
    }
    match MemoryMap::from_bytes(
        bytes,
        boot_info.mmap_len,
        boot_info.mmap_desc_size,
        boot_info.mmap_desc_ver,
    ) {
        Ok(map) => Ok(map),
        Err(error) => Err(MemoryError::from(error)),
    }
}

/// What [`install`] returns and leaves in the arena.
pub open spec fn installed(
    registers: CpuRegisters,
    boot_info: BootInfo,
    bytes: Seq<u8>,
    address: u64,
    before: Seq<u8>,
    result: Result<PageTables, MemoryError>,
    after: Seq<u8>,
) -> bool {
    let config = PagingConfig {
        max_identity_bytes: MAX_IDENTITY_BYTES,
        fine_grained_bytes: BLOCK_SIZE,
    };
    if cpu_problem(registers) is Some {
        &&& result == Err::<PageTables, MemoryError>(
            MemoryError::UnexpectedCpuMode { detail: cpu_problem(registers)->0 },
        )
        &&& after == before
    } else if !inside_kernel(boot_info, address, before.len() as int) {
        &&& result == Err::<PageTables, MemoryError>(
            MemoryError::ArenaOutsideKernel { arena: address },
        )
        &&& after == before
    } else if boot_map_fault(boot_info, bytes) is Some {
        &&& result == Err::<PageTables, MemoryError>(
            MemoryError::BadMap(boot_map_fault(boot_info, bytes)->0),
        )
        &&& after == before
    } else {
        let regions = boot_regions(boot_info, bytes);
        match result {
            Ok(tables) => built(before, address, regions, config, Ok(tables), after),
            Err(MemoryError::Build(error)) => built(
                before,
                address,
                regions,
                config,
                Err(error),
                after,
            ),
            Err(_) => false,
        }
    }
}

/// Builds the kernel's page tables in an arena at `address`, from the memory map at `bytes`.
///
/// The caller loads them. Nothing but RAM is mapped afterwards.
///
/// # Errors
/// See [`MemoryError`]; the arena has not changed then.
pub fn install(
    registers: &CpuRegisters,
    boot_info: &BootInfo,
    bytes: &[u8],
    arena: &mut [u8],
    address: u64,
) -> (result: Result<PageTables, MemoryError>)
    requires
        address + old(arena)@.len() <= u64::MAX,
    ensures
        installed(
            *registers,
            *boot_info,
            bytes@,
            address,
            old(arena)@,
            result,
            final(arena)@,
        ),
{
    match check_cpu_mode(registers) {
        Err(error) => {
            return Err(error);
        },
        Ok(()) => {},
    }
    match check_arena(boot_info, address, arena.len()) {
        Err(error) => {
            return Err(error);
        },
        Ok(()) => {},
    }
    let map = match boot_info_memory_map(boot_info, bytes) {
        Ok(map) => map,
        Err(error) => return Err(error),
    };
    match build_at(arena, address, &map, &PagingConfig::m2()) {
        Ok(tables) => Ok(tables),
        Err(error) => Err(MemoryError::from(error)),
    }
}

/// Once the tables are loaded, RAM below 4 GiB stays where it was: every address in it, except for
/// the first page, translates to itself.
pub proof fn law_ram_stays_reachable(
    registers: CpuRegisters,
    boot_info: BootInfo,
    bytes: Seq<u8>,
    address: u64,
    before: Seq<u8>,
    tables: PageTables,
    after: Seq<u8>,
    r: int,
    ram: int,
)
    requires
        installed(registers, boot_info, bytes, address, before, Ok(tables), after),
        address + ARENA_BYTES <= 0x10_0000_0000_0000,
        0 <= r < boot_regions(boot_info, bytes).len(),
        boot_regions(boot_info, bytes)[r].kind.ram(),
        boot_regions(boot_info, bytes)[r].base <= ram < boot_regions(boot_info, bytes)[r].limit(),
        PAGE_SIZE <= ram < MAX_IDENTITY_BYTES,
    ensures
        translate(after, tables.pml4_phys as int, ram) == Some(ram),
{
    let regions = boot_regions(boot_info, bytes);
    let config = PagingConfig {
        max_identity_bytes: MAX_IDENTITY_BYTES,
        fine_grained_bytes: BLOCK_SIZE,
    };
    law_arena_fits_the_tables(config);
    law_identity_mapping(after, address, regions, config, ram);
    law_ram_is_mapped(regions, config, r, ram);
}

/// Once the tables are loaded, an access through a null pointer faults.
pub proof fn law_null_faults(
    registers: CpuRegisters,
    boot_info: BootInfo,
    bytes: Seq<u8>,
    address: u64,
    before: Seq<u8>,
    tables: PageTables,
    after: Seq<u8>,
    null: int,
)
    requires
        installed(registers, boot_info, bytes, address, before, Ok(tables), after),
        address + ARENA_BYTES <= 0x10_0000_0000_0000,
        0 <= null < PAGE_SIZE,
    ensures
        translate(after, tables.pml4_phys as int, null) is None,
{
    let regions = boot_regions(boot_info, bytes);
    let config = PagingConfig {
        max_identity_bytes: MAX_IDENTITY_BYTES,
        fine_grained_bytes: BLOCK_SIZE,
    };
    law_arena_fits_the_tables(config);
    law_identity_mapping(after, address, regions, config, null);
    law_page_zero_is_never_mapped(regions, config, null);
}

/// Checks the boot information again once the new tables are loaded: it lies at a physical
/// address, so it can be read only if the mapping covers it.
///
/// # Errors
/// [`MemoryError::BootInfoLostAfterSwitch`].
pub fn check_after_switch(boot_info: &BootInfo) -> (result: Result<(), MemoryError>)
    ensures
        result == (match boot_info.check() {
            Ok(()) => Ok::<(), MemoryError>(()),
            Err(_) => Err(MemoryError::BootInfoLostAfterSwitch),
        }),
        result is Ok <==> boot_info.magic == 0x5061_7261_6E75_6B01 && boot_info.version == 0
            && boot_info.size >= 88,
        result is Err ==> result == Err::<(), MemoryError>(MemoryError::BootInfoLostAfterSwitch),
{
    match boot_info.validate() {
        Ok(()) => Ok(()),
        Err(_) => Err(MemoryError::BootInfoLostAfterSwitch),
    }
}

} // verus!
