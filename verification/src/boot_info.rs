//! `BootInfo`, the structure the boot loader hands to the kernel, and the exit code protocol.
//!
//! Both sides share this definition. The layout in memory is part of the interface: each field has
//! a fixed offset, and fields may only be appended.

use vstd::prelude::*;
use vstd::string::*;

use crate::bytes::{
    le32, le64, lemma_le32_at, lemma_le64_at, push_u32, push_u64, read_u32, read_u64, spliced,
    u32_at, u64_at, write_u32, write_u64,
};
use crate::text::{decimal, hex_padded, Pieces};

verus! {

/// Magic of a `BootInfo`: the ASCII bytes of "Paranuk" and the interface version `0x01`.
pub const BOOT_INFO_MAGIC: u64 = 0x5061_7261_6E75_6B01;

/// The interface version of this library.
pub const BOOT_INFO_VERSION: u32 = 0;

/// Length of a `BootInfo` in memory.
pub const BOOT_INFO_SIZE: usize = 88;

/// Offset of `magic`.
pub const OFF_MAGIC: usize = 0;

/// Offset of `version`.
pub const OFF_VERSION: usize = 8;

/// Offset of `size`.
pub const OFF_SIZE: usize = 12;

/// Offset of `mmap_ptr`.
pub const OFF_MMAP_PTR: usize = 16;

/// Offset of `mmap_len`.
pub const OFF_MMAP_LEN: usize = 24;

/// Offset of `mmap_desc_size`.
pub const OFF_MMAP_DESC_SIZE: usize = 32;

/// Offset of `mmap_desc_ver`.
pub const OFF_MMAP_DESC_VER: usize = 36;

/// Offset of `rsdp`.
pub const OFF_RSDP: usize = 40;

/// Offset of `kernel_base`.
pub const OFF_KERNEL_BASE: usize = 48;

/// Offset of `kernel_size`.
pub const OFF_KERNEL_SIZE: usize = 56;

/// Offset of `stack_top`.
pub const OFF_STACK_TOP: usize = 64;

/// Offset of `stack_size`.
pub const OFF_STACK_SIZE: usize = 72;

/// Offset of `exit_port`.
pub const OFF_EXIT_PORT: usize = 80;

/// Offset of `_reserved`.
pub const OFF_RESERVED: usize = 84;

/// What the boot loader tells the kernel.
#[derive(Clone, Copy, PartialEq, Eq, Structural, Debug)]
pub struct BootInfo {
    /// [`BOOT_INFO_MAGIC`].
    pub magic: u64,
    /// [`BOOT_INFO_VERSION`].
    pub version: u32,
    /// Length of this structure in bytes.
    pub size: u32,
    /// Physical address of the memory descriptors.
    pub mmap_ptr: u64,
    /// Number of memory descriptors; 0 if there is no memory map.
    pub mmap_len: u64,
    /// Distance from one memory descriptor to the next.
    pub mmap_desc_size: u32,
    /// Version of the memory descriptors.
    pub mmap_desc_ver: u32,
    /// Physical address of the ACPI root pointer; 0 if there is none.
    pub rsdp: u64,
    /// Physical address the kernel was loaded to.
    pub kernel_base: u64,
    /// Length of the kernel image in bytes.
    pub kernel_size: u64,
    /// Top of the kernel stack.
    pub stack_top: u64,
    /// Length of the kernel stack in bytes.
    pub stack_size: u64,
    /// Port of the debug exit device; 0 if it is not used.
    pub exit_port: u32,
    /// Padding to 8 bytes.
    pub _reserved: u32,
}

impl Default for BootInfo {
    fn default() -> (info: Self)
        ensures
            info == BootInfo::zeroed(),
    {
        BootInfo {
            magic: 0,
            version: 0,
            size: 0,
            mmap_ptr: 0,
            mmap_len: 0,
            mmap_desc_size: 0,
            mmap_desc_ver: 0,
            rsdp: 0,
            kernel_base: 0,
            kernel_size: 0,
            stack_top: 0,
            stack_size: 0,
            exit_port: 0,
            _reserved: 0,
        }
    }
}

/// Why a `BootInfo` was refused.
#[allow(inconsistent_fields)]
#[derive(Clone, Copy, PartialEq, Eq, Structural, Debug)]
pub enum BootInfoError {
    /// The magic does not match.
    WrongMagic {
        /// What was found.
        found: u64,
    },
    /// The interface version is not supported.
    UnsupportedVersion {
        /// What was found.
        found: u32,
        /// What is supported.
        supported: u32,
    },
    /// Shorter than the structure this library knows.
    TooSmall {
        /// What was found.
        size: u32,
        /// What is needed.
        expected: u32,
    },
}

impl BootInfoError {
    /// The message of this error.
    pub open spec fn message(self) -> Seq<char> {
        match self {
            BootInfoError::WrongMagic { found } => "BootInfo magic 不匹配（得到 0x"@ + hex_padded(
                found as nat,
                16,
            ) + "，期望 0x"@ + hex_padded(BOOT_INFO_MAGIC as nat, 16) + "）"@,
            BootInfoError::UnsupportedVersion { found, supported } =>
            "BootInfo 版本不受支持（得到 "@ + decimal(found as nat) + "，支持 "@ + decimal(
                supported as nat,
            ) + "）"@,
            BootInfoError::TooSmall { size, expected } => "BootInfo 过小（得到 "@ + decimal(
                size as nat,
            ) + " 字节，至少需要 "@ + decimal(expected as nat) + " 字节）"@,
        }
    }

    /// The message of this error, in pieces.
    #[must_use]
    pub fn pieces(&self) -> (line: Pieces)
        ensures
            line.len <= 5,
            line@ == self.message(),
    {
        let mut line = Pieces::new();
        match *self {
            Self::WrongMagic { found } => {
                line.text("BootInfo magic 不匹配（得到 0x");
                line.hex_padded(found, 16);
                line.text("，期望 0x");
                line.hex_padded(BOOT_INFO_MAGIC, 16);
                line.text("）");
            },
            Self::UnsupportedVersion { found, supported } => {
                line.text("BootInfo 版本不受支持（得到 ");
                line.decimal(found as u64);
                line.text("，支持 ");
                line.decimal(supported as u64);
                line.text("）");
            },
            Self::TooSmall { size, expected } => {
                line.text("BootInfo 过小（得到 ");
                line.decimal(size as u64);
                line.text(" 字节，至少需要 ");
                line.decimal(expected as u64);
                line.text(" 字节）");
            },
        }
        assert(line@ =~= self.message());
        line
    }

    /// The message of this error.
    #[must_use]
    pub fn to_string(&self) -> (text: String)
        ensures
            text@ == self.message(),
    {
        self.pieces().to_string()
    }
}

impl BootInfo {
    /// A `BootInfo` with every field zero.
    pub open spec fn zeroed() -> BootInfo {
        BootInfo {
            magic: 0,
            version: 0,
            size: 0,
            mmap_ptr: 0,
            mmap_len: 0,
            mmap_desc_size: 0,
            mmap_desc_ver: 0,
            rsdp: 0,
            kernel_base: 0,
            kernel_size: 0,
            stack_top: 0,
            stack_size: 0,
            exit_port: 0,
            _reserved: 0,
        }
    }

    /// A `BootInfo` with the three header fields filled in and all others zero.
    #[must_use]
    pub fn new() -> (info: Self)
        ensures
            info == (BootInfo {
                magic: BOOT_INFO_MAGIC,
                version: BOOT_INFO_VERSION,
                size: BOOT_INFO_SIZE as u32,
                ..BootInfo::zeroed()
            }),
            info.magic == 0x5061_7261_6E75_6B01,
            info.version == 0,
            info.size == 88,
            info.mmap_ptr == 0 && info.mmap_len == 0 && info.mmap_desc_size == 0
                && info.mmap_desc_ver == 0 && info.rsdp == 0 && info.kernel_base == 0
                && info.kernel_size == 0 && info.stack_top == 0 && info.stack_size == 0
                && info.exit_port == 0 && info._reserved == 0,
    {
        let mut info = BootInfo::default();
        info.magic = BOOT_INFO_MAGIC;
        info.version = BOOT_INFO_VERSION;
        info.size = BOOT_INFO_SIZE as u32;
        info
    }

    /// What [`BootInfo::validate`] says.
    pub open spec fn check(self) -> Result<(), BootInfoError> {
        if self.magic != BOOT_INFO_MAGIC {
            Err(BootInfoError::WrongMagic { found: self.magic })
        } else if self.version != BOOT_INFO_VERSION {
            Err(
                BootInfoError::UnsupportedVersion {
                    found: self.version,
                    supported: BOOT_INFO_VERSION,
                },
            )
        } else if self.size < BOOT_INFO_SIZE {
            Err(BootInfoError::TooSmall { size: self.size, expected: BOOT_INFO_SIZE as u32 })
        } else {
            Ok(())
        }
    }

    /// Checks the header: magic, version and size. The kernel does this before anything else.
    ///
    /// A larger size is accepted: a newer boot loader may have appended fields.
    ///
    /// # Errors
    /// See [`BootInfoError`].
    pub fn validate(&self) -> (result: Result<(), BootInfoError>)
        ensures
            result == self.check(),
            result is Ok <==> self.magic == 0x5061_7261_6E75_6B01 && self.version == 0 && self.size
                >= 88,
            self.magic != 0x5061_7261_6E75_6B01 ==> result == Err::<(), BootInfoError>(
                BootInfoError::WrongMagic { found: self.magic },
            ),
            self.magic == 0x5061_7261_6E75_6B01 && self.version != 0 ==> result == Err::<
                (),
                BootInfoError,
            >(BootInfoError::UnsupportedVersion { found: self.version, supported: 0 }),
            self.magic == 0x5061_7261_6E75_6B01 && self.version == 0 && self.size < 88 ==> result
                == Err::<(), BootInfoError>(
                BootInfoError::TooSmall { size: self.size, expected: 88 },
            ),
    {
        if self.magic != BOOT_INFO_MAGIC {
            return Err(BootInfoError::WrongMagic { found: self.magic });
        }
        if self.version != BOOT_INFO_VERSION {
            return Err(
                BootInfoError::UnsupportedVersion {
                    found: self.version,
                    supported: BOOT_INFO_VERSION,
                },
            );
        }
        let expected: u32 = BOOT_INFO_SIZE as u32;
        if self.size < expected {
            return Err(BootInfoError::TooSmall { size: self.size, expected });
        }
        Ok(())
    }

    /// Whether there is a memory map.
    #[must_use]
    pub fn has_memory_map(&self) -> (result: bool)
        ensures
            result == (self.mmap_ptr != 0 && self.mmap_len != 0 && self.mmap_desc_size != 0),
    {
        self.mmap_ptr != 0 && self.mmap_len != 0 && self.mmap_desc_size != 0
    }

    /// Whether the debug exit device is used.
    #[must_use]
    pub fn exit_enabled(&self) -> (result: bool)
        ensures
            result == (self.exit_port != 0),
    {
        self.exit_port != 0
    }

    /// The structure as it lies in memory.
    pub open spec fn encoded(self) -> Seq<u8> {
        le64(self.magic) + le32(self.version) + le32(self.size) + le64(self.mmap_ptr) + le64(
            self.mmap_len,
        ) + le32(self.mmap_desc_size) + le32(self.mmap_desc_ver) + le64(self.rsdp) + le64(
            self.kernel_base,
        ) + le64(self.kernel_size) + le64(self.stack_top) + le64(self.stack_size) + le32(
            self.exit_port,
        ) + le32(self._reserved)
    }

    /// The structure that lies at the start of `bytes`.
    pub open spec fn decoded(bytes: Seq<u8>) -> BootInfo {
        BootInfo {
            magic: u64_at(bytes, OFF_MAGIC as int),
            version: u32_at(bytes, OFF_VERSION as int),
            size: u32_at(bytes, OFF_SIZE as int),
            mmap_ptr: u64_at(bytes, OFF_MMAP_PTR as int),
            mmap_len: u64_at(bytes, OFF_MMAP_LEN as int),
            mmap_desc_size: u32_at(bytes, OFF_MMAP_DESC_SIZE as int),
            mmap_desc_ver: u32_at(bytes, OFF_MMAP_DESC_VER as int),
            rsdp: u64_at(bytes, OFF_RSDP as int),
            kernel_base: u64_at(bytes, OFF_KERNEL_BASE as int),
            kernel_size: u64_at(bytes, OFF_KERNEL_SIZE as int),
            stack_top: u64_at(bytes, OFF_STACK_TOP as int),
            stack_size: u64_at(bytes, OFF_STACK_SIZE as int),
            exit_port: u32_at(bytes, OFF_EXIT_PORT as int),
            _reserved: u32_at(bytes, OFF_RESERVED as int),
        }
    }

    /// The structure as it lies in memory.
    #[must_use]
    pub fn to_bytes(&self) -> (bytes: Vec<u8>)
        ensures
            bytes@ == self.encoded(),
            bytes@.len() == BOOT_INFO_SIZE,
            bytes@.len() == 88,
            u64_at(bytes@, 0) == self.magic,
            u32_at(bytes@, 8) == self.version,
            u32_at(bytes@, 12) == self.size,
            u64_at(bytes@, 16) == self.mmap_ptr,
            u64_at(bytes@, 24) == self.mmap_len,
            u32_at(bytes@, 32) == self.mmap_desc_size,
            u32_at(bytes@, 36) == self.mmap_desc_ver,
            u64_at(bytes@, 40) == self.rsdp,
            u64_at(bytes@, 48) == self.kernel_base,
            u64_at(bytes@, 56) == self.kernel_size,
            u64_at(bytes@, 64) == self.stack_top,
            u64_at(bytes@, 72) == self.stack_size,
            u32_at(bytes@, 80) == self.exit_port,
            u32_at(bytes@, 84) == self._reserved,
    {
        let mut bytes: Vec<u8> = Vec::new();
        push_u64(&mut bytes, self.magic);
        assert(bytes@ =~= le64(self.magic));
        push_u32(&mut bytes, self.version);
        push_u32(&mut bytes, self.size);
        push_u64(&mut bytes, self.mmap_ptr);
        push_u64(&mut bytes, self.mmap_len);
        push_u32(&mut bytes, self.mmap_desc_size);
        push_u32(&mut bytes, self.mmap_desc_ver);
        push_u64(&mut bytes, self.rsdp);
        push_u64(&mut bytes, self.kernel_base);
        push_u64(&mut bytes, self.kernel_size);
        push_u64(&mut bytes, self.stack_top);
        push_u64(&mut bytes, self.stack_size);
        push_u32(&mut bytes, self.exit_port);
        push_u32(&mut bytes, self._reserved);
        proof {
            law_where_the_fields_lie(*self, bytes@);
        }
        bytes
    }

    /// Writes the structure to the start of `bytes`, as it lies in memory.
    pub fn write_to(&self, bytes: &mut [u8])
        requires
            old(bytes)@.len() >= BOOT_INFO_SIZE,
        ensures
            final(bytes)@ == self.encoded() + old(bytes)@.skip(BOOT_INFO_SIZE as int),
    {
        let ghost all = bytes@;
        let ghost mut done = Seq::<u8>::empty();
        assert(bytes@ =~= done + all.skip(0));
        put_u64(bytes, OFF_MAGIC, self.magic, Ghost(done), Ghost(all));
        proof {
            done = le64(self.magic);
            assert(Seq::<u8>::empty() + le64(self.magic) =~= done);
        }
        put_u32(bytes, OFF_VERSION, self.version, Ghost(done), Ghost(all));
        proof {
            done = done + le32(self.version);
        }
        put_u32(bytes, OFF_SIZE, self.size, Ghost(done), Ghost(all));
        proof {
            done = done + le32(self.size);
        }
        put_u64(bytes, OFF_MMAP_PTR, self.mmap_ptr, Ghost(done), Ghost(all));
        proof {
            done = done + le64(self.mmap_ptr);
        }
        put_u64(bytes, OFF_MMAP_LEN, self.mmap_len, Ghost(done), Ghost(all));
        proof {
            done = done + le64(self.mmap_len);
        }
        put_u32(bytes, OFF_MMAP_DESC_SIZE, self.mmap_desc_size, Ghost(done), Ghost(all));
        proof {
            done = done + le32(self.mmap_desc_size);
        }
        put_u32(bytes, OFF_MMAP_DESC_VER, self.mmap_desc_ver, Ghost(done), Ghost(all));
        proof {
            done = done + le32(self.mmap_desc_ver);
        }
        put_u64(bytes, OFF_RSDP, self.rsdp, Ghost(done), Ghost(all));
        proof {
            done = done + le64(self.rsdp);
        }
        put_u64(bytes, OFF_KERNEL_BASE, self.kernel_base, Ghost(done), Ghost(all));
        proof {
            done = done + le64(self.kernel_base);
        }
        put_u64(bytes, OFF_KERNEL_SIZE, self.kernel_size, Ghost(done), Ghost(all));
        proof {
            done = done + le64(self.kernel_size);
        }
        put_u64(bytes, OFF_STACK_TOP, self.stack_top, Ghost(done), Ghost(all));
        proof {
            done = done + le64(self.stack_top);
        }
        put_u64(bytes, OFF_STACK_SIZE, self.stack_size, Ghost(done), Ghost(all));
        proof {
            done = done + le64(self.stack_size);
        }
        put_u32(bytes, OFF_EXIT_PORT, self.exit_port, Ghost(done), Ghost(all));
        proof {
            done = done + le32(self.exit_port);
        }
        put_u32(bytes, OFF_RESERVED, self._reserved, Ghost(done), Ghost(all));
    }

    /// Reads the structure at the start of `bytes`; `None` if they are too few.
    #[must_use]
    pub fn from_bytes(bytes: &[u8]) -> (info: Option<Self>)
        ensures
            info == (if bytes@.len() >= BOOT_INFO_SIZE {
                Some(Self::decoded(bytes@))
            } else {
                None
            }),
            info is Some <==> bytes@.len() >= 88,
            info matches Some(info) ==> {
                &&& info.magic == u64_at(bytes@, 0)
                &&& info.version == u32_at(bytes@, 8)
                &&& info.size == u32_at(bytes@, 12)
                &&& info.mmap_ptr == u64_at(bytes@, 16)
                &&& info.mmap_len == u64_at(bytes@, 24)
                &&& info.mmap_desc_size == u32_at(bytes@, 32)
                &&& info.mmap_desc_ver == u32_at(bytes@, 36)
                &&& info.rsdp == u64_at(bytes@, 40)
                &&& info.kernel_base == u64_at(bytes@, 48)
                &&& info.kernel_size == u64_at(bytes@, 56)
                &&& info.stack_top == u64_at(bytes@, 64)
                &&& info.stack_size == u64_at(bytes@, 72)
                &&& info.exit_port == u32_at(bytes@, 80)
                &&& info._reserved == u32_at(bytes@, 84)
            },
    {
        if bytes.len() < BOOT_INFO_SIZE {
            return None;
        }
        Some(
            BootInfo {
                magic: read_u64(bytes, OFF_MAGIC),
                version: read_u32(bytes, OFF_VERSION),
                size: read_u32(bytes, OFF_SIZE),
                mmap_ptr: read_u64(bytes, OFF_MMAP_PTR),
                mmap_len: read_u64(bytes, OFF_MMAP_LEN),
                mmap_desc_size: read_u32(bytes, OFF_MMAP_DESC_SIZE),
                mmap_desc_ver: read_u32(bytes, OFF_MMAP_DESC_VER),
                rsdp: read_u64(bytes, OFF_RSDP),
                kernel_base: read_u64(bytes, OFF_KERNEL_BASE),
                kernel_size: read_u64(bytes, OFF_KERNEL_SIZE),
                stack_top: read_u64(bytes, OFF_STACK_TOP),
                stack_size: read_u64(bytes, OFF_STACK_SIZE),
                exit_port: read_u32(bytes, OFF_EXIT_PORT),
                _reserved: read_u32(bytes, OFF_RESERVED),
            },
        )
    }
}

/// Laying data over the bytes behind a prefix makes the prefix longer.
proof fn lemma_spliced(done: Seq<u8>, all: Seq<u8>, data: Seq<u8>)
    requires
        done.len() + data.len() <= all.len(),
    ensures
        spliced(done + all.skip(done.len() as int), done.len() as int, data) == (done + data)
            + all.skip((done.len() + data.len()) as int),
{
    assert(spliced(done + all.skip(done.len() as int), done.len() as int, data) =~= (done + data)
        + all.skip((done.len() + data.len()) as int));
}

/// Writes a 64-bit value behind what is `done` already, over the bytes that were there at first.
fn put_u64(
    bytes: &mut [u8],
    at: usize,
    value: u64,
    Ghost(done): Ghost<Seq<u8>>,
    Ghost(all): Ghost<Seq<u8>>,
)
    requires
        done.len() == at,
        at + 8 <= all.len(),
        old(bytes)@ == done + all.skip(at as int),
    ensures
        final(bytes)@ == (done + le64(value)) + all.skip(at + 8),
        le64(value).len() == 8,
{
    let len: usize = bytes.len();
    write_u64(bytes, at, value);
    proof {
        assert(le64(value).len() == 8);
        lemma_spliced(done, all, le64(value));
    }
}

/// Writes a 32-bit value behind what is `done` already, over the bytes that were there at first.
fn put_u32(
    bytes: &mut [u8],
    at: usize,
    value: u32,
    Ghost(done): Ghost<Seq<u8>>,
    Ghost(all): Ghost<Seq<u8>>,
)
    requires
        done.len() == at,
        at + 4 <= all.len(),
        old(bytes)@ == done + all.skip(at as int),
    ensures
        final(bytes)@ == (done + le32(value)) + all.skip(at + 4),
        le32(value).len() == 4,
{
    let len: usize = bytes.len();
    write_u32(bytes, at, value);
    proof {
        lemma_spliced(done, all, le32(value));
    }
}

/// A prefix of a longer sequence keeps its values.
proof fn lemma_prefix(a: Seq<u8>, b: Seq<u8>)
    ensures
        forall|i: int| 0 <= i && i + 8 <= a.len() ==> #[trigger] u64_at(a + b, i) == u64_at(a, i),
        forall|i: int| 0 <= i && i + 4 <= a.len() ==> #[trigger] u32_at(a + b, i) == u32_at(a, i),
{
    assert forall|i: int| 0 <= i && i + 4 <= a.len() implies #[trigger] u32_at(a + b, i) == u32_at(
        a,
        i,
    ) by {
        assert((a + b)[i] == a[i] && (a + b)[i + 1] == a[i + 1] && (a + b)[i + 2] == a[i + 2] && (a
            + b)[i + 3] == a[i + 3]);
    }
    assert forall|i: int| 0 <= i && i + 8 <= a.len() implies #[trigger] u64_at(a + b, i) == u64_at(
        a,
        i,
    ) by {
        assert(u32_at(a + b, i) == u32_at(a, i) && u32_at(a + b, i + 4) == u32_at(a, i + 4));
    }
}

/// A 64-bit value behind a prefix is found there; what the prefix holds stays.
proof fn lemma_append64(a: Seq<u8>, value: u64)
    ensures
        (a + le64(value)).len() == a.len() + 8,
        u64_at(a + le64(value), a.len() as int) == value,
        forall|i: int|
            0 <= i && i + 8 <= a.len() ==> #[trigger] u64_at(a + le64(value), i) == u64_at(a, i),
        forall|i: int|
            0 <= i && i + 4 <= a.len() ==> #[trigger] u32_at(a + le64(value), i) == u32_at(a, i),
{
    let whole = a + le64(value);
    assert(le64(value).len() == 8);
    assert forall|i: int| 0 <= i < 8 implies whole[a.len() + i] == #[trigger] le64(value)[i] by {}
    lemma_le64_at(whole, a.len() as int, value);
    lemma_prefix(a, le64(value));
}

/// A 32-bit value behind a prefix is found there; what the prefix holds stays.
proof fn lemma_append32(a: Seq<u8>, value: u32)
    ensures
        (a + le32(value)).len() == a.len() + 4,
        u32_at(a + le32(value), a.len() as int) == value,
        forall|i: int|
            0 <= i && i + 8 <= a.len() ==> #[trigger] u64_at(a + le32(value), i) == u64_at(a, i),
        forall|i: int|
            0 <= i && i + 4 <= a.len() ==> #[trigger] u32_at(a + le32(value), i) == u32_at(a, i),
{
    let whole = a + le32(value);
    assert forall|i: int| 0 <= i < 4 implies whole[a.len() + i] == #[trigger] le32(value)[i] by {}
    lemma_le32_at(whole, a.len() as int, value);
    lemma_prefix(a, le32(value));
}

/// The kernel reads exactly what the boot loader wrote: every field comes back from its offset.
pub proof fn law_layout_round_trip(info: BootInfo)
    ensures
        info.encoded().len() == BOOT_INFO_SIZE,
        BootInfo::decoded(info.encoded()) == info,
{
    let b0 = Seq::<u8>::empty();
    let b1 = le64(info.magic);
    lemma_append64(b0, info.magic);
    assert(b0 + b1 =~= b1);
    let b2 = b1 + le32(info.version);
    lemma_append32(b1, info.version);
    let b3 = b2 + le32(info.size);
    lemma_append32(b2, info.size);
    let b4 = b3 + le64(info.mmap_ptr);
    lemma_append64(b3, info.mmap_ptr);
    let b5 = b4 + le64(info.mmap_len);
    lemma_append64(b4, info.mmap_len);
    let b6 = b5 + le32(info.mmap_desc_size);
    lemma_append32(b5, info.mmap_desc_size);
    let b7 = b6 + le32(info.mmap_desc_ver);
    lemma_append32(b6, info.mmap_desc_ver);
    let b8 = b7 + le64(info.rsdp);
    lemma_append64(b7, info.rsdp);
    let b9 = b8 + le64(info.kernel_base);
    lemma_append64(b8, info.kernel_base);
    let b10 = b9 + le64(info.kernel_size);
    lemma_append64(b9, info.kernel_size);
    let b11 = b10 + le64(info.stack_top);
    lemma_append64(b10, info.stack_top);
    let b12 = b11 + le64(info.stack_size);
    lemma_append64(b11, info.stack_size);
    let b13 = b12 + le32(info.exit_port);
    lemma_append32(b12, info.exit_port);
    lemma_append32(b13, info._reserved);
}

/// Where each field lies: every value at a fixed offset, in 88 bytes.
pub proof fn law_where_the_fields_lie(info: BootInfo, bytes: Seq<u8>)
    ensures
        info.encoded().len() == 88,
        u64_at(info.encoded(), 0) == info.magic,
        u32_at(info.encoded(), 8) == info.version,
        u32_at(info.encoded(), 12) == info.size,
        u64_at(info.encoded(), 16) == info.mmap_ptr,
        u64_at(info.encoded(), 24) == info.mmap_len,
        u32_at(info.encoded(), 32) == info.mmap_desc_size,
        u32_at(info.encoded(), 36) == info.mmap_desc_ver,
        u64_at(info.encoded(), 40) == info.rsdp,
        u64_at(info.encoded(), 48) == info.kernel_base,
        u64_at(info.encoded(), 56) == info.kernel_size,
        u64_at(info.encoded(), 64) == info.stack_top,
        u64_at(info.encoded(), 72) == info.stack_size,
        u32_at(info.encoded(), 80) == info.exit_port,
        u32_at(info.encoded(), 84) == info._reserved,
        BootInfo::decoded(bytes).magic == u64_at(bytes, 0),
        BootInfo::decoded(bytes).version == u32_at(bytes, 8),
        BootInfo::decoded(bytes).size == u32_at(bytes, 12),
        BootInfo::decoded(bytes).mmap_ptr == u64_at(bytes, 16),
        BootInfo::decoded(bytes).mmap_len == u64_at(bytes, 24),
        BootInfo::decoded(bytes).mmap_desc_size == u32_at(bytes, 32),
        BootInfo::decoded(bytes).mmap_desc_ver == u32_at(bytes, 36),
        BootInfo::decoded(bytes).rsdp == u64_at(bytes, 40),
        BootInfo::decoded(bytes).kernel_base == u64_at(bytes, 48),
        BootInfo::decoded(bytes).kernel_size == u64_at(bytes, 56),
        BootInfo::decoded(bytes).stack_top == u64_at(bytes, 64),
        BootInfo::decoded(bytes).stack_size == u64_at(bytes, 72),
        BootInfo::decoded(bytes).exit_port == u32_at(bytes, 80),
        BootInfo::decoded(bytes)._reserved == u32_at(bytes, 84),
{
    law_layout_round_trip(info);
}

// ---------------------------------------------------------------------------------------------
// Exit codes
// ---------------------------------------------------------------------------------------------

/// Port of the debug exit device.
pub const DEBUG_EXIT_PORT: u16 = 0xF4;

/// Written to the port: the boot loader is done.
pub const EXIT_VALUE_BOOTLOADER_OK: u8 = 0x10;

/// Written to the port: the kernel image could not be loaded.
pub const EXIT_VALUE_LOAD_FAILURE: u8 = 0x11;

/// Written to the port: the kernel passed its self-check.
pub const EXIT_VALUE_KERNEL_OK: u8 = 0x12;

/// Written to the port: the kernel failed its self-check, for example on an invalid `BootInfo`.
pub const EXIT_VALUE_KERNEL_FAILURE: u8 = 0x13;

/// Written to the port: the kernel crashed.
pub const EXIT_VALUE_KERNEL_FAULT: u8 = 0x14;

/// Written to the port: the kernel's memory could not be set up.
pub const EXIT_VALUE_KERNEL_MEMORY_FAILURE: u8 = 0x15;

/// Written to the port: the kernel failed its scheduling self-check.
pub const EXIT_VALUE_KERNEL_SCHED_FAILURE: u8 = 0x16;

/// Exit code of the emulator: the boot loader is done.
pub const EXIT_CODE_BOOTLOADER_OK: i32 = 33;

/// Exit code of the emulator: the kernel image could not be loaded.
pub const EXIT_CODE_LOAD_FAILURE: i32 = 35;

/// Exit code of the emulator: the kernel passed its self-check.
pub const EXIT_CODE_KERNEL_OK: i32 = 37;

/// Exit code of the emulator: the kernel failed its self-check.
pub const EXIT_CODE_KERNEL_FAILURE: i32 = 39;

/// Exit code of the emulator: the kernel crashed.
pub const EXIT_CODE_KERNEL_FAULT: i32 = 41;

/// Exit code of the emulator: the kernel's memory could not be set up.
pub const EXIT_CODE_KERNEL_MEMORY_FAILURE: i32 = 43;

/// Exit code of the emulator: the kernel failed its scheduling self-check.
pub const EXIT_CODE_KERNEL_SCHED_FAILURE: i32 = 45;

/// The exit code the emulator makes of a value written to the port.
pub open spec fn exit_code(value: u8) -> int {
    2 * value + 1
}

/// The exit code the emulator makes of a value written to the debug exit port.
#[must_use]
pub fn qemu_exit_code(value: u8) -> (code: i32)
    ensures
        code == exit_code(value),
        code == 2 * value + 1,
{
    2 * (value as i32) + 1
}

/// The exit code of every outcome belongs to the value that is written for it.
pub proof fn law_exit_codes()
    ensures
        exit_code(EXIT_VALUE_BOOTLOADER_OK) == EXIT_CODE_BOOTLOADER_OK,
        exit_code(EXIT_VALUE_LOAD_FAILURE) == EXIT_CODE_LOAD_FAILURE,
        exit_code(EXIT_VALUE_KERNEL_OK) == EXIT_CODE_KERNEL_OK,
        exit_code(EXIT_VALUE_KERNEL_FAILURE) == EXIT_CODE_KERNEL_FAILURE,
        exit_code(EXIT_VALUE_KERNEL_FAULT) == EXIT_CODE_KERNEL_FAULT,
        exit_code(EXIT_VALUE_KERNEL_MEMORY_FAILURE) == EXIT_CODE_KERNEL_MEMORY_FAILURE,
        exit_code(EXIT_VALUE_KERNEL_SCHED_FAILURE) == EXIT_CODE_KERNEL_SCHED_FAILURE,
{
}

/// Different values give different exit codes, and no exit code is 0, which would be a success.
pub proof fn law_exit_codes_are_distinct(a: u8, b: u8)
    ensures
        exit_code(a) == exit_code(b) ==> a == b,
        exit_code(a) != 0,
{
}

} // verus!
