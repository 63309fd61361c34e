//! Loading the kernel image: its format, the memory it takes, and what an error means to the
//! firmware.

use vstd::prelude::*;

use crate::kernel_image::{image_check, validate, ImageError};
use crate::laws::image::law_which_images_are_accepted;

verus! {

/// Page size of the firmware: 4 KiB.
pub const PAGE_SIZE: usize = 4096;

/// A kernel that was loaded.
#[derive(Clone, Copy, PartialEq, Eq, Structural, Debug)]
pub struct LoadedKernel {
    /// Physical address of the image, page aligned.
    pub base_address: usize,
    /// Length of the image in bytes.
    pub size: usize,
    /// Entry point of the image.
    pub entry_point: u64,
}

/// Why the kernel could not be loaded.
#[derive(Clone, Copy, PartialEq, Eq, Structural, Debug)]
pub enum LoadError {
    /// The firmware failed with this status.
    Efi(usize),
    /// The file could not be read: the firmware failed with this status.
    FsIo(usize),
    /// The file could not be read for another reason.
    Fs,
    /// The image is too small for an ELF header.
    TooSmall(usize),
    /// No ELF magic.
    NotElf,
    /// Not a 64-bit ELF.
    NotElf64,
    /// Not a little-endian ELF.
    NotLittleEndian,
    /// Not `ET_EXEC`.
    NotExecutable(u16),
    /// Not for x86-64.
    UnsupportedMachine(u16),
}

/// What the boot loader returns to the firmware.
#[derive(Clone, Copy, PartialEq, Eq, Structural, Debug)]
pub enum LoadStatus {
    /// The status that the firmware gave.
    Firmware(usize),
    /// The volume is damaged.
    VolumeCorrupted,
    /// The image cannot be loaded.
    LoadError,
}

impl LoadError {
    /// What the boot loader returns to the firmware for this error.
    pub open spec fn outcome(self) -> LoadStatus {
        match self {
            LoadError::Efi(status) => LoadStatus::Firmware(status),
            LoadError::FsIo(status) => LoadStatus::Firmware(status),
            LoadError::Fs => LoadStatus::VolumeCorrupted,
            _ => LoadStatus::LoadError,
        }
    }

    /// What the boot loader returns to the firmware for this error.
    pub fn status(&self) -> (status: LoadStatus)
        ensures
            status == self.outcome(),
            *self matches LoadError::Efi(found) ==> status == LoadStatus::Firmware(found),
            *self matches LoadError::FsIo(found) ==> status == LoadStatus::Firmware(found),
            *self is Fs ==> status == LoadStatus::VolumeCorrupted,
            !(*self is Efi) && !(*self is FsIo) && !(*self is Fs) ==> status
                == LoadStatus::LoadError,
    {
        match *self {
            Self::Efi(status) => LoadStatus::Firmware(status),
            Self::FsIo(status) => LoadStatus::Firmware(status),
            Self::Fs => LoadStatus::VolumeCorrupted,
            Self::TooSmall(_)
            | Self::NotElf
            | Self::NotElf64
            | Self::NotLittleEndian
            | Self::NotExecutable(_)
            | Self::UnsupportedMachine(_) => LoadStatus::LoadError,
        }
    }

    /// The error for an image that was refused.
    pub open spec fn of_image(error: ImageError) -> LoadError {
        match error {
            ImageError::TooSmall(len) => LoadError::TooSmall(len),
            ImageError::NotElf => LoadError::NotElf,
            ImageError::NotElf64 => LoadError::NotElf64,
            ImageError::NotLittleEndian => LoadError::NotLittleEndian,
            ImageError::NotExecutable(e_type) => LoadError::NotExecutable(e_type),
            ImageError::UnsupportedMachine(machine) => LoadError::UnsupportedMachine(machine),
        }
    }
}

impl From<ImageError> for LoadError {
    fn from(error: ImageError) -> (result: Self) {
        match error {
            ImageError::TooSmall(len) => LoadError::TooSmall(len),
            ImageError::NotElf => LoadError::NotElf,
            ImageError::NotElf64 => LoadError::NotElf64,
            ImageError::NotLittleEndian => LoadError::NotLittleEndian,
            ImageError::NotExecutable(e_type) => LoadError::NotExecutable(e_type),
            ImageError::UnsupportedMachine(machine) => LoadError::UnsupportedMachine(machine),
        }
    }
}

impl vstd::std_specs::convert::FromSpecImpl<ImageError> for LoadError {
    open spec fn obeys_from_spec() -> bool {
        true
    }

    open spec fn from_spec(error: ImageError) -> Self {
        LoadError::of_image(error)
    }
}

/// Checks the ELF header of an image and returns its entry point.
///
/// # Errors
/// The reason why the image was refused.
pub fn parse_elf_header(data: &[u8]) -> (entry: Result<u64, LoadError>)
    ensures
        entry == (match image_check(data@) {
            Ok(entry) => Ok::<u64, LoadError>(entry),
            Err(error) => Err(LoadError::of_image(error)),
        }),
        match (entry, image_check(data@)) {
            (Ok(entry), Ok(found)) => entry == found,
            (Err(LoadError::TooSmall(len)), Err(ImageError::TooSmall(found))) => len == found,
            (Err(LoadError::NotElf), Err(ImageError::NotElf)) => true,
            (Err(LoadError::NotElf64), Err(ImageError::NotElf64)) => true,
            (Err(LoadError::NotLittleEndian), Err(ImageError::NotLittleEndian)) => true,
            (Err(LoadError::NotExecutable(a)), Err(ImageError::NotExecutable(b))) => a == b,
            (Err(LoadError::UnsupportedMachine(a)), Err(ImageError::UnsupportedMachine(b))) => a
                == b,
            _ => false,
        },
        entry is Ok <==> {
            &&& data@.len() >= 64
            &&& data@[0] == 0x7F && data@[1] == 0x45 && data@[2] == 0x4C && data@[3] == 0x46
            &&& data@[4] == 2 && data@[5] == 1
            &&& data@[16] == 2 && data@[17] == 0 && data@[18] == 62 && data@[19] == 0
        },
{
    proof {
        law_which_images_are_accepted(data@);
    }
    match validate(data) {
        Ok(entry) => Ok(entry),
        Err(error) => Err(LoadError::from(error)),
    }
}

/// Number of pages that `bytes` bytes take.
#[must_use]
pub fn pages_needed(bytes: usize) -> (pages: usize)
    ensures
        pages == (bytes + PAGE_SIZE - 1) / PAGE_SIZE as int,
        bytes <= pages * PAGE_SIZE < bytes + PAGE_SIZE,
{
    if bytes % PAGE_SIZE == 0 {
        bytes / PAGE_SIZE
    } else {
        bytes / PAGE_SIZE + 1
    }
}

/// What loading an image takes.
#[derive(Clone, Copy, PartialEq, Eq, Structural, Debug)]
pub struct LoadPlan {
    /// Length of the image in bytes.
    pub size: usize,
    /// Number of pages to allocate.
    pub pages: usize,
    /// Entry point of the image.
    pub entry_point: u64,
}

/// Decides whether an image can be loaded, and what that takes.
///
/// # Errors
/// The reason why the image was refused.
pub fn plan_load(data: &[u8]) -> (plan: Result<LoadPlan, LoadError>)
    ensures
        match plan {
            Ok(plan) => {
                &&& image_check(data@) == Ok::<u64, ImageError>(plan.entry_point)
                &&& plan.size == data@.len()
                &&& plan.pages == (plan.size + PAGE_SIZE - 1) / PAGE_SIZE as int
                &&& plan.size <= plan.pages * 4096 < plan.size + 4096
            },
            Err(error) => {
                &&& image_check(data@) is Err
                &&& error == LoadError::of_image(image_check(data@)->Err_0)
            },
        },
{
    match parse_elf_header(data) {
        Ok(entry_point) => {
            let size: usize = data.len();
            Ok(LoadPlan { size, pages: pages_needed(size), entry_point })
        },
        Err(error) => Err(error),
    }
}

impl LoadPlan {
    /// The kernel once its image was copied to `base_address`.
    #[must_use]
    pub fn loaded_at(&self, base_address: usize) -> (kernel: LoadedKernel)
        ensures
            kernel.base_address == base_address,
            kernel.size == self.size,
            kernel.entry_point == self.entry_point,
    {
        LoadedKernel { base_address, size: self.size, entry_point: self.entry_point }
    }
}

/// Every image that is refused is reported to the firmware as one that cannot be loaded.
pub proof fn law_refused_images_are_load_errors(error: ImageError)
    ensures
        LoadError::of_image(error).outcome() == LoadStatus::LoadError,
{
}

} // verus!
