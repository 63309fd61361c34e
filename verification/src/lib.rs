//! The logic of ParanukOS, a small x86-64 operating system: its boot loader and its kernel.
//!
//! * [`boot_info`]: what the boot loader tells the kernel, and the exit codes;
//! * [`kernel_image`]: checks on the kernel image;
//! * [`map`], [`paging`], [`frame`], [`heap`]: the memory map, the page tables, the physical
//!   frames and the kernel heap;
//! * [`heap_model`]: what the heap means for a row of blocks;
//! * [`sched`]: the scheduler;
//! * [`kernel`]: descriptors, interrupts, ports, logging and the self-check;
//! * [`bootloader`]: loading the image and handing over to the kernel;
//! * [`laws`]: what the operations mean, said in plain arithmetic over their inputs and results;
//! * [`bytes`], [`math`], [`text`]: little-endian values, alignment, numbers as text.

pub mod boot_info;
pub mod bootloader;
pub mod bytes;
pub mod frame;
pub mod heap;
pub mod heap_model;
pub mod kernel;
pub mod kernel_image;
pub mod laws;
pub mod map;
pub mod math;
pub mod paging;
pub mod sched;
pub mod text;
