//! The decisions of the boot loader: whether an image can be loaded, how much memory it takes,
//! and what the kernel is told. The firmware calls themselves are left to the caller.

pub mod block_io;
pub mod fs_loader;
pub mod handoff;
