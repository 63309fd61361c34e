//! The decisions of the kernel: what to write to which port, what a register value means, what
//! to log and how to end. The instructions themselves are left to the caller.

pub mod boot;
pub mod gdt;
pub mod heap;
pub mod idt;
pub mod lock;
pub mod logging;
pub mod memory;
pub mod pic;
pub mod port;
pub mod sched;
pub mod serial;
