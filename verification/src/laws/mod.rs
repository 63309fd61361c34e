//! What the operations mean, said in plain arithmetic over their inputs and results.

pub mod boot;
pub mod device;
pub mod frame;
pub mod heap;
pub mod image;
pub mod map;
pub mod paging;
pub mod sched;
pub mod text;
pub mod wording;
