//! Privileged core of a small kernel: physical frame allocation, page-table
//! address spaces, interrupt routing, the process lifecycle, a round-robin
//! scheduler and system-call dispatch, each stated against a mathematical
//! model and proved by Verus.

pub mod error;
pub mod memory;
pub mod frame;
pub mod process;
pub mod sched;
pub mod paging;
pub mod interrupt;
pub mod syscall;
pub mod exec;
pub mod boot;
pub mod driver;
pub mod kernel;
pub mod machine;
