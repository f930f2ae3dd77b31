//! Verified core logic of a small x86_64 hobby kernel: memory sizes, address
//! arithmetic, physical and virtual memory bookkeeping, the scheduler's
//! decisions, intrusive lists, file descriptors and system call helpers.

pub mod mem;
pub mod process;
pub mod syscall;
pub mod time;
pub mod qemu;
pub mod smp;
pub mod text;
pub mod vfs;
