pub mod attributes;
pub mod elf;
pub mod fd;
pub mod files;
pub mod lfill;
pub mod process;
pub mod scheduler;
pub mod syscall;
pub mod task;
pub mod tree;
