pub mod addr;
pub mod frames;
pub mod heap;
pub mod manager;
pub mod memapi;
pub mod paging;
pub mod phys;
pub mod pm_object;
pub mod physical_stage1;
pub mod physical_stage2;
pub mod size;
pub mod virt;

pub use size::Size;
