pub mod higher_half;
pub mod manager;
pub mod vmo;

pub use higher_half::{AlreadyReserved, VirtualMemoryHigherHalf};
pub use manager::{Interval, MapAt, OwnedInterval, VirtualMemoryManager, VmmError};
