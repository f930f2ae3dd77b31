//! Exit codes for QEMU's debug exit device.
use vstd::prelude::*;

verus! {

/// How the kernel tells QEMU that it is done.
#[derive(Debug, Clone, Copy, PartialEq, Eq, Structural)]
pub enum ExitCode {
    Success,
    Failed,
}

impl ExitCode {
    /// The value written to the exit device.
    pub fn code(self) -> (r: u32)
        ensures
            r == match self {
                ExitCode::Success => 0x10u32,
                ExitCode::Failed => 0x11u32,
            },
    {
        match self {
            ExitCode::Success => 0x10,
            ExitCode::Failed => 0x11,
        }
    }
}

} // verus!
