//! The `access` system call.
use vstd::prelude::*;
use crate::syscall::errno::Errno;

verus! {

/// The access mode that only asks whether the file exists.
pub const F_OK: usize = 0;
/// The access mode bit that asks for execute permission.
pub const X_OK: usize = 1;
/// The access mode bit that asks for write permission.
pub const W_OK: usize = 2;
/// The access mode bit that asks for read permission.
pub const R_OK: usize = 4;

/// The answer to `access` with the mode bits `amode` (cut to the known bits) for a path
/// that exists or not: permissions are not supported, so anything but the existence
/// check is `ENOSYS`; the existence check is `OK` or `ENOENT`.
pub fn sys_access(amode: usize, exists: bool) -> (r: Errno)
    ensures
        r == (if amode & 7 != F_OK {
            Errno::ENOSYS
        } else if exists {
            Errno::OK
        } else {
            Errno::ENOENT
        }),
{
    if amode & 7 != F_OK {
        Errno::ENOSYS
    } else if exists {
        Errno::OK
    } else {
        Errno::ENOENT
    }
}

} // verus!
