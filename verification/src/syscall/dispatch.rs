//! The decisions of the system call entry: which call a number names, which user
//! buffers are acceptable, and the register value that a call's outcome becomes.
use vstd::prelude::*;
use crate::syscall::convert::{UserspaceAddress, USERSPACE_END};
use crate::syscall::errno::{errno_number, Errno};

verus! {

/// The system calls that a process can make.
#[derive(Debug, Clone, Copy, PartialEq, Eq, Structural)]
pub enum Syscall {
    Read,
    Write,
    Open,
    Close,
    Access,
    Exit,
}

/// The call that the number `n` names, if any.
pub open spec fn syscall_of(n: usize) -> Option<Syscall> {
    if n == 0 {
        Some(Syscall::Read)
    } else if n == 1 {
        Some(Syscall::Write)
    } else if n == 2 {
        Some(Syscall::Open)
    } else if n == 3 {
        Some(Syscall::Close)
    } else if n == 21 {
        Some(Syscall::Access)
    } else if n == 60 {
        Some(Syscall::Exit)
    } else {
        None
    }
}

/// The call that the number `n` names; `ENOSYS` for a number that names none.
pub fn syscall_from_number(n: usize) -> (r: Result<Syscall, Errno>)
    ensures
        match syscall_of(n) {
            Some(s) => r == Ok::<Syscall, Errno>(s),
            None => r == Err::<Syscall, Errno>(Errno::ENOSYS),
        },
{
    if n == 0 {
        Ok(Syscall::Read)
    } else if n == 1 {
        Ok(Syscall::Write)
    } else if n == 2 {
        Ok(Syscall::Open)
    } else if n == 3 {
        Ok(Syscall::Close)
    } else if n == 21 {
        Ok(Syscall::Access)
    } else if n == 60 {
        Ok(Syscall::Exit)
    } else {
        Err(Errno::ENOSYS)
    }
}

/// The start of a user buffer of `len` bytes at `ptr`: `EINVAL` for a null pointer, an
/// empty buffer or a pointer outside user space.
pub fn check_user_buffer(ptr: usize, len: usize) -> (r: Result<UserspaceAddress, Errno>)
    ensures
        match r {
            Ok(a) => ptr != 0 && len != 0 && ptr < USERSPACE_END && a@ == ptr,
            Err(e) => e == Errno::EINVAL && (ptr == 0 || len == 0 || ptr >= USERSPACE_END),
        },
{
    if ptr == 0 || len == 0 {
        return Err(Errno::EINVAL);
    }
    match UserspaceAddress::try_from(ptr) {
        Ok(a) => Ok(a),
        Err(_) => Err(Errno::EINVAL),
    }
}

/// The register value of a call's outcome: the call's answer, or the error's number
/// negated.
pub fn syscall_return(outcome: Result<isize, Errno>) -> (r: isize)
    ensures
        r == match outcome {
            Ok(v) => v as int,
            Err(e) => -errno_number(e),
        },
{
    match outcome {
        Ok(v) => v,
        Err(e) => e.as_isize(),
    }
}

} // verus!
