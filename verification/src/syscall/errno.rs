//! Error numbers that system calls answer with.
use vstd::prelude::*;

verus! {

/// The answer of a system call: success, or the reason it failed.
#[allow(non_camel_case_types, clippy::upper_case_acronyms)]
#[derive(Debug, Clone, Copy, PartialEq, Eq, Structural)]
pub enum Errno {
    /// Success.
    OK,
    /// No such file or directory.
    ENOENT,
    /// An input or output error.
    EIO,
    /// Permission denied.
    EACCES,
    /// An invalid argument.
    EINVAL,
    /// A file name that is too long.
    ENAMETOOLONG,
    /// A call that is not implemented.
    ENOSYS,
}

/// The number of an answer.
pub open spec fn errno_number(e: Errno) -> int {
    match e {
        Errno::OK => 0,
        Errno::ENOENT => 2,
        Errno::EIO => 5,
        Errno::EACCES => 13,
        Errno::EINVAL => 22,
        Errno::ENAMETOOLONG => 36,
        Errno::ENOSYS => 38,
    }
}

impl Errno {
    /// The answer's number, as the register value of a system call's result: 0 for
    /// success, the error's number negated otherwise.
    pub fn as_isize(self) -> (r: isize)
        ensures
            r == -errno_number(self),
    {
        match self {
            Errno::OK => 0,
            Errno::ENOENT => -2,
            Errno::EIO => -5,
            Errno::EACCES => -13,
            Errno::EINVAL => -22,
            Errno::ENAMETOOLONG => -36,
            Errno::ENOSYS => -38,
        }
    }
}

} // verus!
