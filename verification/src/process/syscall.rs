//! The first system calls of a process: reading, writing, opening and closing, each of
//! which answers 0 and leaves the caller's buffer as it was.
use vstd::prelude::*;

verus! {

/// Reads from the file `fd` into `buf`: reads nothing and answers 0.
pub fn sys_read(fd: usize, buf: &mut [u8]) -> (r: isize)
    ensures
        r == 0,
        final(buf)@ == old(buf)@,
{
    0
}

/// Writes `buf` to the file `fd`: writes nothing and answers 0.
pub fn sys_write(fd: usize, buf: &[u8]) -> (r: isize)
    ensures
        r == 0,
{
    0
}

/// Opens the file at `path`: opens nothing and answers 0.
pub fn sys_open(path: &str, flags: usize, mode: usize) -> (r: isize)
    ensures
        r == 0,
{
    0
}

/// Closes the file `fd`: answers 0.
pub fn sys_close(fd: usize) -> (r: isize)
    ensures
        r == 0,
{
    0
}

} // verus!
