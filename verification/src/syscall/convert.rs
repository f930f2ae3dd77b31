//! Addresses that user space hands to the kernel.
use vstd::prelude::*;
use crate::mem::addr::{is_canonical, virt_addr_checked};
use crate::syscall::errno::Errno;

verus! {

/// The error of an address that does not lie in user space.
#[derive(Debug, Clone, Copy, PartialEq, Eq, Structural)]
pub struct NotInUserspace;

/// An address in the lower, user half of the address space.
#[derive(Debug, Clone, Copy, PartialEq, Eq, Structural)]
pub struct UserspaceAddress(u64);

/// The first address above user space.
pub const USERSPACE_END: u64 = 0x8000_0000_0000;

impl UserspaceAddress {
    pub closed spec fn view(&self) -> u64 {
        self.0
    }

    /// The address `value`, if it lies below the upper half and is canonical.
    pub fn try_from(value: usize) -> (r: Result<UserspaceAddress, NotInUserspace>)
        ensures
            match r {
                Ok(a) => value < USERSPACE_END && a@ == value,
                Err(_) => value >= USERSPACE_END,
            },
    {
        if value as u64 >= USERSPACE_END {
            return Err(NotInUserspace);
        }
        match virt_addr_checked(value as u64) {
            Some(a) => Ok(UserspaceAddress(a)),
            None => Err(NotInUserspace),
        }
    }

    /// The address.
    pub fn as_u64(&self) -> (r: u64)
        ensures
            r == self@,
    {
        self.0
    }
}

/// The length of the zero-terminated string at the start of `bytes`, if its terminator
/// lies among the first `max` bytes.
pub fn strlen_s(bytes: &[u8], max: usize) -> (r: Option<usize>)
    ensures
        match r {
            Some(n) => n < max && n < bytes@.len() && bytes@[n as int] == 0 && forall|j: int| 0 <= j < n ==> bytes@[j] != 0,
            None => forall|j: int| 0 <= j < max && j < bytes@.len() ==> bytes@[j] != 0,
        },
{
    let mut i: usize = 0;
    while i < max && i < bytes.len()
        invariant
            forall|j: int| 0 <= j < i ==> bytes@[j] != 0,
        decreases max - i,
    {
        if bytes[i] == 0 {
            return Some(i);
        }
        i = i + 1;
    }
    None
}

/// The longest path, terminator included, that user space may hand over.
pub const PATH_LIMIT: usize = 255;

/// The length of a path that user space hands over, or `ENAMETOOLONG` if its terminator
/// does not come within the limit.
pub fn userspace_str_len(bytes: &[u8]) -> (r: Result<usize, Errno>)
    ensures
        match r {
            Ok(n) => n < PATH_LIMIT && n < bytes@.len() && bytes@[n as int] == 0 && forall|j: int| 0 <= j < n ==> bytes@[j] != 0,
            Err(e) => e == Errno::ENAMETOOLONG && forall|j: int| 0 <= j < PATH_LIMIT && j < bytes@.len() ==> bytes@[j] != 0,
        },
{
    match strlen_s(bytes, PATH_LIMIT) {
        Some(n) => Ok(n),
        None => Err(Errno::ENAMETOOLONG),
    }
}

} // verus!
