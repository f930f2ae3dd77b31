//! Virtual and physical addresses, through the `x86_64` crate's address types.
use vstd::prelude::*;
use x86_64::{PhysAddr, VirtAddr};

verus! {

/// The lowest address of the upper canonical half.
pub open spec fn upper_half_start() -> int {
    0xFFFF_8000_0000_0000
}

/// An address is canonical if bits 48 to 63 are copies of bit 47, that is if it
/// lies in the lower or in the upper half of the 48-bit address space.
pub open spec fn is_canonical(addr: int) -> bool {
    (0 <= addr < 0x8000_0000_0000) || (upper_half_start() <= addr <= u64::MAX)
}

/// `VirtAddr::try_new` of the `x86_64` crate: accepts exactly the canonical addresses
/// and leaves them as they are.
#[verifier::external_body]
pub(crate) fn virt_addr_checked(addr: u64) -> (r: Option<u64>)
    ensures
        r == (if is_canonical(addr as int) {
            Some(addr)
        } else {
            None::<u64>
        }),
{
    match VirtAddr::try_new(addr) {
        Ok(v) => Some(v.as_u64()),
        Err(_) => None,
    }
}

/// `VirtAddr::new` of the `x86_64` crate, which panics on a non-canonical address
/// and otherwise keeps the address as it is.
#[verifier::external_body]
pub(crate) fn virt_addr_new(addr: u64) -> (r: u64)
    requires
        is_canonical(addr as int),
    ensures
        r == addr,
{
    VirtAddr::new(addr).as_u64()
}

/// `VirtAddr + u64` of the `x86_64` crate: plain addition, which panics on overflow
/// and on a non-canonical result.
#[verifier::external_body]
pub(crate) fn virt_addr_add(addr: u64, offset: u64) -> (r: u64)
    requires
        is_canonical(addr as int),
        is_canonical(addr + offset),
    ensures
        r == addr + offset,
{
    (VirtAddr::new(addr) + offset).as_u64()
}

/// A physical address has no bit set in the range 52 to 63.
pub open spec fn is_valid_phys(addr: int) -> bool {
    0 <= addr < 0x10_0000_0000_0000
}

/// `PhysAddr::new` of the `x86_64` crate, which panics if a bit in the range 52 to 63
/// is set and otherwise keeps the address as it is.
#[verifier::external_body]
pub(crate) fn phys_addr_new(addr: u64) -> (r: u64)
    requires
        is_valid_phys(addr as int),
    ensures
        r == addr,
{
    PhysAddr::new(addr).as_u64()
}

} // verus!
