//! The per-CPU execution context.
use vstd::prelude::*;

verus! {

/// What a CPU knows about itself: its number and the word that the bootloader's CPU
/// description carries for the kernel, kept under the name of the local APIC id.
#[derive(Debug, Clone, Copy, PartialEq, Eq, Structural)]
pub struct ExecutionContext {
    cpu_id: usize,
    lapic_id: usize,
}

impl ExecutionContext {
    pub closed spec fn spec_cpu_id(&self) -> usize {
        self.cpu_id
    }

    pub closed spec fn spec_lapic_id(&self) -> usize {
        self.lapic_id
    }

    /// The context of the CPU that the bootloader describes with `id` and the `extra`
    /// word. The kernel stores the page table root that the CPU starts with in `extra`
    /// before the CPU starts, so that value is what `lapic_id` gives back.
    pub fn from_cpu(id: u32, extra: u64) -> (r: Self)
        ensures
            r.spec_cpu_id() == id as usize,
            r.spec_lapic_id() == extra as usize,
    {
        ExecutionContext { cpu_id: id as usize, lapic_id: extra as usize }
    }

    pub fn cpu_id(&self) -> (r: usize)
        ensures
            r == self.spec_cpu_id(),
    {
        self.cpu_id
    }

    /// The `extra` word that the context was made from.
    pub fn lapic_id(&self) -> (r: usize)
        ensures
            r == self.spec_lapic_id(),
    {
        self.lapic_id
    }
}

} // verus!
