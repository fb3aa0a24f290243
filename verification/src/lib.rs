pub mod acpi;
pub mod block;
pub mod context;
pub mod debug;
pub mod gdt;
pub mod idt;
pub mod io;
pub mod irq;
pub mod mem;
pub mod phys;
pub mod proc;
pub mod sched;
pub mod zone;

use vstd::prelude::*;

verus! {

/// Base of the higher-half mapping that the kernel runs in.
///
/// Addresses are modelled as `u64` throughout: the target is x86-64, whose
/// physical and virtual addresses are 64 bits wide.
pub const KERNEL_OFFSET: u64 = 0xFFFF_FF00_0000_0000;

/// Convert a physical address below 4 GiB (the only region mapped during
/// early boot) to its higher-half virtual alias.
pub fn virtualize(phys: u64) -> (virt: u64)
    requires
        phys < 0x1_0000_0000,
    ensures
        virt == phys + KERNEL_OFFSET,
{
    phys + KERNEL_OFFSET
}

} // verus!
