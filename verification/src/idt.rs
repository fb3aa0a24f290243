use vstd::prelude::*;

verus! {

pub const FLAG_TASK32: u8 = 5;
pub const FLAG_INT32: u8 = 14;
pub const FLAG_PR: u8 = 1 << 7;

/// An interrupt descriptor table entry in its packed field layout: the
/// handler address scattered over three fields, the code segment selector,
/// and the descriptor flags.
pub struct Entry {
    pub base_lo: u16,
    pub selector: u16,
    pub zero0: u8,
    pub flags: u8,
    pub base_hi: u16,
    pub base_ex: u32,
    pub zero1: u32,
}

impl Entry {
    /// Pack a descriptor for the handler at `addr` reached through
    /// `selector`.  The trailing reserved word holds 1 here and 0 in
    /// `empty`.
    pub fn new(addr: u64, selector: u16, flags: u8) -> (e: Entry)
        ensures
            e.base_lo == (addr & 0xFFFF) as u16,
            e.base_hi == ((addr >> 16) & 0xFFFF) as u16,
            e.base_ex == ((addr >> 32) & 0xFFFFFFFF) as u32,
            e.zero0 == 0,
            e.zero1 == 1,
            e.selector == selector,
            e.flags == flags,
    {
        Entry {
            base_lo: (addr & 0xFFFF) as u16,
            base_hi: ((addr >> 16) & 0xFFFF) as u16,
            base_ex: ((addr >> 32) & 0xFFFFFFFF) as u32,
            zero0: 0,
            zero1: 1,
            selector: selector,
            flags: flags,
        }
    }

    /// The all-zero, non-present descriptor.
    pub fn empty() -> (e: Entry)
        ensures
            e.base_lo == 0,
            e.selector == 0,
            e.zero0 == 0,
            e.flags == 0,
            e.base_hi == 0,
            e.base_ex == 0,
            e.zero1 == 0,
    {
        Entry {
            base_lo: 0,
            selector: 0,
            zero0: 0,
            flags: 0,
            base_hi: 0,
            base_ex: 0,
            zero1: 0,
        }
    }
}

} // verus!
