use vstd::prelude::*;

verus! {

// access-byte bits of a descriptor
pub const ACC_AC: u8 = 1 << 0;
pub const ACC_RW: u8 = 1 << 1;
pub const ACC_EX: u8 = 1 << 3;
pub const ACC_S: u8 = 1 << 4;
pub const ACC_R3: u8 = 3 << 5;
pub const ACC_PR: u8 = 1 << 7;

/// Long-mode flag of the flags nibble.
pub const FLAG_LONG: u8 = 1 << 5;

/// A global descriptor table entry in its packed field layout: the base
/// address scattered over three fields, the low limit word, and the high
/// limit nibble folded into the flags byte.
pub struct Entry64 {
    pub limit_lo: u16,
    pub base_lo: u16,
    pub base_mi: u8,
    pub access: u8,
    pub flags: u8,
    pub base_hi: u8,
}

impl Entry64 {
    /// Pack `base`, `limit`, `flags` and `access` into the descriptor
    /// layout.
    pub fn new(base: u32, limit: u32, flags: u8, access: u8) -> (e: Entry64)
        ensures
            e.base_lo == (base & 0xFFFF) as u16,
            e.base_mi == ((base >> 16) & 0xFF) as u8,
            e.base_hi == ((base >> 24) & 0xFF) as u8,
            e.access == access,
            e.flags == (flags & 0xF0) | (((limit >> 16) & 0xF) as u8),
            e.limit_lo == (limit & 0xFFFF) as u16,
    {
        Entry64 {
            base_lo: (base & 0xFFFF) as u16,
            base_mi: ((base >> 16) & 0xFF) as u8,
            base_hi: ((base >> 24) & 0xFF) as u8,
            access: access,
            flags: (flags & 0xF0) | (((limit >> 16) & 0xF) as u8),
            limit_lo: (limit & 0xFFFF) as u16,
        }
    }
}

} // verus!
