use core::marker::PhantomData;
use vstd::prelude::*;

verus! {

/// Page table entry is valid.
pub const PAGE_PRESENT: u64 = 1 << 0;

/// Depending on the translation level, marks an alternate page size (only
/// 2 MiB pages are used so far).
pub const PAGE_HUGE: u64 = 1 << 7;

/// A single specific page-table nesting level.
pub trait Level {
    /// Bit position of this level's index field within a virtual address.
    spec fn spec_index_shift() -> usize;

    /// Executable twin of `spec_index_shift`.
    fn index_shift() -> (s: usize)
        ensures
            s == Self::spec_index_shift(),
            s < 64,
    ;
}

/// Address translation logic of one table level.
pub trait Table {
    /// The 512 raw entries of the table.
    spec fn spec_entries(&self) -> Seq<u64>;

    /// The index-field shift of the table's level.
    spec fn spec_shift(&self) -> usize;

    /// Look `virt` up in this table: the entry's physical address and its
    /// low flag bits, or `None` for a non-present entry.
    fn translate(&self, virt: u64) -> (r: Option<(u64, u64)>)
        requires
            self.spec_entries().len() == 512,
            self.spec_shift() < 64,
        ensures
            ({
                let entry = self.spec_entries()[((virt >> self.spec_shift()) & 0x1FF) as int];
                if entry & PAGE_PRESENT != 0 {
                    r == Some(((entry & 0xFFFF_FFFF_FFFF_F000) as u64, (entry & 0xFFF) as u64))
                } else {
                    r is None
                }
            }),
    ;
}

/// Page table.
pub struct L1;

/// Page directory.
pub struct L2;

/// Page directory pointer table.
pub struct L3;

/// PML4.
pub struct L4;

impl Level for L1 {
    open spec fn spec_index_shift() -> usize {
        12
    }

    fn index_shift() -> usize {
        12
    }
}

impl Level for L2 {
    open spec fn spec_index_shift() -> usize {
        21
    }

    fn index_shift() -> usize {
        21
    }
}

impl Level for L3 {
    open spec fn spec_index_shift() -> usize {
        30
    }

    fn index_shift() -> usize {
        30
    }
}

impl Level for L4 {
    open spec fn spec_index_shift() -> usize {
        39
    }

    fn index_shift() -> usize {
        39
    }
}

/// A `[u64; 512]` page table of nesting level `T`, providing translation
/// semantics.
pub struct PageTable<T: Level> {
    pub entries: [u64; 512],
    pub level: PhantomData<T>,
}

impl<T: Level> PageTable<T> {
    /// Wrap raw table entries.
    pub fn from_entries(entries: [u64; 512]) -> (t: PageTable<T>)
        ensures
            t.entries == entries,
    {
        PageTable { entries, level: PhantomData }
    }
}

impl<T: Level> Table for PageTable<T> {
    open spec fn spec_entries(&self) -> Seq<u64> {
        self.entries@
    }

    open spec fn spec_shift(&self) -> usize {
        T::spec_index_shift()
    }

    fn translate(&self, virt: u64) -> (r: Option<(u64, u64)>) {
        let shift = T::index_shift();
        let masked = (virt >> shift) & 0x1FF;
        proof {
            let v = virt >> shift;
            assert(v & 0x1FF < 512) by (bit_vector);
        }
        let index = masked as usize;
        let entry = self.entries[index];
        if entry & PAGE_PRESENT != 0 {
            Some((entry & 0xFFFF_FFFF_FFFF_F000, entry & 0xFFF))
        } else {
            None
        }
    }
}

} // verus!
