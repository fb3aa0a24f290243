use vstd::prelude::*;

verus! {

/// Magic tag of a live heap block header.
pub const MAGIC: u32 = 0xFEDFAD80;

/// Flag bit, set inside the magic word, marking a block as allocated.
pub const USED: u32 = 1;

/// Footprint in bytes of a block header inside its zone's memory.
pub const HEADER_SIZE: u64 = 24;

/// A heap block header: a magic/flags word, the byte size of the data area
/// that follows the header, links to the neighbouring blocks of the same
/// zone, and the address the header occupies in zone memory.
///
/// Blocks of a zone live in an arena (`Vec<Block>`); the `prev`/`next` links
/// hold arena slots, standing for the header pointers of the reference
/// design.
pub struct Block {
    pub magic: u32,
    pub size: u32,
    pub prev: Option<usize>,
    pub next: Option<usize>,
    pub addr: u64,
}

impl Block {
    /// Allocated flag, as a spec-level predicate on the magic word.
    pub open spec fn spec_is_used(&self) -> bool {
        self.magic & USED != 0
    }

    /// Valid-header predicate: all magic bits present.
    pub open spec fn spec_is_valid(&self) -> bool {
        self.magic & MAGIC == MAGIC
    }

    /// A fresh, unlinked, unplaced block of the given data size.
    pub fn new(size: usize) -> (b: Block)
        requires
            size <= u32::MAX,
        ensures
            b.magic == MAGIC,
            b.size as usize == size,
            b.prev is None,
            b.next is None,
            b.addr == 0,
    {
        Block { magic: MAGIC, size: size as u32, prev: None, next: None, addr: 0 }
    }

    /// The all-zero header a merged-away block is overwritten with.
    pub fn invalid() -> (b: Block)
        ensures
            b.magic == 0,
            b.size == 0,
            b.prev is None,
            b.next is None,
            b.addr == 0,
    {
        Block { magic: 0, size: 0, prev: None, next: None, addr: 0 }
    }

    /// Write a fresh block header at address `at` with data size `size`.
    pub fn place(at: u64, size: usize) -> (b: Block)
        requires
            size <= u32::MAX,
        ensures
            b.magic == MAGIC,
            b.size as usize == size,
            b.prev is None,
            b.next is None,
            b.addr == at,
    {
        Block { magic: MAGIC, size: size as u32, prev: None, next: None, addr: at }
    }

    /// Byte size of the data area.
    pub fn size(&self) -> (s: usize)
        ensures
            s == self.size as usize,
    {
        self.size as usize
    }

    /// Address of the data area: right after the header.
    pub fn data(&self) -> (d: u64)
        requires
            self.addr + HEADER_SIZE <= u64::MAX,
        ensures
            d == self.addr + HEADER_SIZE,
    {
        self.addr + HEADER_SIZE
    }

    pub fn is_used(&self) -> (r: bool)
        ensures
            r == self.spec_is_used(),
    {
        self.magic & USED != 0
    }

    pub fn is_valid(&self) -> (r: bool)
        ensures
            r == self.spec_is_valid(),
    {
        self.magic & MAGIC == MAGIC
    }

    /// Link block `nb` into the chain right after block `at`, patching the
    /// old successor's back link.  Only links change; no payload does.
    pub fn insert(blocks: &mut Vec<Block>, at: usize, nb: usize)
        requires
            at < old(blocks).len(),
            nb < old(blocks).len(),
            at != nb,
            old(blocks)@[nb as int].prev is None,
            old(blocks)@[nb as int].next is None,
            old(blocks)@[at as int].next matches Some(k) ==> k < old(blocks).len() && k != at && k
                != nb,
        ensures
            final(blocks).len() == old(blocks).len(),
            final(blocks)@[at as int].next == Some(nb),
            final(blocks)@[at as int].prev == old(blocks)@[at as int].prev,
            final(blocks)@[nb as int].prev == Some(at),
            final(blocks)@[nb as int].next == old(blocks)@[at as int].next,
            old(blocks)@[at as int].next matches Some(k) ==> final(blocks)@[k as int].prev
                == Some(nb) && final(blocks)@[k as int].next == old(blocks)@[k as int].next,
            forall|s: int|
                0 <= s < old(blocks).len() ==> payload_eq(
                    old(blocks)@[s],
                    #[trigger] final(blocks)@[s],
                ),
            forall|s: int|
                0 <= s < old(blocks).len() && s != at && s != nb && old(blocks)@[at as int].next
                    != Some(s as usize) ==> final(blocks)@[s] == old(blocks)@[s],
    {
        let old_next = blocks[at].next;
        if let Some(k) = old_next {
            blocks[k].prev = Some(nb);
        }
        blocks[nb].next = old_next;
        blocks[nb].prev = Some(at);
        blocks[at].next = Some(nb);
    }

    /// Merge `at`'s successor into `at` — combining the sizes, absorbing the
    /// successor's header, and fixing links — when the successor exists and
    /// both blocks are unused.  The absorbed header is invalidated.  Returns
    /// whether a merge happened.
    pub fn merge(blocks: &mut Vec<Block>, at: usize) -> (merged: bool)
        requires
            at < old(blocks).len(),
            old(blocks)@[at as int].next matches Some(k) ==> {
                &&& k < old(blocks).len()
                &&& k != at
                &&& old(blocks)@[at as int].size + HEADER_SIZE + old(blocks)@[k as int].size
                    <= u32::MAX
                &&& (old(blocks)@[k as int].next matches Some(m) ==> m < old(blocks).len() && m
                    != at && m != k)
            },
        ensures
            merged == (!old(blocks)@[at as int].spec_is_used() && old(blocks)@[at as int].next
                is Some && !old(blocks)@[old(blocks)@[at as int].next.unwrap() as int].spec_is_used()),
            !merged ==> *final(blocks) == *old(blocks),
            merged ==> {
                let k = old(blocks)@[at as int].next.unwrap() as int;
                &&& final(blocks).len() == old(blocks).len()
                &&& final(blocks)@[at as int].size == old(blocks)@[at as int].size + HEADER_SIZE
                    + old(blocks)@[k].size
                &&& final(blocks)@[at as int].next == old(blocks)@[k].next
                &&& final(blocks)@[at as int].prev == old(blocks)@[at as int].prev
                &&& final(blocks)@[at as int].magic == old(blocks)@[at as int].magic
                &&& final(blocks)@[at as int].addr == old(blocks)@[at as int].addr
                &&& final(blocks)@[k].magic == 0
                &&& final(blocks)@[k].size == 0
                &&& final(blocks)@[k].prev is None
                &&& final(blocks)@[k].next is None
                &&& (old(blocks)@[k].next matches Some(m) ==> final(blocks)@[m as int].prev
                    == Some(at) && final(blocks)@[m as int].next == old(blocks)@[m as int].next)
                &&& forall|s: int|
                    0 <= s < old(blocks).len() && s != at && s != k && old(blocks)@[k].next
                        != Some(s as usize) ==> final(blocks)@[s] == old(blocks)@[s]
            },
    {
        if !blocks[at].is_used() && blocks[at].next.is_some() {
            let k = blocks[at].next.unwrap();
            if !blocks[k].is_used() {
                let knext = blocks[k].next;
                blocks[at].next = knext;
                if let Some(m) = knext {
                    blocks[m].prev = Some(at);
                }
                let absorbed = HEADER_SIZE as u32 + blocks[k].size;
                blocks[at].size = blocks[at].size + absorbed;
                let inv = Block::invalid();
                blocks[k] = inv;
                return true;
            }
        }
        false
    }

    /// Serve `count` bytes from block `at`: refuse if the block is used or
    /// too small; split off the remainder into a fresh block (appended to
    /// the arena and linked right after `at`) when it can hold another
    /// header; mark the block used and return its data address.
    pub fn allocate(blocks: &mut Vec<Block>, at: usize, count: usize) -> (r: Option<u64>)
        requires
            at < old(blocks).len(),
            old(blocks)@[at as int].addr + HEADER_SIZE + old(blocks)@[at as int].size
                <= u64::MAX,
            old(blocks)@[at as int].next matches Some(k) ==> k < old(blocks).len() && k != at,
        ensures
            r is Some <==> (!old(blocks)@[at as int].spec_is_used() && old(blocks)@[at as int].size
                >= count),
            r is None ==> *final(blocks) == *old(blocks),
            r is Some ==> {
                let b0 = old(blocks)@[at as int];
                &&& r == Some((b0.addr + HEADER_SIZE) as u64)
                &&& final(blocks)@[at as int].magic == b0.magic | USED
                &&& final(blocks)@[at as int].spec_is_used()
                &&& final(blocks)@[at as int].prev == b0.prev
                &&& final(blocks)@[at as int].addr == b0.addr
                &&& if b0.size >= count + HEADER_SIZE {
                    // split: the remainder becomes a fresh block in the
                    // arena's new last slot, linked right after `at`
                    let nb = old(blocks).len() as int;
                    &&& final(blocks).len() == old(blocks).len() + 1
                    &&& final(blocks)@[at as int].size == count
                    &&& final(blocks)@[at as int].next == Some(nb as usize)
                    &&& final(blocks)@[nb].magic == MAGIC
                    &&& !final(blocks)@[nb].spec_is_used()
                    &&& final(blocks)@[nb].size == b0.size - count - HEADER_SIZE
                    &&& final(blocks)@[nb].addr == b0.addr + HEADER_SIZE + count
                    &&& final(blocks)@[nb].prev == Some(at)
                    &&& final(blocks)@[nb].next == b0.next
                    &&& (b0.next matches Some(k) ==> final(blocks)@[k as int].prev == Some(
                        nb as usize,
                    ) && final(blocks)@[k as int].next == old(blocks)@[k as int].next
                        && payload_eq(old(blocks)@[k as int], final(blocks)@[k as int]))
                    &&& forall|s: int|
                        0 <= s < old(blocks).len() && s != at && b0.next != Some(s as usize)
                            ==> final(blocks)@[s] == old(blocks)@[s]
                } else {
                    &&& final(blocks).len() == old(blocks).len()
                    &&& final(blocks)@[at as int].size == b0.size
                    &&& final(blocks)@[at as int].next == b0.next
                    &&& forall|s: int|
                        0 <= s < old(blocks).len() && s != at ==> final(blocks)@[s] == old(
                            blocks,
                        )@[s]
                }
            },
    {
        if blocks[at].is_used() || blocks[at].size() < count {
            return None;
        }

        let data = blocks[at].data();
        if blocks[at].size() - count >= HEADER_SIZE as usize {
            let new_block_addr = data + count as u64;
            let new_size = blocks[at].size() - count - HEADER_SIZE as usize;
            let nb_block = Block::place(new_block_addr, new_size);
            proof {
                assert(MAGIC & USED == 0) by {
                    assert(0xFEDFAD80u32 & 1u32 == 0) by (bit_vector);
                }
            }
            let nb = blocks.len();
            blocks.push(nb_block);
            Block::insert(blocks, at, nb);
            blocks[at].size = count as u32;
        }

        let m = blocks[at].magic;
        blocks[at].magic = m | USED;
        proof {
            assert((m | USED) & USED != 0) by {
                let mm = m;
                assert((mm | 1u32) & 1u32 != 0) by (bit_vector);
            }
        }
        Some(data)
    }
}

/// The non-link payload of two headers coincides.
pub open spec fn payload_eq(a: Block, b: Block) -> bool {
    a.magic == b.magic && a.size == b.size && a.addr == b.addr
}

/// The block can serve `size` bytes: free and large enough.
pub open spec fn spec_fits(b: Block, size: int) -> bool {
    !b.spec_is_used() && b.size >= size
}

} // verus!
