use crate::block::{payload_eq, spec_fits, Block, HEADER_SIZE, MAGIC, USED};
use vstd::prelude::*;

verus! {

/// A heap zone: the arena of its block headers and the head of their list.
///
/// `chain` is the ghost model of the zone's block list: the arena slots of
/// its blocks in list order, linked through their `prev`/`next` fields.
pub struct Zone {
    pub head: Option<usize>,
    pub blocks: Vec<Block>,
    pub chain: Ghost<Seq<usize>>,
}

/// Zone usage counters.
#[derive(Clone, Copy, PartialEq, Eq, Structural, Debug)]
pub struct Stat {
    pub blocks: usize,
    pub alloc: usize,
    pub bytes_alloc: usize,
    pub bytes_free: usize,
}

impl Stat {
    /// All-zero counters.
    pub fn new() -> (s: Stat)
        ensures
            s.blocks == 0,
            s.alloc == 0,
            s.bytes_alloc == 0,
            s.bytes_free == 0,
    {
        Stat { blocks: 0, alloc: 0, bytes_alloc: 0, bytes_free: 0 }
    }
}

impl Zone {
    /// The zone's block list, as arena slots in list order.
    pub open spec fn chain(&self) -> Seq<usize> {
        self.chain@
    }

    /// Zone invariant: the chain is a duplicate-free list of arena slots,
    /// `head` names its first entry, every member's links name its
    /// neighbours, and every member's data area ends within the address
    /// space.
    pub open spec fn wf(&self) -> bool {
        &&& self.chain().no_duplicates()
        &&& self.chain().len() <= self.blocks.len()
        &&& forall|i: int|
            0 <= i < self.chain().len() ==> (#[trigger] self.chain()[i]) < self.blocks.len()
        &&& (self.chain().len() == 0 <==> self.head is None)
        &&& (self.chain().len() > 0 ==> self.head == Some(self.chain()[0]))
        &&& forall|i: int|
            0 <= i < self.chain().len() ==> (#[trigger] self.blocks@[self.chain()[i] as int].next)
                == if i + 1 == self.chain().len() {
                None::<usize>
            } else {
                Some(self.chain()[i + 1])
            }
        &&& forall|i: int|
            0 <= i < self.chain().len() ==> (#[trigger] self.blocks@[self.chain()[i] as int].prev)
                == if i == 0 {
                None::<usize>
            } else {
                Some(self.chain()[i - 1])
            }
        &&& forall|i: int|
            0 <= i < self.chain().len() ==> (#[trigger] self.blocks@[self.chain()[i] as int].addr)
                + HEADER_SIZE + self.blocks@[self.chain()[i] as int].size <= u64::MAX
    }

    /// A zone with no blocks at all.
    pub fn empty() -> (z: Zone)
        ensures
            z.wf(),
            z.chain().len() == 0,
            z.head is None,
            z.blocks.len() == 0,
    {
        let ghost c: Seq<usize> = Seq::empty();
        Zone { head: None, blocks: Vec::new(), chain: Ghost(c) }
    }

    /// Wrap a zone around one placed, unlinked block, which becomes the
    /// list's head.
    pub fn new(first: Block) -> (z: Zone)
        requires
            first.prev is None,
            first.next is None,
            first.addr + HEADER_SIZE + first.size <= u64::MAX,
        ensures
            z.wf(),
            z.chain() == seq![0usize],
            z.head == Some(0usize),
            z.blocks.len() == 1,
            z.blocks@[0] == first,
    {
        let mut blocks: Vec<Block> = Vec::new();
        blocks.push(first);
        let ghost c: Seq<usize> = seq![0usize];
        Zone { head: Some(0), blocks, chain: Ghost(c) }
    }

    /// Carve a zone out of the memory range `[at, at + size)`: a single
    /// free block owning everything after its header.
    pub fn place(at: u64, size: usize) -> (z: Zone)
        requires
            HEADER_SIZE <= size,
            size <= u32::MAX,
            at + size <= u64::MAX,
        ensures
            z.wf(),
            z.chain() == seq![0usize],
            z.head == Some(0usize),
            z.blocks.len() == 1,
            z.blocks@[0].addr == at,
            z.blocks@[0].size == size - HEADER_SIZE,
            !z.blocks@[0].spec_is_used(),
            z.blocks@[0].spec_is_valid(),
    {
        let b = Block::place(at, size - HEADER_SIZE as usize);
        proof {
            assert(MAGIC & USED == 0) by {
                assert(0xFEDFAD80u32 & 1u32 == 0) by (bit_vector);
            }
            assert(MAGIC & MAGIC == MAGIC) by {
                assert(0xFEDFAD80u32 & 0xFEDFAD80u32 == 0xFEDFAD80u32) by (bit_vector);
            }
        }
        Zone::new(b)
    }

    /// Used blocks among the first `n` list members.
    pub open spec fn spec_alloc_count(&self, n: int) -> int
        decreases n,
    {
        if n <= 0 {
            0
        } else {
            self.spec_alloc_count(n - 1) + if self.blocks@[self.chain()[n - 1] as int].spec_is_used() {
                1int
            } else {
                0int
            }
        }
    }

    /// Data bytes of the used blocks among the first `n` list members.
    pub open spec fn spec_bytes_alloc(&self, n: int) -> int
        decreases n,
    {
        if n <= 0 {
            0
        } else {
            self.spec_bytes_alloc(n - 1) + if self.blocks@[self.chain()[n - 1] as int].spec_is_used() {
                self.blocks@[self.chain()[n - 1] as int].size as int
            } else {
                0int
            }
        }
    }

    /// Data bytes of the free blocks among the first `n` list members.
    pub open spec fn spec_bytes_free(&self, n: int) -> int
        decreases n,
    {
        if n <= 0 {
            0
        } else {
            self.spec_bytes_free(n - 1) + if self.blocks@[self.chain()[n - 1] as int].spec_is_used() {
                0int
            } else {
                self.blocks@[self.chain()[n - 1] as int].size as int
            }
        }
    }

    /// The partial counters only grow with the prefix length.
    proof fn lemma_stat_monotonic(&self, n: int, m: int)
        requires
            0 <= n <= m,
        ensures
            self.spec_alloc_count(n) <= self.spec_alloc_count(m),
            self.spec_bytes_alloc(n) <= self.spec_bytes_alloc(m),
            self.spec_bytes_free(n) <= self.spec_bytes_free(m),
        decreases m,
    {
        if n < m {
            self.lemma_stat_monotonic(n, m - 1);
        }
    }

    /// Fill `st` with the zone's counters: blocks on the list, used blocks,
    /// and the used and free data bytes.
    pub fn stat(&self, st: &mut Stat)
        requires
            self.wf(),
            self.spec_bytes_alloc(self.chain().len() as int) <= usize::MAX,
            self.spec_bytes_free(self.chain().len() as int) <= usize::MAX,
        ensures
            final(st).blocks == self.chain().len(),
            final(st).alloc == self.spec_alloc_count(self.chain().len() as int),
            final(st).bytes_alloc == self.spec_bytes_alloc(self.chain().len() as int),
            final(st).bytes_free == self.spec_bytes_free(self.chain().len() as int),
    {
        st.blocks = 0;
        st.alloc = 0;
        st.bytes_alloc = 0;
        st.bytes_free = 0;
        let ghost c = self.chain@;
        let ghost n = c.len() as int;
        let mut cursor = self.head;
        let ghost mut i: int = 0;
        while cursor.is_some()
            invariant
                self.wf(),
                c == self.chain@,
                n == c.len(),
                0 <= i <= n,
                cursor == if i < n {
                    Some(c[i])
                } else {
                    None::<usize>
                },
                st.blocks == i,
                st.alloc == self.spec_alloc_count(i),
                st.alloc <= i,
                st.bytes_alloc == self.spec_bytes_alloc(i),
                st.bytes_free == self.spec_bytes_free(i),
                self.spec_bytes_alloc(n) <= usize::MAX,
                self.spec_bytes_free(n) <= usize::MAX,
            decreases n - i,
        {
            let cur = cursor.unwrap();
            proof {
                assert(i < n);
                assert(c[i] == cur);
                assert(cur < self.blocks.len());
                self.lemma_stat_monotonic(i + 1, n);
            }
            st.blocks = st.blocks + 1;
            let used = self.blocks[cur].is_used();
            let sz = self.blocks[cur].size();
            if used {
                st.alloc = st.alloc + 1;
                st.bytes_alloc = st.bytes_alloc + sz;
            } else {
                st.bytes_free = st.bytes_free + sz;
            }
            cursor = self.blocks[cur].next;
            proof {
                i = i + 1;
            }
        }
        proof {
            assert(i == n);
        }
    }

    /// `i` is the first list position whose block can serve `size` bytes.
    pub open spec fn spec_first_fit(&self, size: int, i: int) -> bool {
        &&& 0 <= i < self.chain().len()
        &&& spec_fits(self.blocks@[self.chain()[i] as int], size)
        &&& forall|j: int|
            0 <= j < i ==> !spec_fits(self.blocks@[(#[trigger] self.chain()[j]) as int], size)
    }

    /// First-fit allocation: serve `size` bytes from the first list block
    /// that is free and large enough, splitting off the remainder when it
    /// can hold another header.  Returns the served data address, or `None`
    /// when no block fits.
    #[verifier::rlimit(100)]
    pub fn allocate(&mut self, size: usize) -> (r: Option<u64>)
        requires
            old(self).wf(),
        ensures
            final(self).wf(),
            r is None ==> *final(self) == *old(self) && forall|i: int|
                0 <= i < old(self).chain().len() ==> !spec_fits(
                    old(self).blocks@[(#[trigger] old(self).chain()[i]) as int],
                    size as int,
                ),
            r matches Some(a) ==> exists|i: int|
                {
                    let c = old(self).chain();
                    let s = c[i] as int;
                    let b0 = old(self).blocks@[s];
                    &&& #[trigger] old(self).spec_first_fit(size as int, i)
                    &&& a == b0.addr + HEADER_SIZE
                    &&& final(self).blocks@[s].spec_is_used()
                    &&& final(self).blocks@[s].addr == b0.addr
                    &&& if b0.size >= size + HEADER_SIZE {
                        let nb = old(self).blocks.len() as int;
                        &&& final(self).chain() == c.insert(i + 1, old(self).blocks.len())
                        &&& final(self).blocks.len() == old(self).blocks.len() + 1
                        &&& final(self).blocks@[s].size == size
                        &&& final(self).blocks@[nb].size == b0.size - size - HEADER_SIZE
                        &&& final(self).blocks@[nb].addr == b0.addr + HEADER_SIZE + size
                        &&& !final(self).blocks@[nb].spec_is_used()
                        &&& forall|j: int|
                            0 <= j < c.len() && j != i && j != i + 1 ==> final(self).blocks@[(
                            #[trigger] c[j]) as int] == old(self).blocks@[c[j] as int]
                    } else {
                        &&& final(self).chain() == c
                        &&& final(self).blocks.len() == old(self).blocks.len()
                        &&& final(self).blocks@[s].size == b0.size
                        &&& forall|j: int|
                            0 <= j < c.len() && j != i ==> final(self).blocks@[(#[trigger] c[j]) as int]
                                == old(self).blocks@[c[j] as int]
                    }
                },
    {
        let ghost c = self.chain@;
        let ghost n = c.len() as int;
        let mut cursor = self.head;
        let ghost mut i: int = 0;
        while cursor.is_some()
            invariant
                self.wf(),
                *self == *old(self),
                c == self.chain@,
                n == c.len(),
                0 <= i <= n,
                cursor == if i < n {
                    Some(c[i])
                } else {
                    None::<usize>
                },
                forall|j: int|
                    0 <= j < i ==> !spec_fits(self.blocks@[(#[trigger] c[j]) as int], size as int),
            decreases n - i,
        {
            let cur = cursor.unwrap();
            proof {
                assert(i < n);
                assert(c[i] == cur);
                assert(cur < self.blocks.len());
                if i + 1 < n {
                    assert(self.blocks@[cur as int].next == Some(c[i + 1]));
                }
            }
            let ghost b0 = self.blocks@[cur as int];
            let prev_len = self.blocks.len();
            let res = Block::allocate(&mut self.blocks, cur, size);
            if let Some(a) = res {
                let ghost nb = prev_len;
                if self.blocks.len() > prev_len {
                    // split happened: the remainder block was appended and
                    // linked right after `cur`
                    let ghost c1 = c.insert(i + 1, nb);
                    self.chain = Ghost(c1);
                    proof {
                        assert(b0.size >= size + HEADER_SIZE);
                        c.insert_ensures(i + 1, nb);
                        assert(self.blocks@[nb as int].prev == Some(cur));
                        assert forall|y: usize| c.contains(y) implies y < nb by {
                            let k = choose|k: int| 0 <= k < c.len() && c[k] == y;
                        }
                        assert(c1.no_duplicates()) by {
                            assert forall|j1: int, j2: int|
                                0 <= j1 < c1.len() && 0 <= j2 < c1.len() && j1 != j2 implies c1[j1]
                                != c1[j2] by {
                                let o1 = if j1 <= i { j1 } else { j1 - 1 };
                                let o2 = if j2 <= i { j2 } else { j2 - 1 };
                                if j1 == i + 1 {
                                    lemma_chain_index(c, o2);
                                } else if j2 == i + 1 {
                                    lemma_chain_index(c, o1);
                                } else {
                                    assert(c1[j1] == c[o1] && c1[j2] == c[o2]);
                                }
                            }
                        }
                        assert forall|j: int|
                            0 <= j < c1.len() implies (#[trigger] self.blocks@[c1[j] as int].next)
                            == (if j + 1 == c1.len() {
                            None::<usize>
                        } else {
                            Some(c1[j + 1])
                        }) && self.blocks@[c1[j] as int].prev == (if j == 0 {
                            None::<usize>
                        } else {
                            Some(c1[j - 1])
                        }) by {
                            if j < i {
                                assert(c1[j] == c[j]);
                                assert(c[j] != cur && c[j] != nb) by {
                                    lemma_chain_index(c, j);
                                }
                                if i + 1 < n && c[j] == c[i + 1] {
                                    assert(false);
                                }
                                assert(self.blocks@[c[j] as int] == old(self).blocks@[c[j] as int]);
                                assert(c1[j + 1] == c[j + 1]);
                                if j > 0 {
                                    assert(c1[j - 1] == c[j - 1]);
                                }
                            } else if j == i {
                                assert(c1[j] == c[i] && c[i] == cur);
                                assert(self.blocks@[cur as int].next == Some(nb));
                                assert(c1[i + 1] == nb);
                                if i > 0 {
                                    assert(c1[i - 1] == c[i - 1]);
                                }
                            } else if j == i + 1 {
                                assert(c1[j] == nb);
                                assert(self.blocks@[nb as int].next == b0.next);
                                assert(self.blocks@[nb as int].prev == Some(cur));
                                assert(c1[i] == cur);
                                if i + 1 < n {
                                    assert(b0.next == Some(c[i + 1]));
                                    assert(c1[j + 1] == c[i + 1]);
                                } else {
                                    assert(b0.next is None);
                                    assert(j + 1 == c1.len());
                                }
                            } else if j == i + 2 {
                                // the old successor of `cur`, re-linked to the
                                // new block
                                assert(c1[j] == c[i + 1]);
                                assert(b0.next == Some(c[i + 1]));
                                assert(self.blocks@[c[i + 1] as int].prev == Some(nb));
                                assert(self.blocks@[c[i + 1] as int].next == old(self).blocks@[c[i
                                    + 1] as int].next);
                                assert(c1[j - 1] == nb);
                                if j + 1 < c1.len() {
                                    assert(c1[j + 1] == c[i + 2]);
                                }
                            } else {
                                assert(c1[j] == c[j - 1]);
                                assert(c[j - 1] != cur && c[j - 1] != nb) by {
                                    lemma_chain_index(c, j - 1);
                                }
                                if i + 1 < n && c[j - 1] == c[i + 1] {
                                    assert(false);
                                }
                                assert(self.blocks@[c[j - 1] as int] == old(self).blocks@[c[j
                                    - 1] as int]);
                                assert(c1[j - 1] == c[j - 2]);
                                if j + 1 < c1.len() {
                                    assert(c1[j + 1] == c[j]);
                                }
                            }
                        }
                        assert(c1[0] == c[0]);
                        assert forall|j2: int|
                            0 <= j2 < n implies (#[trigger] old(self).blocks@[c[j2] as int].addr)
                            + HEADER_SIZE + old(self).blocks@[c[j2] as int].size <= u64::MAX by {
                            assert(old(self).chain()[j2] == c[j2]);
                        }
                        assert forall|j: int|
                            0 <= j < c1.len() implies (#[trigger] self.blocks@[c1[j] as int].addr)
                            + HEADER_SIZE + self.blocks@[c1[j] as int].size <= u64::MAX by {
                            if j < i {
                                assert(c1[j] == c[j]);
                                lemma_chain_index(c, j);
                                if i + 1 < n && c[j] == c[i + 1] {
                                    assert(false);
                                }
                                assert(self.blocks@[c[j] as int] == old(self).blocks@[c[j] as int]);
                                assert(old(self).blocks@[c[j] as int].addr + HEADER_SIZE + old(
                                    self,
                                ).blocks@[c[j] as int].size <= u64::MAX);
                            } else if j == i {
                                assert(c1[j] == cur);
                                assert(self.blocks@[cur as int].size == size);
                                assert(self.blocks@[cur as int].addr == b0.addr);
                                assert(b0.size >= size);
                                assert(old(self).blocks@[c[i] as int].addr + HEADER_SIZE + old(
                                    self,
                                ).blocks@[c[i] as int].size <= u64::MAX);
                            } else if j == i + 1 {
                                assert(c1[j] == nb);
                                assert(self.blocks@[nb as int].addr == b0.addr + HEADER_SIZE
                                    + size);
                                assert(self.blocks@[nb as int].size == b0.size - size
                                    - HEADER_SIZE);
                                assert(old(self).blocks@[c[i] as int].addr + HEADER_SIZE + old(
                                    self,
                                ).blocks@[c[i] as int].size <= u64::MAX);
                            } else if j == i + 2 {
                                assert(c1[j] == c[i + 1]);
                                assert(payload_eq(
                                    old(self).blocks@[c[i + 1] as int],
                                    self.blocks@[c[i + 1] as int],
                                ));
                                assert(old(self).blocks@[c[i + 1] as int].addr + HEADER_SIZE + old(
                                    self,
                                ).blocks@[c[i + 1] as int].size <= u64::MAX);
                            } else {
                                assert(c1[j] == c[j - 1]);
                                lemma_chain_index(c, j - 1);
                                if i + 1 < n && c[j - 1] == c[i + 1] {
                                    assert(false);
                                }
                                assert(self.blocks@[c[j - 1] as int] == old(self).blocks@[c[j
                                    - 1] as int]);
                                assert(old(self).blocks@[c[j - 1] as int].addr + HEADER_SIZE + old(
                                    self,
                                ).blocks@[c[j - 1] as int].size <= u64::MAX);
                            }
                        }
                        assert(old(self).spec_first_fit(size as int, i));
                    }
                } else {
                    proof {
                        assert(old(self).spec_first_fit(size as int, i));
                        assert(self.chain@ == c);
                        assert forall|j: int|
                            0 <= j < c.len() implies (#[trigger] self.blocks@[c[j] as int].next)
                            == (if j + 1 == c.len() {
                            None::<usize>
                        } else {
                            Some(c[j + 1])
                        }) && self.blocks@[c[j] as int].prev == (if j == 0 {
                            None::<usize>
                        } else {
                            Some(c[j - 1])
                        }) by {
                            if j != i {
                                lemma_chain_index(c, j);
                                assert(self.blocks@[c[j] as int] == old(self).blocks@[c[j] as int]);
                            }
                        }
                    }
                }
                return Some(a);
            }
            proof {
                assert(!spec_fits(b0, size as int));
            }
            cursor = self.blocks[cur].next;
            proof {
                i = i + 1;
            }
        }
        None
    }
}

/// Distinct positions of a duplicate-free sequence hold distinct slots.
proof fn lemma_chain_index(c: Seq<usize>, j: int)
    requires
        0 <= j < c.len(),
    ensures
        c.contains(c[j]),
{
}

} // verus!
