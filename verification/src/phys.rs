use vstd::prelude::*;

verus! {

/// Size of a physical page frame in bytes.
pub const PAGE_SIZE: u64 = 4096;

/// Classification of a physical page frame.
#[derive(Clone, Copy, PartialEq, Eq, Structural, Debug)]
pub enum PageUsage {
    Reserved,
    Available,
    Kernel,
}

/// Per-frame state: a reference count and the frame's classification.
#[derive(Clone, Copy, PartialEq, Eq, Structural, Debug)]
pub struct Page {
    pub refcount: u32,
    pub usage: PageUsage,
}

impl Page {
    /// A frame counts as used unless it is available.
    pub fn is_used(&self) -> (r: bool)
        ensures
            r == (self.usage != PageUsage::Available),
    {
        self.usage != PageUsage::Available
    }
}

/// The page structure for frame number `num`.
pub fn get_page(pages: &Vec<Page>, num: usize) -> (p: Page)
    requires
        num < pages.len(),
    ensures
        p == pages@[num as int],
{
    pages[num]
}

/// The page structure covering physical address `addr`.
pub fn get_page_at(pages: &Vec<Page>, addr: u64) -> (p: Page)
    requires
        addr as int / 4096 < pages.len(),
    ensures
        p == pages@[addr as int / 4096],
{
    get_page(pages, (addr / 4096) as usize)
}

/// Mark the first available frame of `[start, end)` as `usage` with no
/// references and return its physical address; `None` when every frame of
/// the range is taken.  Frames can only be claimed for a concrete use.
pub fn alloc_page(pages: &mut Vec<Page>, start: usize, end: usize, usage: PageUsage) -> (r: Option<
    u64,
>)
    requires
        usage != PageUsage::Reserved,
        usage != PageUsage::Available,
        start <= end,
        end <= old(pages).len(),
        end <= 0x10_0000_0000,
    ensures
        final(pages).len() == old(pages).len(),
        r is None ==> *final(pages) == *old(pages) && forall|j: int|
            start <= j < end ==> (#[trigger] old(pages)@[j].usage) != PageUsage::Available,
        r matches Some(a) ==> {
            let i = a as int / 4096;
            &&& a == i * 4096
            &&& start <= i < end
            &&& old(pages)@[i].usage == PageUsage::Available
            &&& forall|j: int|
                start <= j < i ==> (#[trigger] old(pages)@[j].usage) != PageUsage::Available
            &&& final(pages)@ == old(pages)@.update(i, Page { refcount: 0, usage })
        },
{
    let mut index = start;
    while index < end
        invariant
            start <= index <= end,
            end <= pages.len(),
            end <= 0x10_0000_0000,
            usage != PageUsage::Reserved,
            usage != PageUsage::Available,
            *pages == *old(pages),
            forall|j: int|
                start <= j < index ==> (#[trigger] pages@[j].usage) != PageUsage::Available,
        decreases end - index,
    {
        if matches!(pages[index].usage, PageUsage::Available) {
            pages[index] = Page { refcount: 0, usage };
            proof {
                assert((index * 4096) as u64 as int / 4096 == index);
            }
            return Some((index as u64) * 4096);
        }
        index = index + 1;
    }
    None
}

/// All `count` frames of the window starting at frame `i` are available.
pub open spec fn spec_window_free(pages: Seq<Page>, i: int, count: int) -> bool {
    forall|j: int| i <= j < i + count ==> (#[trigger] pages[j].usage) == PageUsage::Available
}

/// Claim `count` contiguous available frames out of `[start, end - count)`
/// for `usage`, first-fit by base frame, and return the base address;
/// `None` when no window of the range is wholly available.  An available
/// frame must carry no references, else the claim halts the system.
pub fn alloc_contiguous(
    pages: &mut Vec<Page>,
    start: usize,
    end: usize,
    usage: PageUsage,
    count: usize,
) -> (r: Option<u64>)
    requires
        start <= end,
        end <= old(pages).len(),
        end <= 0x10_0000_0000,
        count <= end,
        forall|j: int|
            start <= j < end && (#[trigger] old(pages)@[j].usage) == PageUsage::Available
                ==> old(pages)@[j].refcount == 0,
    ensures
        final(pages).len() == old(pages).len(),
        r is None ==> *final(pages) == *old(pages) && forall|i: int|
            start <= i < end - count ==> !spec_window_free(old(pages)@, i, count as int),
        r matches Some(a) ==> {
            let i = a as int / 4096;
            &&& a == i * 4096
            &&& start <= i < end - count
            &&& spec_window_free(old(pages)@, i, count as int)
            &&& forall|i2: int|
                start <= i2 < i ==> !spec_window_free(old(pages)@, i2, count as int)
            &&& forall|j: int|
                i <= j < i + count ==> (#[trigger] final(pages)@[j]) == (Page {
                    refcount: 0,
                    usage,
                })
            &&& forall|j: int|
                0 <= j < old(pages).len() && !(i <= j < i + count)
                    ==> (#[trigger] final(pages)@[j]) == old(pages)@[j]
        },
{
    let mut i = start;
    while i < end - count
        invariant
            start <= i,
            i <= end,
            count <= end,
            end <= pages.len(),
            end <= 0x10_0000_0000,
            *pages == *old(pages),
            forall|j: int|
                start <= j < end && (#[trigger] old(pages)@[j].usage) == PageUsage::Available
                    ==> old(pages)@[j].refcount == 0,
            forall|i2: int|
                start <= i2 < i ==> !spec_window_free(pages@, i2, count as int),
        decreases end - i,
    {
        let mut fail = false;
        let mut j: usize = 0;
        while j < count && !fail
            invariant
                j <= count,
                i + count < end,
                end <= pages.len(),
                *pages == *old(pages),
                !fail ==> forall|j2: int|
                    i <= j2 < i + j ==> (#[trigger] pages@[j2].usage) == PageUsage::Available,
                fail ==> !spec_window_free(pages@, i as int, count as int),
            decreases count - j, (if fail { 0int } else { 1int }),
        {
            if pages[i + j].is_used() {
                fail = true;
                proof {
                    assert(pages@[i + j].usage != PageUsage::Available);
                }
            } else {
                j = j + 1;
            }
        }

        if !fail {
            let mut k: usize = 0;
            while k < count
                invariant
                    k <= count,
                    start <= i,
                    i + count < end,
                    end <= pages.len(),
                    pages.len() == old(pages).len(),
                    spec_window_free(old(pages)@, i as int, count as int),
                    forall|j2: int|
                        start <= j2 < end && (#[trigger] old(pages)@[j2].usage)
                            == PageUsage::Available ==> old(pages)@[j2].refcount == 0,
                    forall|j2: int|
                        i <= j2 < i + k ==> (#[trigger] pages@[j2]) == (Page {
                            refcount: 0,
                            usage,
                        }),
                    forall|j2: int|
                        0 <= j2 < old(pages).len() && !(i <= j2 < i + k) ==> (#[trigger] pages@[j2])
                            == old(pages)@[j2],
                decreases count - k,
            {
                let rc = pages[i + k].refcount;
                proof {
                    assert(pages@[(i + k) as int] == old(pages)@[(i + k) as int]);
                    assert(old(pages)@[(i + k) as int].usage == PageUsage::Available);
                    assert(rc == 0);
                }
                pages[i + k] = Page { refcount: rc, usage };
                k = k + 1;
            }
            proof {
                assert((i * 4096) as u64 as int / 4096 == i);
            }
            return Some((i as u64) * 4096);
        }
        i = i + 1;
    }
    None
}

/// Return the frame at physical address `phys` to the available pool.
/// Freeing an unused or unreferenced frame halts the system, so a verified
/// caller must not do either.
pub fn free_page(pages: &mut Vec<Page>, phys: u64)
    requires
        phys as int / 4096 < old(pages).len(),
        old(pages)@[phys as int / 4096].usage != PageUsage::Available,
        old(pages)@[phys as int / 4096].refcount > 0,
    ensures
        final(pages)@ == old(pages)@.update(
            phys as int / 4096,
            Page {
                refcount: old(pages)@[phys as int / 4096].refcount,
                usage: PageUsage::Available,
            },
        ),
{
    let index = (phys / 4096) as usize;
    let rc = pages[index].refcount;
    pages[index] = Page { refcount: rc, usage: PageUsage::Available };
}

/// One entry of the loader's physical memory map, as plain values: the byte
/// range `[begin, end)` and whether it is usable RAM.
#[derive(Clone, Copy, PartialEq, Eq, Structural, Debug)]
pub struct MemoryRegion {
    pub begin: u64,
    pub end: u64,
    pub usable: bool,
}

/// A page may join the frame pool only above the kernel image.
pub fn is_usable(page: u64, kernel_end: u64) -> (r: bool)
    ensures
        r == (page > kernel_end),
{
    page > kernel_end
}

/// First page-aligned address at or above `x`.
pub open spec fn spec_align_up(x: u64) -> u64 {
    ((x + 0xFFF) as u64) & 0xFFFF_FFFF_FFFF_F000u64
}

/// Last page-aligned address at or below `x`.
pub open spec fn spec_align_down(x: u64) -> u64 {
    x & 0xFFFF_FFFF_FFFF_F000u64
}

/// Pages a region contributes to the walk: the aligned pages of a usable,
/// non-empty region, in address order; nothing otherwise.
pub open spec fn region_pages(r: MemoryRegion) -> Seq<u64> {
    let astart = spec_align_up(r.begin);
    let aend = spec_align_down(r.end);
    if r.usable && aend > astart {
        Seq::new(((aend - astart) / 0x1000) as nat, |k: int| (astart + k * 0x1000) as u64)
    } else {
        Seq::empty()
    }
}

/// All pages the first `n` regions contribute, in walk order.
pub open spec fn walk_pages(regions: Seq<MemoryRegion>, n: int) -> Seq<u64>
    decreases n,
{
    if n <= 0 {
        Seq::empty()
    } else {
        walk_pages(regions, n - 1) + region_pages(regions[n - 1])
    }
}

/// Pages collected into the current run after walking the first `i` pages:
/// an unusable page (at or below the kernel image) resets the run.
pub open spec fn scan_count(pages: Seq<u64>, kernel_end: u64, i: int) -> int
    decreases i,
{
    if i <= 0 {
        0
    } else if pages[i - 1] <= kernel_end {
        0
    } else {
        scan_count(pages, kernel_end, i - 1) + 1
    }
}

/// Base address of the current run after walking the first `i` pages; zero
/// outside a run.
pub open spec fn scan_base(pages: Seq<u64>, kernel_end: u64, i: int) -> u64
    decreases i,
{
    if i <= 0 {
        0
    } else if pages[i - 1] <= kernel_end {
        0
    } else if scan_base(pages, kernel_end, i - 1) == 0 {
        pages[i - 1]
    } else {
        scan_base(pages, kernel_end, i - 1)
    }
}

/// The walk completes a fit at step `i`: the `i`-th page extends the
/// current run to exactly the requested length.
pub open spec fn spec_fit_found(pages: Seq<u64>, kernel_end: u64, req: int, i: int) -> bool {
    &&& 1 <= i <= pages.len()
    &&& pages[i - 1] > kernel_end
    &&& scan_count(pages, kernel_end, i) == req
}

/// Each step of the region walk appends that region's pages.
proof fn lemma_walk_step(regions: Seq<MemoryRegion>, n: int)
    requires
        0 <= n,
    ensures
        walk_pages(regions, n + 1) == walk_pages(regions, n) + region_pages(regions[n]),
{
}

/// An earlier walk prefix agrees with a later one element-wise.
proof fn lemma_walk_prefix(regions: Seq<MemoryRegion>, n: int, m: int)
    requires
        0 <= n <= m,
    ensures
        walk_pages(regions, n).len() <= walk_pages(regions, m).len(),
        forall|j: int|
            0 <= j < walk_pages(regions, n).len() ==> walk_pages(regions, n)[j]
                == #[trigger] walk_pages(regions, m)[j],
    decreases m,
{
    if n < m {
        lemma_walk_prefix(regions, n, m - 1);
    }
}

/// Find the first run of `req_count` consecutive walked pages that all lie
/// above the kernel image, and return the run's base address.  A page at or
/// below the kernel image interrupts the run; region boundaries do not.
#[verifier::rlimit(100)]
pub fn fit_mm_pages(regions: &Vec<MemoryRegion>, kernel_end: u64, req_count: usize) -> (r: Option<
    u64,
>)
    requires
        req_count >= 1,
        forall|ri: int|
            0 <= ri < regions.len() ==> (#[trigger] regions@[ri].begin) <= u64::MAX - 0xFFF,
    ensures
        ({
            let full = walk_pages(regions@, regions.len() as int);
            match r {
                None => forall|i: int| !spec_fit_found(full, kernel_end, req_count as int, i),
                Some(a) => exists|i: int|
                    {
                        &&& #[trigger] spec_fit_found(full, kernel_end, req_count as int, i)
                        &&& forall|i2: int|
                            i2 < i ==> !spec_fit_found(full, kernel_end, req_count as int, i2)
                        &&& a == scan_base(full, kernel_end, i)
                    },
            }
        }),
{
    let ghost full = walk_pages(regions@, regions.len() as int);
    let mut collected: usize = 0;
    let mut base_addr: u64 = 0;
    let mut ri: usize = 0;
    let ghost mut done: int = 0;

    while ri < regions.len()
        invariant
            ri <= regions.len(),
            req_count >= 1,
            full == walk_pages(regions@, regions.len() as int),
            forall|ri2: int|
                0 <= ri2 < regions.len() ==> (#[trigger] regions@[ri2].begin) <= u64::MAX - 0xFFF,
            done == walk_pages(regions@, ri as int).len(),
            done <= full.len(),
            forall|j: int| 0 <= j < done ==> walk_pages(regions@, ri as int)[j] == #[trigger] full[j],
            collected == scan_count(full, kernel_end, done),
            collected < req_count,
            base_addr == scan_base(full, kernel_end, done),
            forall|i: int| i <= done ==> !spec_fit_found(full, kernel_end, req_count as int, i),
        decreases regions.len() - ri,
    {
        let rg = regions[ri];
        let astart = (rg.begin + 0xFFF) & 0xFFFF_FFFF_FFFF_F000u64;
        let aend = rg.end & 0xFFFF_FFFF_FFFF_F000u64;
        let ghost rpages = region_pages(rg);
        proof {
            lemma_walk_step(regions@, ri as int);
            lemma_walk_prefix(regions@, ri as int + 1, regions.len() as int);
        }

        if rg.usable && aend > astart {
            proof {
                let b = rg.begin;
                let e = rg.end;
                assert(((b + 0xFFF) as u64 & 0xFFFF_FFFF_FFFF_F000u64) % 0x1000 == 0
                    && (e & 0xFFFF_FFFF_FFFF_F000u64) % 0x1000 == 0) by (bit_vector);
                assert(astart % 0x1000 == 0 && aend % 0x1000 == 0);
                assert((aend - astart) % 0x1000 == 0) by {
                    let d = (aend - astart) as int;
                    vstd::arithmetic::div_mod::lemma_sub_mod_noop(
                        aend as int,
                        astart as int,
                        0x1000,
                    );
                }
                assert(rpages.len() == ((aend - astart) / 0x1000) as nat);
                vstd::arithmetic::div_mod::lemma_fundamental_div_mod((aend - astart) as int, 0x1000);
                assert(rpages.len() * 0x1000 == aend - astart);
            }
            let mut page = astart;
            let ghost mut k: int = 0;
            while page < aend
                invariant
                    req_count >= 1,
                    astart == spec_align_up(rg.begin),
                    aend == spec_align_down(rg.end),
                    astart % 0x1000 == 0,
                    aend % 0x1000 == 0,
                    0 <= k,
                    page == astart + k * 0x1000,
                    rpages == region_pages(rg),
                    rpages.len() * 0x1000 == aend - astart,
                    rg.usable && aend > astart,
                    k <= rpages.len(),
                    full == walk_pages(regions@, regions.len() as int),
                    done + rpages.len() <= full.len(),
                    forall|j: int|
                        0 <= j < done + rpages.len() ==> walk_pages(regions@, ri as int + 1)[j]
                            == #[trigger] full[j],
                    done == walk_pages(regions@, ri as int).len(),
                    walk_pages(regions@, ri as int + 1) == walk_pages(regions@, ri as int)
                        + rpages,
                    collected == scan_count(full, kernel_end, done + k),
                    collected < req_count,
                    base_addr == scan_base(full, kernel_end, done + k),
                    forall|i: int|
                        i <= done + k ==> !spec_fit_found(full, kernel_end, req_count as int, i),
                decreases aend - page,
            {
                proof {
                    assert(k < rpages.len()) by {
                        if k >= rpages.len() {
                            assert(k * 0x1000 >= rpages.len() * 0x1000) by (nonlinear_arith)
                                requires
                                    k >= rpages.len(),
                            ;
                        }
                    }
                    assert(rpages[k] == (astart + k * 0x1000) as u64);
                    assert(full[done + k] == page) by {
                        assert(walk_pages(regions@, ri as int + 1)[done + k] == rpages[k]);
                    }
                }
                if !is_usable(page, kernel_end) {
                    collected = 0;
                    base_addr = 0;
                } else {
                    if base_addr == 0 {
                        base_addr = page;
                    }
                    collected = collected + 1;
                    if collected == req_count {
                        proof {
                            let i = done + k + 1;
                            assert(spec_fit_found(full, kernel_end, req_count as int, i));
                            assert(base_addr == scan_base(full, kernel_end, i));
                        }
                        return Some(base_addr);
                    }
                }
                proof {
                    assert(page + 0x1000 <= aend) by {
                        assert((k + 1) * 0x1000 <= rpages.len() * 0x1000) by (nonlinear_arith)
                            requires
                                k + 1 <= rpages.len(),
                        ;
                    }
                }
                page = page + 0x1000;
                proof {
                    k = k + 1;
                }
            }
            proof {
                assert(k == rpages.len()) by {
                    if k < rpages.len() {
                        assert(k * 0x1000 < rpages.len() * 0x1000) by (nonlinear_arith)
                            requires
                                k < rpages.len(),
                        ;
                    }
                }
                done = done + rpages.len() as int;
            }
        } else {
            proof {
                assert(rpages.len() == 0);
            }
        }
        ri = ri + 1;
    }
    proof {
        assert(done == full.len());
    }
    None
}

} // verus!
