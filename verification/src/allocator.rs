//! Volatile allocators of page numbers and inode numbers.
//!
//! The allocators only hand out and take back numbers; the persistent
//! state of the pages and inodes is changed elsewhere.
use crate::defs::{Error, PageNum, InodeNum, NUM_INODES};
use crate::sorted::SortedMap;
use vstd::prelude::*;

verus! {

/// The allocator's merge reaches the `i`th allocated number: every earlier
/// number left room for a later page below `end`.
pub open spec fn merge_reaches(alloc: Seq<u64>, start: u64, end: u64, i: int) -> bool {
    &&& start < end
    &&& forall|j: int| 0 <= j < i ==> #[trigger] alloc[j] + 1 < end
}

/// The smallest number the `i`th allocated number may be.
pub open spec fn merge_bound(alloc: Seq<u64>, start: u64, i: int) -> int {
    if i == 0 {
        start as int
    } else {
        alloc[i - 1] + 1
    }
}

/// The list of allocated numbers is increasing wherever the merge reads it.
pub open spec fn alloc_vec_ok(alloc: Seq<u64>, start: u64, end: u64) -> bool {
    forall|i: int|
        0 <= i < alloc.len() && #[trigger] merge_reaches(alloc, start, end, i) ==> merge_bound(
            alloc,
            start,
            i,
        ) <= alloc[i]
}

/// The numbers in `[start, end)` that the merge does not find allocated.
pub open spec fn free_from_alloc_vec(alloc: Seq<u64>, start: u64, end: u64) -> Set<u64> {
    Set::new(
        |p: u64|
            start <= p < end && forall|j: int|
                0 <= j < alloc.len() && merge_reaches(alloc, start, end, j) ==> #[trigger] alloc[j]
                    != p,
    )
}

/// The free numbers in `[start, end)` given the allocated numbers in
/// increasing order.  Numbers at or past `end` are ignored; an allocated
/// list that is not increasing where it is read is refused.
#[verifier::rlimit(100)]
#[verifier::spinoff_prover]
pub fn free_set_from_alloc_vec(alloc: &Vec<u64>, start: u64, end: u64) -> (r: Result<
    SortedMap<u64, ()>,
    Error,
>)
    ensures
        (match r {
            Ok(m) => m.wf() && alloc_vec_ok(alloc@, start, end) && m.view().dom()
                == free_from_alloc_vec(alloc@, start, end),
            Err(e) => e == Error::EINVAL && !alloc_vec_ok(alloc@, start, end),
        }),
{
    let ghost a = alloc@;
    let mut m: SortedMap<u64, ()> = SortedMap::new();
    let mut cur: u64 = start;
    let mut i: usize = 0;
    while cur < end && i < alloc.len()
        invariant
            a == alloc@,
            m.wf(),
            i <= a.len(),
            forall|j: int| 0 <= j < i ==> #[trigger] merge_reaches(a, start, end, j),
            forall|j: int| 0 <= j < i ==> merge_bound(a, start, j) <= #[trigger] a[j],
            cur == merge_bound(a, start, i as int) || (i < a.len() && merge_bound(
                a,
                start,
                i as int,
            ) < cur <= a[i as int]),
            start <= cur,
            cur <= end || cur == start,
            forall|j: int| 0 <= j < i ==> #[trigger] a[j] < cur,
            forall|p: u64|
                #[trigger] m.view().dom().contains(p) <==> (start <= p < cur && forall|j: int|
                    0 <= j < i ==> a[j] != p),
        decreases end - cur, a.len() - i,
    {
        let ai = alloc[i];
        if cur < ai {
            m.insert(cur, ());
            proof {
                assert forall|p: u64| #[trigger]
                    m.view().dom().contains(p) <==> (start <= p < cur + 1 && forall|j: int|
                        0 <= j < i ==> a[j] != p) by {
                    if p == cur {
                        assert forall|j: int| 0 <= j < i implies a[j] != p by {
                            assert(a[j] < cur);
                        }
                    }
                }
            }
            cur = cur + 1;
        } else if cur == ai {
            proof {
                if i > 0 {
                    assert(merge_reaches(a, start, end, i - 1));
                }
                assert(merge_reaches(a, start, end, i as int));
                assert forall|p: u64| #[trigger]
                    m.view().dom().contains(p) <==> (start <= p < cur + 1 && forall|j: int|
                        0 <= j < i + 1 ==> a[j] != p) by {
                    if p == cur {
                        assert(a[i as int] == p);
                    }
                }
            }
            cur = cur + 1;
            i = i + 1;
        } else {
            proof {
                assert(cur == merge_bound(a, start, i as int));
                if i > 0 {
                    assert(merge_reaches(a, start, end, i - 1));
                }
                assert(merge_reaches(a, start, end, i as int));
            }
            return Err(Error::EINVAL);
        }
    }
    proof {
        // every allocated number the merge reaches is in order
        assert forall|k: int|
            0 <= k < a.len() && #[trigger] merge_reaches(a, start, end, k) implies merge_bound(
            a,
            start,
            k,
        ) <= a[k] by {
            if k > i {
                assert(merge_reaches(a, start, end, k));
                assert(a[i as int] + 1 < end);
                assert(cur <= a[i as int] || cur == merge_bound(a, start, i as int));
                assert(merge_reaches(a, start, end, i as int));
            }
        }
    }
    while cur < end
        invariant
            a == alloc@,
            m.wf(),
            start <= cur,
            cur <= end || cur == start,
            forall|j: int| 0 <= j < i ==> #[trigger] a[j] < cur,
            forall|p: u64|
                #[trigger] m.view().dom().contains(p) <==> (start <= p < cur && forall|j: int|
                    0 <= j < i ==> a[j] != p),
        decreases end - cur,
    {
        m.insert(cur, ());
        proof {
            assert forall|p: u64| #[trigger]
                m.view().dom().contains(p) <==> (start <= p < cur + 1 && forall|j: int|
                    0 <= j < i ==> a[j] != p) by {
                if p == cur {
                    assert forall|j: int| 0 <= j < i implies a[j] != p by {
                        assert(a[j] < cur);
                    }
                }
            }
        }
        cur = cur + 1;
    }
    proof {
        assert forall|p: u64| #[trigger]
            m.view().dom().contains(p) <==> free_from_alloc_vec(a, start, end).contains(p) by {
            if m.view().dom().contains(p) {
                assert forall|j: int|
                    0 <= j < a.len() && merge_reaches(a, start, end, j) implies #[trigger] a[j]
                    != p by {
                    if j >= i {
                        // the merge stopped at or before this number
                        if j > i {
                            assert(a[i as int] + 1 < end);
                        }
                    }
                }
            }
        }
        assert(m.view().dom() =~= free_from_alloc_vec(a, start, end));
    }
    Ok(m)
}

/// The numbers in `[lo, hi)` as a set.
pub open spec fn range_set(lo: int, hi: int) -> Set<u64> {
    Set::new(|p: u64| lo <= p < hi)
}

/// Fills a set with the numbers in `[lo, hi)`.
fn range_map(lo: u64, hi: u64) -> (r: SortedMap<u64, ()>)
    ensures
        r.wf(),
        r.view().dom() == range_set(lo as int, hi as int),
{
    let mut m: SortedMap<u64, ()> = SortedMap::new();
    let mut cur = lo;
    while cur < hi
        invariant
            m.wf(),
            lo <= cur,
            cur <= hi || cur == lo,
            m.view().dom() == range_set(lo as int, cur as int),
        decreases hi - cur,
    {
        m.insert(cur, ());
        cur = cur + 1;
        proof {
            assert(m.view().dom() =~= range_set(lo as int, cur as int));
        }
    }
    proof {
        assert(m.view().dom() =~= range_set(lo as int, hi as int));
    }
    m
}

/// A page allocator holding one ordered set of free pages.  It hands out
/// the smallest free page.
pub struct RBPageAllocator {
    map: SortedMap<PageNum, ()>,
}

impl RBPageAllocator {
    pub closed spec fn wf(&self) -> bool {
        self.map.wf()
    }

    /// The free pages.
    pub closed spec fn free_pages(&self) -> Set<PageNum> {
        self.map.view().dom()
    }

    /// An allocator whose free pages are `[val, dev_pages)`.
    pub fn new_from_range(val: u64, dev_pages: u64, _cpus: u32) -> (r: Result<Self, Error>)
        ensures
            r is Ok,
            r matches Ok(a) && a.wf() && a.free_pages() == range_set(val as int, dev_pages as int),
    {
        Ok(RBPageAllocator { map: range_map(val, dev_pages) })
    }

    /// An allocator whose free pages are those of `[start, dev_pages)` that
    /// `alloc_pages`, in increasing order, does not list.
    pub fn new_from_alloc_vec(alloc_pages: Vec<PageNum>, start: u64, dev_pages: u64, _cpus: u32) -> (r:
        Result<Self, Error>)
        ensures
            (match r {
                Ok(a) => a.wf() && alloc_vec_ok(alloc_pages@, start, dev_pages) && a.free_pages()
                    == free_from_alloc_vec(alloc_pages@, start, dev_pages),
                Err(e) => e == Error::EINVAL && !alloc_vec_ok(alloc_pages@, start, dev_pages),
            }),
    {
        let map = free_set_from_alloc_vec(&alloc_pages, start, dev_pages)?;
        Ok(RBPageAllocator { map })
    }

    /// Hands out the smallest free page.
    pub fn alloc_page(&mut self) -> (r: Result<PageNum, Error>)
        requires
            old(self).wf(),
        ensures
            final(self).wf(),
            (match r {
                Ok(p) => old(self).free_pages().contains(p) && (forall|q: PageNum| #[trigger]
                    old(self).free_pages().contains(q) ==> p <= q) && final(self).free_pages()
                    == old(self).free_pages().remove(p),
                Err(e) => e == Error::ENOSPC && old(self).free_pages().is_empty() && final(self).free_pages() == old(self).free_pages(),
            }),
    {
        match self.map.first_key() {
            None => Err(Error::ENOSPC),
            Some(page) => {
                self.map.remove(&page);
                proof {
                    assert(final(self).free_pages() =~= old(self).free_pages().remove(page));
                }
                Ok(page)
            },
        }
    }

    /// Takes back page `page_no`; a page that is already free is refused.
    pub fn dealloc_page(&mut self, page_no: PageNum) -> (r: Result<(), Error>)
        requires
            old(self).wf(),
        ensures
            final(self).wf(),
            final(self).free_pages() == old(self).free_pages().insert(page_no),
            r is Ok <==> !old(self).free_pages().contains(page_no),
            r is Err ==> r == Err::<(), Error>(Error::EINVAL),
    {
        let res = self.map.insert(page_no, ());
        proof {
            assert(final(self).free_pages() =~= old(self).free_pages().insert(page_no));
        }
        if res.is_some() {
            Err(Error::EINVAL)
        } else {
            Ok(())
        }
    }
}

/// One CPU's pool of free pages.
pub struct PageFreeList {
    /// Number of free pages in this pool.
    pub free_pages: u64,
    pub list: SortedMap<PageNum, ()>,
}

impl PageFreeList {
    pub open spec fn wf(&self) -> bool {
        &&& self.list.wf()
        &&& self.free_pages == self.list.view().len()
    }

    pub open spec fn pages(&self) -> Set<PageNum> {
        self.list.view().dom()
    }
}

/// A page allocator with one pool of free pages per CPU.  Pool `k` holds
/// the pages of `[start + k * pages_per_cpu, start + (k + 1) * pages_per_cpu)`,
/// and the last pool also those past the last such block; a CPU whose pool
/// is empty takes from the fullest other pool.
pub struct PerCpuPageAllocator {
    free_lists: Vec<PageFreeList>,
    pages_per_cpu: u64,
    cpus: u32,
    start: u64,
}

/// The block of `per_cpu` pages past `start` a page falls in.
pub open spec fn pool_of(page: u64, start: u64, per_cpu: u64) -> int {
    (page - start) / (per_cpu as int)
}

/// The pool a page belongs to among `n` pools: the block it falls in, or
/// the last pool for a page past the last block (every page, when blocks
/// are empty).
pub open spec fn pool_index(page: u64, start: u64, per_cpu: u64, n: nat) -> int {
    if per_cpu == 0 {
        n - 1
    } else if pool_of(page, start, per_cpu) < n {
        pool_of(page, start, per_cpu)
    } else {
        n - 1
    }
}

impl PerCpuPageAllocator {
    pub closed spec fn wf(&self) -> bool {
        &&& self.cpus > 0
        &&& self.free_lists@.len() > 0
        &&& forall|k: int| 0 <= k < self.free_lists@.len() ==> (#[trigger] self.free_lists@[k]).wf()
        &&& forall|k: int, p: u64|
            0 <= k < self.free_lists@.len() && #[trigger] self.free_lists@[k].pages().contains(p)
                ==> self.start <= p && pool_index(p, self.start, self.pages_per_cpu, self.free_lists@.len()) == k
        &&& forall|k1: int, k2: int, p: u64|
            0 <= k1 < self.free_lists@.len() && 0 <= k2 < self.free_lists@.len() && k1 != k2
                && #[trigger] self.free_lists@[k1].pages().contains(p) ==> !(#[trigger] self.free_lists@[k2].pages().contains(p))
    }

    /// Number of pools.
    pub closed spec fn num_pools(&self) -> nat {
        self.free_lists@.len()
    }

    /// The free pages of pool `k`.
    pub closed spec fn pool(&self, k: int) -> Set<PageNum> {
        self.free_lists@[k].pages()
    }

    pub closed spec fn spec_pages_per_cpu(&self) -> u64 {
        self.pages_per_cpu
    }

    pub closed spec fn spec_cpus(&self) -> u32 {
        self.cpus
    }

    pub closed spec fn spec_start(&self) -> u64 {
        self.start
    }

    /// A page in pool `k` lies past the start, in the block of pool `k`.
    pub proof fn lemma_pool_index(&self, k: int, p: u64)
        requires
            self.wf(),
            0 <= k < self.num_pools(),
            self.pool(k).contains(p),
        ensures
            self.spec_start() <= p,
            pool_index(p, self.spec_start(), self.spec_pages_per_cpu(), self.num_pools()) == k,
    {
        assert(self.free_lists@[k].pages().contains(p));
    }

    /// All free pages.
    pub open spec fn free_pages(&self) -> Set<PageNum> {
        Set::new(|p: PageNum| exists|k: int| 0 <= k < self.num_pools() && #[trigger] self.pool(k).contains(p))
    }

    /// Splits `[val, dev_pages)` into `cpus` pools of `(dev_pages - val) / cpus`
    /// pages each, in order.  Pages past the last full pool are not handed out.
    pub fn new_from_range(val: u64, dev_pages: u64, cpus: u32) -> (r: Result<Self, Error>)
        requires
            val <= dev_pages,
            cpus > 0,
        ensures
            r is Ok,
            r matches Ok(a) && {
                let ppc = ((dev_pages - val) / (cpus as int)) as u64;
                &&& a.wf()
                &&& a.spec_pages_per_cpu() == ppc
                &&& a.spec_cpus() == cpus
                &&& a.spec_start() == val
                &&& a.num_pools() == cpus
                &&& forall|k: int| 0 <= k < a.num_pools() ==> #[trigger] a.pool(k) == range_set(
                    val + k * ppc,
                    val + (k + 1) * ppc,
                )
            },
    {
        let total_pages = dev_pages - val;
        let cpus_u64: u64 = cpus as u64;
        let pages_per_cpu = total_pages / cpus_u64;
        let ghost ppc = pages_per_cpu as int;
        proof {
            assert(pages_per_cpu * cpus_u64 <= total_pages) by (nonlinear_arith)
                requires
                    pages_per_cpu == total_pages / cpus_u64,
                    cpus_u64 > 0,
            ;
        }
        let num_lists: u32 = cpus;
        let mut current_page = val;
        let mut free_lists: Vec<PageFreeList> = Vec::new();
        let mut c: u32 = 0;
        while c < num_lists
            invariant
                val <= dev_pages,
                cpus > 0,
                num_lists <= cpus,
                num_lists == cpus,
                pages_per_cpu == (dev_pages - val) / (cpus as int),
                pages_per_cpu * cpus <= dev_pages - val,
                c <= num_lists,
                free_lists@.len() == c,
                current_page == val + c * ppc,
                ppc == pages_per_cpu,
                forall|k: int| 0 <= k < c ==> (#[trigger] free_lists@[k]).wf(),
                forall|k: int| 0 <= k < c ==> #[trigger] free_lists@[k].pages() == range_set(
                    val + k * ppc,
                    val + (k + 1) * ppc,
                ),
            decreases num_lists - c,
        {
            proof {
                assert(c * ppc + ppc <= cpus * ppc) by (nonlinear_arith)
                    requires
                        c < cpus,
                        ppc >= 0,
                ;
                assert((c + 1) * ppc == c * ppc + ppc) by (nonlinear_arith);
                assert(ppc * cpus == cpus * ppc) by (nonlinear_arith);
            }
            let upper = current_page + pages_per_cpu;
            let list = range_map(current_page, upper);
            proof {
                list.lemma_wf();
                lemma_range_set_len(current_page as int, upper as int);
            }
            current_page = upper;
            let free_list = PageFreeList { free_pages: pages_per_cpu, list };
            free_lists.push(free_list);
            c = c + 1;
        }
        let a = PerCpuPageAllocator { free_lists, pages_per_cpu, cpus, start: val };
        proof {
            assert forall|k: int, p: u64|
                0 <= k < a.free_lists@.len() && #[trigger] a.free_lists@[k].pages().contains(p)
                    implies val <= p && pool_index(p, val, pages_per_cpu, a.free_lists@.len()) == k by {
                assert(val + k * ppc <= p < val + (k + 1) * ppc);
                assert(k * ppc >= 0) by (nonlinear_arith)
                    requires
                        k >= 0,
                        ppc >= 0,
                ;
                if ppc > 0 {
                    lemma_div_in_block(p - val, k, ppc);
                } else {
                    assert((k + 1) * ppc == 0) by (nonlinear_arith)
                        requires
                            ppc == 0,
                    ;
                }
            }
            assert forall|k1: int, k2: int, p: u64|
                0 <= k1 < a.free_lists@.len() && 0 <= k2 < a.free_lists@.len() && k1 != k2
                    && #[trigger] a.free_lists@[k1].pages().contains(p) implies !(
                #[trigger] a.free_lists@[k2].pages().contains(p)) by {
                if a.free_lists@[k2].pages().contains(p) {
                    assert(val + k1 * ppc <= p < val + (k1 + 1) * ppc);
                    assert(val + k2 * ppc <= p < val + (k2 + 1) * ppc);
                    lemma_blocks_disjoint(k1, k2, ppc);
                }
            }
        }
        Ok(a)
    }

    /// The last page past which pool `k` of a rebuilt allocator of `cpus`
    /// pools ends: the end of block `k`, or the end of the device for the
    /// last pool.
    pub open spec fn rebuilt_end(start: u64, dev_pages: u64, ppc: u64, cpus: u32, k: int) -> int {
        if k == cpus - 1 {
            dev_pages as int
        } else {
            start + (k + 1) * ppc
        }
    }

    /// The free pages a rebuilt allocator of `cpus` pools keeps in pool `k`:
    /// those of block `k`, and in the last pool also those past the last
    /// block.
    pub open spec fn rebuilt_pool(free: Set<u64>, start: u64, dev_pages: u64, ppc: u64, cpus: u32, k: int) -> Set<u64> {
        free.intersect(range_set(start + k * ppc, Self::rebuilt_end(start, dev_pages, ppc, cpus, k)))
    }

    /// Rebuilds the allocator from the allocated pages, in increasing order:
    /// one pool per CPU, each free page of `[start, dev_pages)` going to the
    /// pool of the block its number falls in, or to the last pool when it
    /// lies past the last block.
    pub fn new_from_alloc_vec(alloc_pages: Vec<PageNum>, start: u64, dev_pages: u64, cpus: u32) -> (r:
        Result<Self, Error>)
        requires
            start <= dev_pages,
            cpus > 0,
        ensures
            (match r {
                Ok(a) => {
                    let ppc = ((dev_pages - start) / (cpus as int)) as u64;
                    let free = free_from_alloc_vec(alloc_pages@, start, dev_pages);
                    &&& alloc_vec_ok(alloc_pages@, start, dev_pages)
                    &&& a.wf()
                    &&& a.spec_pages_per_cpu() == ppc
                    &&& a.spec_cpus() == cpus
                    &&& a.spec_start() == start
                    &&& a.num_pools() == cpus
                    &&& forall|k: int|
                        0 <= k < a.num_pools() ==> #[trigger] a.pool(k) == Self::rebuilt_pool(
                            free,
                            start,
                            dev_pages,
                            ppc,
                            cpus,
                            k,
                        )
                    &&& a.free_pages() == free
                },
                Err(e) => e == Error::EINVAL && !alloc_vec_ok(alloc_pages@, start, dev_pages),
            }),
    {
        let total_pages = dev_pages - start;
        let cpus_u64: u64 = cpus as u64;
        let pages_per_cpu = total_pages / cpus_u64;
        let ghost ppc = pages_per_cpu;
        let free = free_set_from_alloc_vec(&alloc_pages, start, dev_pages)?;
        let ghost fr = free.view().dom();
        proof {
            assert(pages_per_cpu * cpus_u64 <= total_pages) by (nonlinear_arith)
                requires
                    pages_per_cpu == total_pages / cpus_u64,
                    cpus_u64 > 0,
            ;
        }
        let mut free_lists: Vec<PageFreeList> = Vec::new();
        let mut k: u32 = 0;
        while k < cpus
            invariant
                free.wf(),
                fr == free.view().dom(),
                fr == free_from_alloc_vec(alloc_pages@, start, dev_pages),
                ppc == pages_per_cpu,
                pages_per_cpu * cpus <= dev_pages - start,
                start <= dev_pages,
                cpus > 0,
                k <= cpus,
                free_lists@.len() == k,
                forall|j: int| 0 <= j < k ==> (#[trigger] free_lists@[j]).wf(),
                forall|j: int|
                    0 <= j < k ==> #[trigger] free_lists@[j].pages() == Self::rebuilt_pool(
                        fr,
                        start,
                        dev_pages,
                        ppc,
                        cpus,
                        j,
                    ),
            decreases cpus - k,
        {
            proof {
                assert(k * ppc + ppc <= cpus * ppc) by (nonlinear_arith)
                    requires
                        k < cpus,
                        ppc >= 0,
                ;
                assert((k + 1) * ppc == k * ppc + ppc) by (nonlinear_arith);
                assert(ppc * cpus == cpus * ppc) by (nonlinear_arith);
            }
            let lo = start + k as u64 * pages_per_cpu;
            let hi = if k == cpus - 1 { dev_pages } else { lo + pages_per_cpu };
            let list = Self::collect_free(&free, lo, hi);
            proof {
                list.lemma_wf();
            }
            let n = list.len();
            free_lists.push(PageFreeList { free_pages: n as u64, list });
            k = k + 1;
        }
        let a = PerCpuPageAllocator { free_lists, pages_per_cpu, cpus, start };
        proof {
            assert forall|k: int, p: u64|
                0 <= k < a.free_lists@.len() && #[trigger] a.free_lists@[k].pages().contains(p)
                    implies start <= p && pool_index(p, start, pages_per_cpu, a.free_lists@.len()) == k by {
                assert(fr.contains(p));
                assert(start + k * ppc <= p);
                assert(k * ppc >= 0) by (nonlinear_arith)
                    requires
                        k >= 0,
                        ppc >= 0,
                ;
                if ppc > 0 {
                    if k < cpus - 1 {
                        lemma_div_in_block(p - start, k, ppc as int);
                    } else {
                        lemma_div_at_least(p - start, k, ppc as int);
                    }
                }
            }
            assert forall|k1: int, k2: int, p: u64|
                0 <= k1 < a.free_lists@.len() && 0 <= k2 < a.free_lists@.len() && k1 != k2
                    && #[trigger] a.free_lists@[k1].pages().contains(p) implies !(
                #[trigger] a.free_lists@[k2].pages().contains(p)) by {
                if a.free_lists@[k2].pages().contains(p) {
                    assert(start + k1 * ppc <= p < Self::rebuilt_end(start, dev_pages, ppc, cpus, k1));
                    assert(start + k2 * ppc <= p < Self::rebuilt_end(start, dev_pages, ppc, cpus, k2));
                    lemma_blocks_disjoint(k1, k2, ppc as int);
                }
            }
            assert forall|p: u64| #[trigger] a.free_pages().contains(p) <==> fr.contains(p) by {
                if fr.contains(p) {
                    let last = cpus - 1;
                    if ppc == 0 {
                        assert(last * ppc == 0) by (nonlinear_arith)
                            requires
                                ppc == 0,
                        ;
                        assert(a.pool(last as int).contains(p));
                    } else {
                        let q = (p - start) / (ppc as int);
                        lemma_pool_index_bound(start, dev_pages, ppc, p);
                        if q < last {
                            assert(a.pool(q).contains(p));
                        } else {
                            assert(last * ppc <= q * ppc) by (nonlinear_arith)
                                requires
                                    last <= q,
                                    ppc >= 0,
                            ;
                            assert(a.pool(last as int).contains(p));
                        }
                    }
                }
            }
            assert(a.free_pages() =~= fr);
        }
        Ok(a)
    }

    /// The pages of `free` in `[lo, hi)`.
    fn collect_free(free: &SortedMap<u64, ()>, lo: u64, hi: u64) -> (r: SortedMap<u64, ()>)
        requires
            free.wf(),
        ensures
            r.wf(),
            r.view().dom() == free.view().dom().intersect(range_set(lo as int, hi as int)),
    {
        let mut m: SortedMap<u64, ()> = SortedMap::new();
        let mut cur = lo;
        while cur < hi
            invariant
                free.wf(),
                m.wf(),
                lo <= cur,
                cur <= hi || cur == lo,
                m.view().dom() == free.view().dom().intersect(range_set(lo as int, cur as int)),
            decreases hi - cur,
        {
            if free.contains_key(&cur) {
                m.insert(cur, ());
            }
            cur = cur + 1;
            proof {
                assert(m.view().dom() =~= free.view().dom().intersect(
                    range_set(lo as int, cur as int),
                ));
            }
        }
        proof {
            assert(m.view().dom() =~= free.view().dom().intersect(range_set(lo as int, hi as int)));
        }
        m
    }

    /// The pool CPU `cpu` takes from when its own pool is empty: the first
    /// of the fullest non-empty other pools among the first `cpus`.
    pub open spec fn is_fullest_other(&self, cpu: int, c: int) -> bool {
        &&& 0 <= c < self.spec_cpus()
        &&& c != cpu
        &&& self.pool(c).len() > 0
        &&& forall|j: int|
            0 <= j < self.spec_cpus() && j != cpu ==> #[trigger] self.pool(j).len() <= self.pool(
                c,
            ).len()
        &&& forall|j: int| 0 <= j < c && j != cpu ==> #[trigger] self.pool(j).len() < self.pool(c).len()
    }

    /// Hands out a page for CPU `cpu`: the smallest page of its own pool, or
    /// when that pool is empty, the smallest page of the fullest other pool.
    pub fn alloc_page(&mut self, cpu: u32) -> (r: Result<PageNum, Error>)
        requires
            old(self).wf(),
            cpu < old(self).num_pools(),
            old(self).pool(cpu as int).len() == 0 ==> old(self).spec_cpus() <= old(self).num_pools(),
        ensures
            final(self).wf(),
            final(self).num_pools() == old(self).num_pools(),
            final(self).spec_pages_per_cpu() == old(self).spec_pages_per_cpu(),
            final(self).spec_cpus() == old(self).spec_cpus(),
            final(self).spec_start() == old(self).spec_start(),
            (match r {
                Ok(p) => exists|c: int|
                    {
                        &&& (if old(self).pool(cpu as int).len() > 0 {
                            c == cpu
                        } else {
                            old(self).is_fullest_other(cpu as int, c)
                        })
                        &&& old(self).pool(c).contains(p)
                        &&& (forall|q: u64| #[trigger] old(self).pool(c).contains(q) ==> p <= q)
                        &&& forall|k: int|
                            0 <= k < old(self).num_pools() ==> #[trigger] final(self).pool(k) == (
                            if k == c {
                                old(self).pool(k).remove(p)
                            } else {
                                old(self).pool(k)
                            })
                    } && old(self).free_pages().contains(p) && final(self).free_pages() == old(
                    self,
                ).free_pages().remove(p),
                Err(e) => e == Error::ENOSPC && *final(self) == *old(self) && old(self).pool(
                    cpu as int,
                ).len() == 0 && forall|k: int|
                    0 <= k < old(self).spec_cpus() ==> #[trigger] old(self).pool(k).len() == 0,
            }),
    {
        let cpu_usize = cpu as usize;
        if self.free_lists[cpu_usize].free_pages > 0 {
            let page = self.take_from(cpu_usize);
            Ok(page)
        } else {
            let mut num_free_pages: u64 = 0;
            let mut cpuid: usize = 0;
            let mut i: u32 = 0;
            while i < self.cpus
                invariant
                    self.wf(),
                    self == old(self),
                    cpu < self.num_pools(),
                    self.cpus <= self.num_pools(),
                    i <= self.cpus,
                    cpuid < self.num_pools(),
                    num_free_pages == 0 ==> cpuid == 0,
                    num_free_pages > 0 ==> {
                        &&& cpuid < i
                        &&& cpuid != cpu
                        &&& num_free_pages == self.pool(cpuid as int).len()
                        &&& forall|j: int| 0 <= j < cpuid && j != cpu ==> #[trigger] self.pool(
                            j,
                        ).len() < num_free_pages
                    },
                    forall|j: int| 0 <= j < i && j != cpu ==> #[trigger] self.pool(j).len()
                        <= num_free_pages,
                decreases self.cpus - i,
            {
                if i != cpu {
                    let n = self.free_lists[i as usize].free_pages;
                    if n > num_free_pages {
                        num_free_pages = n;
                        cpuid = i as usize;
                    }
                }
                i = i + 1;
            }
            if self.free_lists[cpuid].free_pages == 0 {
                proof {
                    assert forall|k: int| 0 <= k < old(self).spec_cpus() implies #[trigger] old(
                        self,
                    ).pool(k).len() == 0 by {
                        if k != cpu {
                            assert(self.pool(k).len() <= num_free_pages);
                        }
                    }
                }
                Err(Error::ENOSPC)
            } else {
                proof {
                    if num_free_pages == 0 {
                        if cpu != 0 {
                            assert(self.pool(0).len() <= num_free_pages);
                        }
                    }
                    assert(old(self).is_fullest_other(cpu as int, cpuid as int));
                }
                let page = self.take_from(cpuid);
                Ok(page)
            }
        }
    }

    /// Removes and returns the smallest page of pool `c`, which is not empty.
    fn take_from(&mut self, c: usize) -> (page: PageNum)
        requires
            old(self).wf(),
            c < old(self).num_pools(),
            old(self).pool(c as int).len() > 0,
        ensures
            final(self).wf(),
            final(self).num_pools() == old(self).num_pools(),
            final(self).pages_per_cpu == old(self).pages_per_cpu,
            final(self).cpus == old(self).cpus,
            final(self).start == old(self).start,
            old(self).pool(c as int).contains(page),
            forall|q: u64| #[trigger] old(self).pool(c as int).contains(q) ==> page <= q,
            forall|k: int|
                0 <= k < old(self).num_pools() ==> #[trigger] final(self).pool(k) == (if k == c {
                    old(self).pool(k).remove(page)
                } else {
                    old(self).pool(k)
                }),
            old(self).free_pages().contains(page),
            final(self).free_pages() == old(self).free_pages().remove(page),
    {
        let mut fl = self.free_lists.remove(c);
        proof {
            fl.list.lemma_wf();
            if fl.list.view().dom().is_empty() {
                assert(fl.list.view().len() == 0);
            }
        }
        let first = fl.list.first_key();
        let page = match first {
            Some(p) => p,
            None => {
                proof {
                    assert(fl.list.view().dom() =~= Set::<u64>::empty());
                }
                0
            },
        };
        fl.list.remove(&page);
        proof {
            fl.list.lemma_wf();
            assert(fl.list.view().dom() =~= old(self).pool(c as int).remove(page));
        }
        fl.free_pages = fl.free_pages - 1;
        self.free_lists.insert(c, fl);
        proof {
            assert forall|k: int|
                0 <= k < old(self).num_pools() implies #[trigger] self.pool(k) == (if k == c {
                old(self).pool(k).remove(page)
            } else {
                old(self).pool(k)
            }) by {
                if k < c {
                    assert(self.free_lists@[k] == old(self).free_lists@[k]);
                } else if k > c {
                    assert(self.free_lists@[k] == old(self).free_lists@[k]);
                }
            }
            assert forall|k: int| 0 <= k < self.free_lists@.len() implies (
            #[trigger] self.free_lists@[k]).wf() by {
                if k != c {
                    assert(self.free_lists@[k] == old(self).free_lists@[k]);
                }
            }
            assert forall|k: int, p: u64|
                0 <= k < self.free_lists@.len() && #[trigger] self.free_lists@[k].pages().contains(p)
                    implies self.start <= p && pool_index(p, self.start, self.pages_per_cpu, self.free_lists@.len()) == k by {
                assert(self.pool(k).contains(p));
                assert(old(self).pool(k).contains(p));
                assert(old(self).free_lists@[k].pages().contains(p));
            }
            assert forall|k1: int, k2: int, p: u64|
                0 <= k1 < self.free_lists@.len() && 0 <= k2 < self.free_lists@.len() && k1 != k2
                    && #[trigger] self.free_lists@[k1].pages().contains(p) implies !(
                #[trigger] self.free_lists@[k2].pages().contains(p)) by {
                assert(self.pool(k1).contains(p));
                assert(old(self).free_lists@[k1].pages().contains(p));
                if self.pool(k2).contains(p) {
                    assert(old(self).free_lists@[k2].pages().contains(p));
                }
            }
            assert(old(self).free_pages().contains(page)) by {
                assert(old(self).pool(c as int).contains(page));
            }
            assert forall|p: u64| #[trigger] self.free_pages().contains(p) <==> old(
                self,
            ).free_pages().remove(page).contains(p) by {
                if old(self).free_pages().remove(page).contains(p) {
                    let k = choose|k: int|
                        0 <= k < old(self).num_pools() && #[trigger] old(self).pool(k).contains(p);
                    assert(self.pool(k).contains(p));
                }
                if self.free_pages().contains(p) {
                    let k = choose|k: int|
                        0 <= k < self.num_pools() && #[trigger] self.pool(k).contains(p);
                    assert(old(self).pool(k).contains(p));
                    if p == page {
                        assert(old(self).free_lists@[c as int].pages().contains(p));
                        assert(k == c);
                    }
                }
            }
            assert(self.free_pages() =~= old(self).free_pages().remove(page));
        }
        page
    }

    /// Takes back page `page_no` into the pool of the block its number falls
    /// in, or the last pool for a page past the last block; a page already
    /// in that pool is refused.
    pub fn dealloc_page(&mut self, page_no: PageNum) -> (r: Result<(), Error>)
        requires
            old(self).wf(),
            page_no >= old(self).spec_start(),
        ensures
            final(self).wf(),
            final(self).num_pools() == old(self).num_pools(),
            final(self).spec_pages_per_cpu() == old(self).spec_pages_per_cpu(),
            final(self).spec_cpus() == old(self).spec_cpus(),
            final(self).spec_start() == old(self).spec_start(),
            forall|k: int|
                0 <= k < old(self).num_pools() ==> #[trigger] final(self).pool(k) == (if k
                    == pool_index(page_no, old(self).spec_start(), old(self).spec_pages_per_cpu(), old(self).num_pools()) {
                    old(self).pool(k).insert(page_no)
                } else {
                    old(self).pool(k)
                }),
            final(self).free_pages() == old(self).free_pages().insert(page_no),
            r is Ok <==> !old(self).free_pages().contains(page_no),
            r is Err ==> r == Err::<(), Error>(Error::EINVAL),
    {
        let n = self.free_lists.len();
        let cpu: usize = if self.pages_per_cpu == 0 {
            n - 1
        } else {
            let q = (page_no - self.start) / self.pages_per_cpu;
            if q < n as u64 { q as usize } else { n - 1 }
        };
        let ghost c = cpu as int;
        assert(pool_index(page_no, self.start, self.pages_per_cpu, self.free_lists@.len()) == c);
        let mut fl = self.free_lists.remove(cpu);
        proof {
            fl.list.lemma_wf();
        }
        let res = fl.list.insert(page_no, ());
        let inserted = res.is_none();
        if inserted {
            proof {
                fl.list.lemma_wf();
                assert(fl.list.view().dom() =~= old(self).pool(c).insert(page_no));
                assert(!old(self).pool(c).contains(page_no));
                lemma_insert_len(old(self).pool(c), page_no);
            }
            fl.free_pages = fl.list.len() as u64;
        } else {
            proof {
                fl.list.lemma_wf();
                assert(fl.list.view().dom() =~= old(self).pool(c));
            }
        }
        self.free_lists.insert(cpu, fl);
        proof {
            assert forall|k: int|
                0 <= k < old(self).num_pools() implies #[trigger] self.pool(k) == (if k == c {
                old(self).pool(k).insert(page_no)
            } else {
                old(self).pool(k)
            }) by {
                if k < c {
                    assert(self.free_lists@[k] == old(self).free_lists@[k]);
                } else if k > c {
                    assert(self.free_lists@[k] == old(self).free_lists@[k]);
                } else {
                    assert(self.pool(c) =~= old(self).pool(c).insert(page_no));
                }
            }
            assert forall|k: int| 0 <= k < self.free_lists@.len() implies (
            #[trigger] self.free_lists@[k]).wf() by {
                if k != c {
                    assert(self.free_lists@[k] == old(self).free_lists@[k]);
                }
            }
            assert forall|k: int, p: u64|
                0 <= k < self.free_lists@.len() && #[trigger] self.free_lists@[k].pages().contains(p)
                    implies self.start <= p && pool_index(p, self.start, self.pages_per_cpu, self.free_lists@.len()) == k by {
                assert(self.pool(k).contains(p));
                assert(pool_index(page_no, self.start, self.pages_per_cpu, self.free_lists@.len()) == c);
                if !(k == c && p == page_no) {
                    assert(old(self).pool(k).contains(p));
                    assert(old(self).free_lists@[k].pages().contains(p));
                }
            }
            assert forall|k1: int, k2: int, p: u64|
                0 <= k1 < self.free_lists@.len() && 0 <= k2 < self.free_lists@.len() && k1 != k2
                    && #[trigger] self.free_lists@[k1].pages().contains(p) implies !(
                #[trigger] self.free_lists@[k2].pages().contains(p)) by {
                assert(self.pool(k1).contains(p));
                if self.pool(k2).contains(p) {
                    if p == page_no {
                        if k1 != c {
                            assert(old(self).free_lists@[k1].pages().contains(p));
                        } else {
                            assert(old(self).free_lists@[k2].pages().contains(p));
                        }
                    } else {
                        assert(old(self).free_lists@[k1].pages().contains(p));
                        assert(old(self).free_lists@[k2].pages().contains(p));
                    }
                }
            }
            assert(old(self).free_pages().contains(page_no) <==> old(self).pool(c).contains(
                page_no,
            )) by {
                if old(self).free_pages().contains(page_no) {
                    let k = choose|k: int|
                        0 <= k < old(self).num_pools() && #[trigger] old(self).pool(k).contains(
                            page_no,
                        );
                    assert(old(self).free_lists@[k].pages().contains(page_no));
                }
            }
            assert forall|p: u64| #[trigger] self.free_pages().contains(p) <==> old(
                self,
            ).free_pages().insert(page_no).contains(p) by {
                if old(self).free_pages().insert(page_no).contains(p) {
                    if p == page_no {
                        assert(self.pool(c).contains(p));
                    } else {
                        let k = choose|k: int|
                            0 <= k < old(self).num_pools() && #[trigger] old(self).pool(k).contains(p);
                        assert(self.pool(k).contains(p));
                    }
                }
                if self.free_pages().contains(p) {
                    let k = choose|k: int|
                        0 <= k < self.num_pools() && #[trigger] self.pool(k).contains(p);
                    if p != page_no {
                        assert(old(self).pool(k).contains(p));
                    }
                }
            }
            assert(self.free_pages() =~= old(self).free_pages().insert(page_no));
        }
        if inserted {
            Ok(())
        } else {
            Err(Error::EINVAL)
        }
    }
}

/// An inode number allocator holding one ordered set of free numbers.  It
/// hands out the smallest free number.
pub struct RBInodeAllocator {
    map: SortedMap<InodeNum, ()>,
}

impl RBInodeAllocator {
    pub closed spec fn wf(&self) -> bool {
        self.map.wf()
    }

    /// The free inode numbers.
    pub closed spec fn free_inos(&self) -> Set<InodeNum> {
        self.map.view().dom()
    }

    /// An allocator whose free numbers are `[val, NUM_INODES)`.
    pub fn new(val: u64) -> (r: Result<Self, Error>)
        ensures
            r is Ok,
            r matches Ok(a) && a.wf() && a.free_inos() == range_set(val as int, NUM_INODES as int),
    {
        Ok(RBInodeAllocator { map: range_map(val, NUM_INODES) })
    }

    /// An allocator whose free numbers are those of `[start, NUM_INODES)`
    /// that `alloc_inodes`, in increasing order, does not list.
    pub fn new_from_alloc_vec(alloc_inodes: Vec<InodeNum>, start: u64) -> (r: Result<Self, Error>)
        ensures
            (match r {
                Ok(a) => a.wf() && alloc_vec_ok(alloc_inodes@, start, NUM_INODES) && a.free_inos()
                    == free_from_alloc_vec(alloc_inodes@, start, NUM_INODES),
                Err(e) => e == Error::EINVAL && !alloc_vec_ok(alloc_inodes@, start, NUM_INODES),
            }),
    {
        let map = free_set_from_alloc_vec(&alloc_inodes, start, NUM_INODES)?;
        Ok(RBInodeAllocator { map })
    }

    /// Hands out the smallest free inode number.
    pub fn alloc_ino(&mut self) -> (r: Result<InodeNum, Error>)
        requires
            old(self).wf(),
        ensures
            final(self).wf(),
            (match r {
                Ok(i) => old(self).free_inos().contains(i) && (forall|q: InodeNum| #[trigger]
                    old(self).free_inos().contains(q) ==> i <= q) && final(self).free_inos()
                    == old(self).free_inos().remove(i),
                Err(e) => e == Error::ENOSPC && old(self).free_inos().is_empty() && final(self).free_inos()
                    == old(self).free_inos(),
            }),
    {
        match self.map.first_key() {
            None => Err(Error::ENOSPC),
            Some(ino) => {
                self.map.remove(&ino);
                proof {
                    assert(final(self).free_inos() =~= old(self).free_inos().remove(ino));
                }
                Ok(ino)
            },
        }
    }

    /// Takes back inode number `ino`; a number that is already free is refused.
    pub fn dealloc_ino(&mut self, ino: InodeNum) -> (r: Result<(), Error>)
        requires
            old(self).wf(),
        ensures
            final(self).wf(),
            final(self).free_inos() == old(self).free_inos().insert(ino),
            r is Ok <==> !old(self).free_inos().contains(ino),
            r is Err ==> r == Err::<(), Error>(Error::EINVAL),
    {
        let res = self.map.insert(ino, ());
        proof {
            assert(final(self).free_inos() =~= old(self).free_inos().insert(ino));
        }
        if res.is_some() {
            Err(Error::EINVAL)
        } else {
            Ok(())
        }
    }
}

/// Allocates inode numbers from a counter; numbers are never taken back.
pub struct BasicInodeAllocator {
    next_inode: u64,
}

impl BasicInodeAllocator {
    pub closed spec fn next(&self) -> u64 {
        self.next_inode
    }

    pub fn new(val: u64) -> (r: Self)
        ensures
            r.next() == val,
    {
        BasicInodeAllocator { next_inode: val }
    }

    /// Hands out the counter's value and advances it, until it reaches
    /// `NUM_INODES`.
    pub fn alloc_ino(&mut self) -> (r: Result<InodeNum, Error>)
        ensures
            (match r {
                Ok(i) => i == old(self).next() && old(self).next() != NUM_INODES && final(self).next()
                    == (if old(self).next() == u64::MAX { 0 } else { old(self).next() + 1 }),
                Err(e) => e == Error::ENOSPC && old(self).next() == NUM_INODES && final(self).next()
                    == old(self).next(),
            }),
    {
        if self.next_inode == NUM_INODES {
            Err(Error::ENOSPC)
        } else {
            let i = self.next_inode;
            self.next_inode = self.next_inode.wrapping_add(1);
            Ok(i)
        }
    }
}

/// A page in `[start, dev_pages)` lies in its block of `n` pages past
/// `start`, whose index is below the number of such blocks.
pub proof fn lemma_pool_index_bound(start: u64, dev_pages: u64, n: u64, p: u64)
    requires
        start <= p < dev_pages,
        n > 0,
    ensures
        0 <= (p - start) / (n as int) < (dev_pages - 1 - start) / (n as int) + 1,
        start + ((p - start) / (n as int)) * n <= p < start + ((p - start) / (n as int) + 1) * n,
{
    let x = p - start;
    vstd::arithmetic::div_mod::lemma_fundamental_div_mod(x, n as int);
    assert(0 <= x / (n as int)) by (nonlinear_arith)
        requires
            x >= 0,
            n > 0,
    ;
    vstd::arithmetic::div_mod::lemma_div_is_ordered(x, dev_pages - 1 - start, n as int);
    assert((x / (n as int)) * n <= x < (x / (n as int) + 1) * n) by (nonlinear_arith)
        requires
            x == n * (x / (n as int)) + x % (n as int),
            0 <= x % (n as int) < n,
    ;
}

proof fn lemma_insert_len(s: Set<u64>, x: u64)
    requires
        s.finite(),
        !s.contains(x),
    ensures
        s.insert(x).len() == s.len() + 1,
{
}

/// A number in block `k` of blocks of size `n` divides down to `k`.
proof fn lemma_div_in_block(x: int, k: int, n: int)
    requires
        n > 0,
        k >= 0,
        k * n <= x < (k + 1) * n,
    ensures
        x / n == k,
{
    vstd::arithmetic::div_mod::lemma_fundamental_div_mod(x, n);
    assert(x / n == k) by (nonlinear_arith)
        requires
            n > 0,
            k * n <= x < (k + 1) * n,
            x == n * (x / n) + x % n,
            0 <= x % n < n,
    ;
}

/// A number at or past block `k` of blocks of size `n` divides down to at
/// least `k`.
proof fn lemma_div_at_least(x: int, k: int, n: int)
    requires
        n > 0,
        k >= 0,
        k * n <= x,
    ensures
        x / n >= k,
{
    vstd::arithmetic::div_mod::lemma_fundamental_div_mod(x, n);
    assert(x / n >= k) by (nonlinear_arith)
        requires
            n > 0,
            k * n <= x,
            x == n * (x / n) + x % n,
            0 <= x % n < n,
    ;
}

/// Blocks `[k1 * n, (k1 + 1) * n)` and `[k2 * n, (k2 + 1) * n)` are disjoint.
proof fn lemma_blocks_disjoint(k1: int, k2: int, n: int)
    requires
        k1 != k2,
        n >= 0,
    ensures
        k1 < k2 ==> (k1 + 1) * n <= k2 * n,
        k2 < k1 ==> (k2 + 1) * n <= k1 * n,
{
    assert(k1 < k2 ==> (k1 + 1) * n <= k2 * n) by (nonlinear_arith)
        requires
            n >= 0,
    ;
    assert(k2 < k1 ==> (k2 + 1) * n <= k1 * n) by (nonlinear_arith)
        requires
            n >= 0,
    ;
}

pub proof fn lemma_range_set_len(lo: int, hi: int)
    requires
        0 <= lo <= hi,
        hi <= 0x1_0000_0000_0000_0000,
    ensures
        range_set(lo, hi).finite(),
        range_set(lo, hi).len() == hi - lo,
    decreases hi - lo,
{
    if lo == hi {
        assert(range_set(lo, hi) =~= Set::<u64>::empty());
    } else {
        lemma_range_set_len(lo, hi - 1);
        assert(range_set(lo, hi) =~= range_set(lo, hi - 1).insert((hi - 1) as u64));
    }
}

} // verus!
