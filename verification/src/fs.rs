//! The mounted file system's in-memory state.
use crate::allocator::{PerCpuPageAllocator, RBInodeAllocator};
use crate::defs::{Error, FileName, InodeNum, PageNum, DATA_PAGE_START, DENTRIES_PER_PAGE, HAYLEYFS_PAGESIZE, NUM_INODES, NUM_PAGE_DESCRIPTORS, ROOT_INO};
use crate::pm::{desc_free, inode_free, PmDevice};
use crate::volatile::{
    HayleyFsDirInodeInfo, HayleyFsRegInodeInfo, InoDataPageTree, InoDentryTree, InoDirPageTree,
};
use vstd::prelude::*;

verus! {

/// Mount options.
#[derive(Clone, Copy)]
pub struct MountOpts {
    /// Format the device instead of mounting what is on it.
    pub init: Option<bool>,
}

/// The in-memory state of a mounted file system: the device, the counters
/// reported by `statfs`, the indexes of inodes not in memory, and the
/// allocators.
pub struct SbInfo {
    pub dev: PmDevice,
    pub size: i64,
    pub blocksize: i64,
    pub num_blocks: u64,
    pub inodes_in_use: u64,
    pub blocks_in_use: u64,
    pub ino_dentry_tree: InoDentryTree,
    pub ino_dir_page_tree: InoDirPageTree,
    pub ino_data_page_tree: InoDataPageTree,
    pub page_allocator: Option<PerCpuPageAllocator>,
    pub inode_allocator: RBInodeAllocator,
    pub cpus: u32,
    /// The CPU the current operation runs on.
    pub current_cpu: u32,
    pub mount_opts: MountOpts,
    pub uid: u32,
    pub gid: u32,
    pub mode: u16,
}

/// The end of the pages of a device of `num_blocks` blocks that the page
/// descriptor table can describe.
pub open spec fn describable_end(num_blocks: u64) -> int {
    if NUM_PAGE_DESCRIPTORS < num_blocks {
        NUM_PAGE_DESCRIPTORS as int
    } else {
        num_blocks as int
    }
}

impl SbInfo {
    /// The page allocator is usable: its pools start at the first data
    /// page, include one for every CPU, and hold only pages of the device.
    pub open spec fn alloc_ok(&self) -> bool {
        match self.page_allocator {
            None => true,
            Some(a) => {
                &&& a.wf()
                &&& a.spec_start() == DATA_PAGE_START
                &&& self.current_cpu < a.spec_cpus() <= a.num_pools()
                &&& forall|p: PageNum| #[trigger] a.free_pages().contains(p) ==> self.dev@.has_page(p as int)
            },
        }
    }

    pub open spec fn wf(&self) -> bool {
        &&& self.dev.wf()
        &&& self.ino_dentry_tree.wf()
        &&& self.ino_dir_page_tree.wf()
        &&& self.ino_data_page_tree.wf()
        &&& self.inode_allocator.wf()
        &&& self.alloc_ok()
    }

    /// The allocator's free pages.
    pub open spec fn free_pages(&self) -> Set<PageNum> {
        match self.page_allocator {
            None => Set::empty(),
            Some(a) => a.free_pages(),
        }
    }

    pub open spec fn page_is_free(&self, p: PageNum) -> bool {
        self.free_pages().contains(p)
    }

    /// Page `p` is a page of the device that the allocator can take back.
    pub open spec fn page_ok(&self, p: PageNum) -> bool {
        &&& self.dev@.has_page(p as int)
        &&& match self.page_allocator {
            None => true,
            Some(a) => a.spec_start() <= p,
        }
    }

    /// The pages of a file's index are pages the allocator can take back.
    pub open spec fn reg_info_ok(&self, info: HayleyFsRegInodeInfo) -> bool {
        &&& info.wf()
        &&& forall|k: u64| #[trigger] info.view().contains_key(k) ==> self.page_ok(info.view()[k].page_no)
    }

    /// The pages of a directory's index are pages the allocator can take
    /// back, and each of its entries lives in one of them.
    pub open spec fn dir_info_ok(&self, info: HayleyFsDirInodeInfo) -> bool {
        &&& info.wf()
        &&& forall|p: PageNum| #[trigger] info.page_set().contains(p) ==> self.page_ok(p)
        &&& forall|k: FileName|
            #[trigger] info.dentry_map().contains_key(k) ==> info.page_set().contains(info.dentry_map()[k].loc.page_no)
                && info.dentry_map()[k].loc.slot < DENTRIES_PER_PAGE && info.dentry_map()[k].name == k
    }

    /// The page allocator has the same shape as in `other`.
    pub open spec fn same_pools(&self, other: SbInfo) -> bool {
        match (self.page_allocator, other.page_allocator) {
            (Some(a), Some(b)) => {
                &&& a.num_pools() == b.num_pools()
                &&& a.spec_start() == b.spec_start()
                &&& a.spec_pages_per_cpu() == b.spec_pages_per_cpu()
                &&& a.spec_cpus() == b.spec_cpus()
            },
            (None, None) => true,
            _ => false,
        }
    }

    /// Everything but the device and the page allocator is as in `other`.
    pub open spec fn unchanged_but_pages(&self, other: SbInfo) -> bool {
        &&& self.size == other.size
        &&& self.blocksize == other.blocksize
        &&& self.num_blocks == other.num_blocks
        &&& self.inodes_in_use == other.inodes_in_use
        &&& self.blocks_in_use == other.blocks_in_use
        &&& self.ino_dentry_tree == other.ino_dentry_tree
        &&& self.ino_dir_page_tree == other.ino_dir_page_tree
        &&& self.ino_data_page_tree == other.ino_data_page_tree
        &&& self.inode_allocator == other.inode_allocator
        &&& self.cpus == other.cpus
        &&& self.current_cpu == other.current_cpu
        &&& self.same_pools(other)
    }

    /// The allocators agree with the device: every inode number the inode
    /// allocator holds names a free inode slot, and every page the page
    /// allocator holds has a free descriptor.
    pub open spec fn alloc_agrees(&self) -> bool {
        &&& forall|i: InodeNum| #[trigger] self.inode_allocator.free_inos().contains(i) ==> 0 < i < NUM_INODES
            && inode_free(self.dev@.inodes[i as int])
        &&& forall|p: PageNum| #[trigger] self.free_pages().contains(p) ==> desc_free(self.dev@.desc(p as int))
    }

    /// A step keeps the allocators in agreement with the device when every
    /// number still free was free before and its slot is unchanged, and every
    /// page still free has a free descriptor or was free before with its
    /// descriptor unchanged.
    pub proof fn lemma_agrees_kept(s0: SbInfo, s1: SbInfo)
        requires
            s0.alloc_agrees(),
            forall|i: InodeNum| #[trigger] s1.inode_allocator.free_inos().contains(i) ==> s0.inode_allocator.free_inos().contains(i)
                && s1.dev@.inodes[i as int] == s0.dev@.inodes[i as int],
            forall|p: PageNum| #[trigger] s1.free_pages().contains(p) ==> desc_free(s1.dev@.desc(p as int)) || (
            s0.free_pages().contains(p) && s1.dev@.desc(p as int) == s0.dev@.desc(p as int)),
        ensures
            s1.alloc_agrees(),
    {
    }

    /// The pages the indexes of inodes not in memory hold are pages the
    /// allocator can take back.
    pub open spec fn trees_ok(&self) -> bool {
        &&& forall|i: InodeNum, p: PageNum|
            #[trigger] self.ino_dir_page_tree.view().contains_key(i) && #[trigger] self.ino_dir_page_tree.view()[i].contains(p)
                ==> self.page_ok(p)
        &&& forall|i: InodeNum, o: u64|
            #[trigger] self.ino_data_page_tree.view().contains_key(i) && #[trigger] self.ino_data_page_tree.view()[i].contains_key(o)
                ==> self.page_ok(self.ino_data_page_tree.view()[i][o].page_no)
        &&& forall|i: InodeNum| #[trigger] self.ino_dentry_tree.view().contains_key(i) ==> self.ino_dir_page_tree.view().contains_key(i)
        &&& forall|i: InodeNum, k: FileName|
            #[trigger] self.ino_dentry_tree.view().contains_key(i) && #[trigger] self.ino_dentry_tree.view()[i].contains_key(k)
                ==> self.ino_dir_page_tree.view().contains_key(i) && self.ino_dir_page_tree.view()[i].contains(
                self.ino_dentry_tree.view()[i][k].loc.page_no,
            ) && self.ino_dentry_tree.view()[i][k].loc.slot < DENTRIES_PER_PAGE && self.ino_dentry_tree.view()[i][k].name == k
    }

    /// The device's geometry: the device has at least the reserved blocks,
    /// the modelled pages are those past the reserved ones that the page
    /// descriptor table can describe, and the current CPU is one of the
    /// CPUs.
    pub open spec fn geometry_ok(&self) -> bool {
        &&& DATA_PAGE_START <= self.num_blocks
        &&& DATA_PAGE_START + self.dev@.descs.len() == describable_end(self.num_blocks)
        &&& 0 < self.cpus
        &&& self.current_cpu < self.cpus
    }

    /// The in-memory state for device `dev` of `num_blocks` blocks, before
    /// it is formatted or mounted: its size and block count, empty indexes,
    /// one inode in use, an inode allocator holding every number past the
    /// root's, and a page allocator splitting the pages past the reserved
    /// ones that the descriptor table can describe between `cpus` CPUs.
    pub fn new(
        dev: PmDevice,
        num_blocks: u64,
        cpus: u32,
        current_cpu: u32,
        mount_opts: MountOpts,
        uid: u32,
        gid: u32,
        mode: u16,
    ) -> (r: SbInfo)
        requires
            dev.wf(),
            current_cpu < cpus,
            DATA_PAGE_START <= num_blocks,
            num_blocks * HAYLEYFS_PAGESIZE <= i64::MAX,
            DATA_PAGE_START + dev@.descs.len() == describable_end(num_blocks),
        ensures
            r.wf(),
            r.trees_ok(),
            r.geometry_ok(),
            r.dev == dev,
            r.num_blocks == num_blocks,
            r.size == r.num_blocks * HAYLEYFS_PAGESIZE,
            r.blocksize == HAYLEYFS_PAGESIZE,
            r.inodes_in_use == 1,
            r.blocks_in_use == 0,
            r.cpus == cpus,
            r.current_cpu == current_cpu,
            r.mount_opts == mount_opts,
            r.uid == uid,
            r.gid == gid,
            r.mode == mode,
            r.ino_dentry_tree.view() == Map::<InodeNum, Map<FileName, crate::volatile::DentryInfo>>::empty(),
            r.ino_dir_page_tree.view() == Map::<InodeNum, Set<PageNum>>::empty(),
            r.ino_data_page_tree.view() == Map::<InodeNum, Map<u64, crate::volatile::DataPageInfo>>::empty(),
            r.inode_allocator.free_inos() == crate::allocator::range_set(ROOT_INO + 1, NUM_INODES as int),
            r.page_allocator is Some,
            r.free_pages() == crate::allocator::range_set(
                DATA_PAGE_START as int,
                DATA_PAGE_START + cpus * ((dev@.descs.len() as int) / (cpus as int)),
            ),
    {
        let num_pages = dev.num_pages();
        let size = (num_blocks * HAYLEYFS_PAGESIZE) as i64;
        let bound = if NUM_PAGE_DESCRIPTORS < num_blocks { NUM_PAGE_DESCRIPTORS } else { num_blocks };
        let a = match PerCpuPageAllocator::new_from_range(DATA_PAGE_START, bound, cpus) {
            Ok(a) => a,
            Err(_) => vstd::pervasive::unreached(),
        };
        let ia = match RBInodeAllocator::new(ROOT_INO + 1) {
            Ok(a) => a,
            Err(_) => vstd::pervasive::unreached(),
        };
        let t1 = match InoDentryTree::new() { Ok(t) => t, Err(_) => vstd::pervasive::unreached() };
        let t2 = match InoDirPageTree::new() { Ok(t) => t, Err(_) => vstd::pervasive::unreached() };
        let t3 = match InoDataPageTree::new() { Ok(t) => t, Err(_) => vstd::pervasive::unreached() };
        proof {
            let n = num_pages as int;
            let c = cpus as int;
            let ppc = n / c;
            assert(ppc >= 0) by (nonlinear_arith)
                requires c > 0, n >= 0, ppc == n / c;
            assert(c * ppc <= n) by (nonlinear_arith)
                requires c > 0, ppc == n / c, n >= 0;
            assert forall|p: PageNum| #[trigger] a.free_pages().contains(p) implies dev@.has_page(p as int) by {
                let k = choose|k: int| 0 <= k < a.num_pools() && #[trigger] a.pool(k).contains(p);
                assert((k + 1) * ppc <= c * ppc) by (nonlinear_arith)
                    requires 0 <= k < c, ppc >= 0;
            }
            assert(a.free_pages() =~= crate::allocator::range_set(DATA_PAGE_START as int, DATA_PAGE_START + c * ppc)) by {
                assert forall|p: PageNum| #[trigger] a.free_pages().contains(p) <==> crate::allocator::range_set(DATA_PAGE_START as int, DATA_PAGE_START + c * ppc).contains(p) by {
                    if a.free_pages().contains(p) {
                        let k = choose|k: int| 0 <= k < a.num_pools() && #[trigger] a.pool(k).contains(p);
                        assert((k + 1) * ppc <= c * ppc) by (nonlinear_arith)
                            requires 0 <= k < c, ppc >= 0;
                        assert(k * ppc >= 0) by (nonlinear_arith) requires k >= 0, ppc >= 0;
                    }
                    if DATA_PAGE_START <= p < DATA_PAGE_START + c * ppc {
                        assert(ppc >= 1) by (nonlinear_arith)
                            requires c * ppc > 0, c > 0, ppc >= 0;
                        let k = (p - DATA_PAGE_START) / ppc;
                        assert(0 <= k < c && k * ppc <= p - DATA_PAGE_START < (k + 1) * ppc) by (nonlinear_arith)
                            requires ppc >= 1, k == (p - DATA_PAGE_START) / ppc, 0 <= p - DATA_PAGE_START < c * ppc;
                        assert(a.pool(k).contains(p));
                    }
                }
            }
        }
        SbInfo {
            dev,
            size,
            blocksize: HAYLEYFS_PAGESIZE as i64,
            num_blocks,
            inodes_in_use: 1,
            blocks_in_use: 0,
            ino_dentry_tree: t1,
            ino_dir_page_tree: t2,
            ino_data_page_tree: t3,
            page_allocator: Some(a),
            inode_allocator: ia,
            cpus,
            current_cpu,
            mount_opts,
            uid,
            gid,
            mode,
        }
    }

    /// No CPU's pool has a page left.
    pub open spec fn out_of_pages(&self) -> bool {
        &&& self.page_allocator is Some
        &&& forall|k: int|
            0 <= k < self.page_allocator->0.spec_cpus() ==> #[trigger] self.page_allocator->0.pool(k).len() == 0
    }

    /// Takes a page from the allocator for the current CPU: the smallest page
    /// of that CPU's pool, or when that pool is empty, the smallest page of
    /// the fullest other pool.
    pub fn alloc_page(&mut self) -> (r: Result<PageNum, Error>)
        requires
            old(self).wf(),
        ensures
            final(self).wf(),
            final(self).dev == old(self).dev,
            final(self).unchanged_but_pages(*old(self)),
            (match r {
                Ok(p) => old(self).page_is_free(p) && final(self).page_ok(p) && final(self).free_pages()
                    == old(self).free_pages().remove(p) && ({
                    let a0 = old(self).page_allocator->0;
                    let a1 = final(self).page_allocator->0;
                    let cpu = old(self).current_cpu as int;
                    exists|c: int|
                        {
                            &&& (if a0.pool(cpu).len() > 0 {
                                c == cpu
                            } else {
                                a0.is_fullest_other(cpu, c)
                            })
                            &&& #[trigger] a0.pool(c).contains(p)
                            &&& (forall|q: u64| #[trigger] a0.pool(c).contains(q) ==> p <= q)
                            &&& forall|k: int|
                                0 <= k < a0.num_pools() ==> #[trigger] a1.pool(k) == (if k == c {
                                    a0.pool(k).remove(p)
                                } else {
                                    a0.pool(k)
                                })
                        }
                }),
                Err(e) => final(self).free_pages() == old(self).free_pages() && ((e == Error::EINVAL
                    && old(self).page_allocator is None) || (e == Error::ENOSPC && old(self).out_of_pages())),
            }),
    {
        let cpu = self.current_cpu;
        match self.page_allocator.take() {
            None => Err(Error::EINVAL),
            Some(mut a) => {
                let r = a.alloc_page(cpu);
                self.page_allocator = Some(a);
                proof {
                    if let Ok(p) = r {
                        let c = choose|c: int|
                            {
                                &&& (if old(self).page_allocator->0.pool(cpu as int).len() > 0 {
                                    c == cpu
                                } else {
                                    old(self).page_allocator->0.is_fullest_other(cpu as int, c)
                                })
                                &&& old(self).page_allocator->0.pool(c).contains(p)
                                &&& (forall|q: u64| #[trigger] old(self).page_allocator->0.pool(c).contains(q) ==> p <= q)
                                &&& forall|k: int|
                                    0 <= k < old(self).page_allocator->0.num_pools() ==> #[trigger] a.pool(k) == (
                                    if k == c {
                                        old(self).page_allocator->0.pool(k).remove(p)
                                    } else {
                                        old(self).page_allocator->0.pool(k)
                                    })
                            };
                        old(self).page_allocator->0.lemma_pool_index(c, p);
                    }
                }
                r
            },
        }
    }

    /// Returns page `page_no` to the allocator.
    pub fn dealloc_page(&mut self, page_no: PageNum) -> (r: Result<(), Error>)
        requires
            old(self).wf(),
            old(self).page_ok(page_no),
        ensures
            final(self).wf(),
            final(self).dev == old(self).dev,
            final(self).unchanged_but_pages(*old(self)),
            (match r {
                Ok(()) => old(self).page_allocator is Some && !old(self).page_is_free(page_no)
                    && final(self).free_pages() == old(self).free_pages().insert(page_no),
                Err(e) => e == Error::EINVAL && ((old(self).page_allocator is None && final(self).free_pages()
                    == old(self).free_pages()) || (old(self).page_allocator is Some && old(self).page_is_free(
                    page_no,
                ) && final(self).free_pages() == old(self).free_pages())),
            }),
    {
        match self.page_allocator.take() {
            None => Err(Error::EINVAL),
            Some(mut a) => {
                let r = a.dealloc_page(page_no);
                self.page_allocator = Some(a);
                proof {
                    if old(self).page_is_free(page_no) {
                        assert(old(self).free_pages().insert(page_no) =~= old(self).free_pages());
                    }
                }
                r
            },
        }
    }

    pub fn inc_inodes_in_use(&mut self)
        ensures
            *final(self) == (SbInfo { inodes_in_use: old(self).inodes_in_use.wrapping_add(1), ..*old(self) }),
    {
        self.inodes_in_use = self.inodes_in_use.wrapping_add(1);
    }

    pub fn get_inodes_in_use(&self) -> (r: u64)
        ensures
            r == self.inodes_in_use,
    {
        self.inodes_in_use
    }

    pub fn inc_blocks_in_use(&mut self)
        ensures
            *final(self) == (SbInfo { blocks_in_use: old(self).blocks_in_use.wrapping_add(1), ..*old(self) }),
    {
        self.blocks_in_use = self.blocks_in_use.wrapping_add(1);
    }

    pub fn get_pages_in_use(&self) -> (r: u64)
        ensures
            r == self.blocks_in_use,
    {
        self.blocks_in_use
    }

    pub fn get_size(&self) -> (r: i64)
        ensures
            r == self.size,
    {
        self.size
    }
}

/// Moves the entries and pages recorded for directory `parent_info` in the
/// indexes of inodes not in memory into `parent_info`.
pub fn move_dir_inode_tree_to_map(sbi: &mut SbInfo, parent_info: &mut HayleyFsDirInodeInfo) -> (r: Result<(), Error>)
    requires
        old(sbi).wf(),
        old(sbi).trees_ok(),
        old(sbi).dir_info_ok(*old(parent_info)),
    ensures
        final(sbi).wf(),
        final(sbi).trees_ok(),
        final(sbi).dir_info_ok(*final(parent_info)),
        r is Ok,
        *final(sbi) == (SbInfo {
            ino_dentry_tree: final(sbi).ino_dentry_tree,
            ino_dir_page_tree: final(sbi).ino_dir_page_tree,
            ..*old(sbi)
        }),
        ({
            let ino = old(parent_info).spec_ino();
            &&& final(sbi).ino_dentry_tree.view() == old(sbi).ino_dentry_tree.view().remove(ino)
            &&& final(sbi).ino_dir_page_tree.view() == old(sbi).ino_dir_page_tree.view().remove(ino)
            &&& final(parent_info).spec_ino() == ino
            &&& final(parent_info).dentry_map() == (if old(sbi).ino_dentry_tree.view().contains_key(ino) {
                old(parent_info).dentry_map().union_prefer_right(old(sbi).ino_dentry_tree.view()[ino])
            } else {
                old(parent_info).dentry_map()
            })
            &&& final(parent_info).page_set() == (if old(sbi).ino_dir_page_tree.view().contains_key(ino) {
                old(parent_info).page_set().union(old(sbi).ino_dir_page_tree.view()[ino])
            } else {
                old(parent_info).page_set()
            })
        }),
{
    let ino = parent_info.get_ino();
    let dentries = sbi.ino_dentry_tree.remove(ino);
    let dir_pages = sbi.ino_dir_page_tree.remove(ino);
    let ghost s0 = *old(sbi);
    if let Some(dentries) = dentries {
        parent_info.insert_dentries(dentries)?;
    }
    if let Some(dir_pages) = dir_pages {
        proof {
            assert forall|p: PageNum| #[trigger] dir_pages.view().dom().contains(p) implies sbi.page_ok(p) by {
                assert(s0.ino_dir_page_tree.view().contains_key(ino));
                assert(s0.ino_dir_page_tree.view()[ino].contains(p));
            }
        }
        parent_info.insert_page_infos(dir_pages)?;
    }
    proof {
        assert forall|i: InodeNum, p: PageNum|
            #[trigger] sbi.ino_dir_page_tree.view().contains_key(i) && #[trigger] sbi.ino_dir_page_tree.view()[i].contains(p)
                implies sbi.page_ok(p) by {
            assert(s0.ino_dir_page_tree.view().contains_key(i));
            assert(s0.ino_dir_page_tree.view()[i].contains(p));
        }
    }
    Ok(())
}

} // verus!
