//! Formatting and mounting a device, the attributes and indexes handed to
//! in-memory inodes, and putting an inode out of memory.
//!
//! Mounting a device that holds a file system scans the inode table and
//! the page descriptor table, then walks the directory tree from the root:
//! every inode reachable through live entries gets its directory pages,
//! its live entries and its data pages recorded in the indexes of inodes
//! not in memory.  The allocators are rebuilt from what the scans found in
//! use.
use crate::allocator::{alloc_vec_ok, free_from_alloc_vec, merge_reaches, range_set, PerCpuPageAllocator, RBInodeAllocator};
use crate::defs::{Error, FileName, InodeNum, InodeType, PageNum, PageType, DATA_PAGE_START, DENTRIES_PER_PAGE, HAYLEYFS_PAGESIZE, MAX_FILENAME_LEN, NUM_INODES, ROOT_INO, SUPER_MAGIC, S_IFDIR, S_IFMT, S_IFREG};
use crate::fs::{describable_end, SbInfo};
use crate::page::{data_page_readable, live_infos, DataPageWrapper, DirPageWrapper};
use crate::inode::{with_inode, InodeWrapper};
use crate::typestate::{Clean, Complete};
use crate::pm::{dentry_free, desc_free, desc_initialized, inode_free, memset_nt, zero_inode_spec, HayleyFsInode, PageDescriptor, PmDevice, PmView, Timespec};
use crate::volatile::{DataPageInfo, DentryInfo, DirPageInfo, HayleyFsDirInodeInfo, HayleyFsRegInodeInfo};
use crate::namei::index_matches;
use crate::sorted::SortedMap;
use vstd::prelude::*;

verus! {

/// The inode numbers held by the slots in use among the first `k` slots of
/// the inode table, in slot order.
pub open spec fn used_inos(v: PmView, k: int) -> Seq<InodeNum>
    decreases k,
{
    if k <= 0 {
        Seq::empty()
    } else {
        let prev = used_inos(v, k - 1);
        if !inode_free(v.inodes[k - 1]) {
            prev.push(v.inodes[k - 1].ino)
        } else {
            prev
        }
    }
}

/// The pages in use among the first `k` pages, in increasing order.
pub open spec fn used_pages(v: PmView, k: int) -> Seq<PageNum>
    decreases k,
{
    if k <= 0 {
        Seq::empty()
    } else {
        let prev = used_pages(v, k - 1);
        if !desc_free(v.descs[k - 1]) {
            prev.push((k - 1 + DATA_PAGE_START) as u64)
        } else {
            prev
        }
    }
}

/// Page `p` is a directory page of inode `x`.
pub open spec fn owns_dir_page(v: PmView, x: InodeNum, p: int) -> bool {
    &&& v.has_page(p)
    &&& v.desc(p).page_type == PageType::DIR
    &&& desc_initialized(v.desc(p))
    &&& v.desc(p).ino == x
}

/// Page `p` is a data page of inode `x`.
pub open spec fn owns_data_page(v: PmView, x: InodeNum, p: int) -> bool {
    &&& v.has_page(p)
    &&& v.desc(p).page_type == PageType::DATA
    &&& desc_initialized(v.desc(p))
    &&& v.desc(p).ino == x
}

/// The directory pages of inode `x` among the first `k` pages, in
/// increasing order.
pub open spec fn owned_dir_pages(v: PmView, x: InodeNum, k: int) -> Seq<PageNum>
    decreases k,
{
    if k <= 0 {
        Seq::empty()
    } else {
        let prev = owned_dir_pages(v, x, k - 1);
        if owns_dir_page(v, x, k - 1 + DATA_PAGE_START) {
            prev.push((k - 1 + DATA_PAGE_START) as u64)
        } else {
            prev
        }
    }
}

/// The data pages of inode `x` among the first `k` pages, in increasing
/// order.
pub open spec fn owned_data_pages(v: PmView, x: InodeNum, k: int) -> Seq<PageNum>
    decreases k,
{
    if k <= 0 {
        Seq::empty()
    } else {
        let prev = owned_data_pages(v, x, k - 1);
        if owns_data_page(v, x, k - 1 + DATA_PAGE_START) {
            prev.push((k - 1 + DATA_PAGE_START) as u64)
        } else {
            prev
        }
    }
}

/// Scans the inode table: the numbers of the inodes in use, counted in
/// `inodes_in_use`.
fn scan_inodes(sbi: &mut SbInfo) -> (r: Vec<InodeNum>)
    requires
        old(sbi).wf(),
        old(sbi).inodes_in_use + NUM_INODES <= u64::MAX,
    ensures
        *final(sbi) == (SbInfo { inodes_in_use: (old(sbi).inodes_in_use + r@.len()) as u64, ..*old(sbi) }),
        r@ == used_inos(old(sbi).dev@, NUM_INODES as int),
{
    let ghost s0 = *sbi;
    let mut alloc_inode_vec: Vec<InodeNum> = Vec::new();
    let mut i: u64 = 0;
    while i < NUM_INODES
        invariant
            s0.wf(),
            s0.inodes_in_use + NUM_INODES <= u64::MAX,
            i <= NUM_INODES,
            alloc_inode_vec@ == used_inos(s0.dev@, i as int),
            alloc_inode_vec@.len() <= i,
            *sbi == (SbInfo { inodes_in_use: (s0.inodes_in_use + alloc_inode_vec@.len()) as u64, ..s0 }),
        decreases NUM_INODES - i,
    {
        let inode = sbi.dev.inode(i);
        if !inode.is_free() {
            alloc_inode_vec.push(inode.get_ino());
            sbi.inc_inodes_in_use();
        }
        i = i + 1;
    }
    alloc_inode_vec
}

/// The pages of `x` among the first `k` pages: its directory pages when
/// `dir` holds, its data pages otherwise.
pub open spec fn owned_pages(v: PmView, x: InodeNum, k: int, dir: bool) -> Seq<PageNum> {
    if dir {
        owned_dir_pages(v, x, k)
    } else {
        owned_data_pages(v, x, k)
    }
}

/// The index of owned pages a scan of the first `k` pages builds: an
/// inode is listed when it owns such a page, with its pages in increasing
/// order.
pub open spec fn page_lists_ok(m: SortedMap<InodeNum, Vec<PageNum>>, v: PmView, k: int, dir: bool) -> bool {
    &&& m.wf()
    &&& forall|x: InodeNum| #[trigger] m.view().contains_key(x) == (owned_pages(v, x, k, dir).len() > 0)
    &&& forall|x: InodeNum| #[trigger] m.view().contains_key(x) ==> m.view()[x]@ == owned_pages(v, x, k, dir)
}

/// Adds page `p` to the list of inode `o`.
fn push_page(m: &mut SortedMap<InodeNum, Vec<PageNum>>, o: InodeNum, p: PageNum)
    requires
        old(m).wf(),
    ensures
        final(m).wf(),
        final(m).view().dom() == old(m).view().dom().insert(o),
        final(m).view()[o]@ == (if old(m).view().contains_key(o) { old(m).view()[o]@ } else { Seq::empty() }).push(p),
        forall|x: InodeNum| x != o && #[trigger] old(m).view().contains_key(x) ==> final(m).view()[x] == old(m).view()[x],
{
    let node = m.remove(&o);
    let mut v = match node {
        Some(v) => v,
        None => Vec::new(),
    };
    v.push(p);
    m.insert(o, v);
    proof {
        assert(final(m).view().dom() =~= old(m).view().dom().insert(o));
    }
}

/// Scans the page descriptor table: the pages in use, counted in
/// `blocks_in_use`, and the directory and data pages of each owner.
pub(crate) fn scan_pages(sbi: &mut SbInfo) -> (r: (Vec<PageNum>, SortedMap<InodeNum, Vec<PageNum>>, SortedMap<InodeNum, Vec<PageNum>>))
    requires
        old(sbi).wf(),
        old(sbi).blocks_in_use + old(sbi).dev@.descs.len() <= u64::MAX,
    ensures
        *final(sbi) == (SbInfo { blocks_in_use: (old(sbi).blocks_in_use + r.0@.len()) as u64, ..*old(sbi) }),
        ({
            let v = old(sbi).dev@;
            let n = v.descs.len() as int;
            &&& r.0@ == used_pages(v, n)
            &&& page_lists_ok(r.1, v, n, true)
            &&& page_lists_ok(r.2, v, n, false)
        }),
{
    let ghost s0 = *sbi;
    let ghost v = s0.dev@;
    let mut alloc_page_vec: Vec<PageNum> = Vec::new();
    let mut init_dir_pages: SortedMap<InodeNum, Vec<PageNum>> = SortedMap::new();
    let mut init_data_pages: SortedMap<InodeNum, Vec<PageNum>> = SortedMap::new();
    let n = sbi.dev.num_pages_usize();
    let mut i: usize = 0;
    while i < n
        invariant
            s0.wf(),
            v == s0.dev@,
            n == v.descs.len(),
            s0.blocks_in_use + n <= u64::MAX,
            i <= n,
            alloc_page_vec@ == used_pages(v, i as int),
            alloc_page_vec@.len() <= i,
            *sbi == (SbInfo { blocks_in_use: (s0.blocks_in_use + alloc_page_vec@.len()) as u64, ..s0 }),
            page_lists_ok(init_dir_pages, v, i as int, true),
            page_lists_ok(init_data_pages, v, i as int, false),
        decreases n - i,
    {
        let desc = sbi.dev.desc_at(i);
        let page_no = i as u64 + DATA_PAGE_START;
        let ghost od = init_dir_pages;
        let ghost oa = init_data_pages;
        if !desc.is_free() {
            sbi.inc_blocks_in_use();
            if desc.get_page_type() == PageType::DIR {
                if desc.is_initialized() {
                    push_page(&mut init_dir_pages, desc.get_ino(), page_no);
                }
            } else if desc.get_page_type() == PageType::DATA {
                if desc.is_initialized() {
                    push_page(&mut init_data_pages, desc.get_ino(), page_no);
                }
            }
            alloc_page_vec.push(page_no);
        }
        proof {
            let k = i + 1;
            let d = v.descs[i as int];
            assert(desc == d);
            assert(v.desc(i + DATA_PAGE_START) == d);
            assert forall|x: InodeNum| #[trigger] owned_pages(v, x, k, true) == (if owns_dir_page(v, x, i + DATA_PAGE_START) {
                owned_pages(v, x, i as int, true).push(page_no)
            } else {
                owned_pages(v, x, i as int, true)
            }) by {}
            assert forall|x: InodeNum| #[trigger] owned_pages(v, x, k, false) == (if owns_data_page(v, x, i + DATA_PAGE_START) {
                owned_pages(v, x, i as int, false).push(page_no)
            } else {
                owned_pages(v, x, i as int, false)
            }) by {}
            assert forall|x: InodeNum| #[trigger] init_dir_pages.view().contains_key(x) == (owned_pages(v, x, k, true).len() > 0) by {
                if owns_dir_page(v, x, i + DATA_PAGE_START) {
                    assert(init_dir_pages.view().contains_key(x));
                } else {
                    assert(init_dir_pages.view().contains_key(x) == od.view().contains_key(x));
                }
            }
            assert forall|x: InodeNum| #[trigger] init_dir_pages.view().contains_key(x) implies init_dir_pages.view()[x]@ == owned_pages(v, x, k, true) by {
                if owns_dir_page(v, x, i + DATA_PAGE_START) {
                } else {
                    assert(od.view().contains_key(x));
                }
            }
            assert forall|x: InodeNum| #[trigger] init_data_pages.view().contains_key(x) == (owned_pages(v, x, k, false).len() > 0) by {
                if owns_data_page(v, x, i + DATA_PAGE_START) {
                    assert(init_data_pages.view().contains_key(x));
                } else {
                    assert(init_data_pages.view().contains_key(x) == oa.view().contains_key(x));
                }
            }
            assert forall|x: InodeNum| #[trigger] init_data_pages.view().contains_key(x) implies init_data_pages.view()[x]@ == owned_pages(v, x, k, false) by {
                if owns_data_page(v, x, i + DATA_PAGE_START) {
                } else {
                    assert(oa.view().contains_key(x));
                }
            }
        }
        i = i + 1;
    }
    (alloc_page_vec, init_dir_pages, init_data_pages)
}

/// The index a file's data pages `pages` give, a later page replacing an
/// earlier one at the same offset.
pub open spec fn data_map(v: PmView, x: InodeNum, pages: Seq<PageNum>) -> Map<u64, DataPageInfo>
    decreases pages.len(),
{
    if pages.len() == 0 {
        Map::empty()
    } else {
        let p = pages.last();
        let o = v.desc(p as int).offset;
        data_map(v, x, pages.drop_last()).insert(o, DataPageInfo { owner: x, page_no: p, offset: o })
    }
}

/// Builds the index of file `ino` from its data pages `input_vec`, taking
/// each page's offset from its descriptor; a page that is not a live data
/// page is refused.
pub fn build_tree(dev: &PmDevice, ino: InodeNum, input_vec: &Vec<PageNum>) -> (r: Result<SortedMap<u64, DataPageInfo>, Error>)
    requires
        dev.wf(),
        forall|j: int| 0 <= j < input_vec@.len() ==> #[trigger] input_vec@[j] >= DATA_PAGE_START,
    ensures
        (match r {
            Ok(t) => {
                &&& t.wf()
                &&& t.view() == data_map(dev@, ino, input_vec@)
                &&& forall|j: int| 0 <= j < input_vec@.len() ==> #[trigger] data_page_readable(dev@, input_vec@[j] as int)
            },
            Err(e) => exists|j: int| 0 <= j < input_vec@.len() && !data_page_readable(dev@, #[trigger] input_vec@[j] as int),
        }),
{
    let mut output_tree: SortedMap<u64, DataPageInfo> = SortedMap::new();
    let mut i: usize = 0;
    while i < input_vec.len()
        invariant
            dev.wf(),
            forall|j: int| 0 <= j < input_vec@.len() ==> #[trigger] input_vec@[j] >= DATA_PAGE_START,
            i <= input_vec@.len(),
            output_tree.wf(),
            output_tree.view() == data_map(dev@, ino, input_vec@.take(i as int)),
            forall|j: int| 0 <= j < i ==> #[trigger] data_page_readable(dev@, input_vec@[j] as int),
        decreases input_vec@.len() - i,
    {
        let page_no = input_vec[i];
        let data_page_wrapper = match DataPageWrapper::from_page_no(dev, page_no) {
            Ok(w) => w,
            Err(e) => {
                proof {
                    assert(!data_page_readable(dev@, input_vec@[i as int] as int));
                }
                return Err(e);
            },
        };
        let offset = data_page_wrapper.get_offset(dev);
        let page_info = DataPageInfo::new(ino, page_no, offset);
        output_tree.insert(offset, page_info);
        proof {
            assert(input_vec@.take(i + 1).drop_last() =~= input_vec@.take(i as int));
            assert(input_vec@.take(i + 1).last() == page_no);
        }
        i = i + 1;
    }
    proof {
        assert(input_vec@.take(i as int) =~= input_vec@);
    }
    Ok(output_tree)
}

/// The index entries of the live entries of pages `pages`, page after page
/// and slot after slot.
pub open spec fn entries_of(v: PmView, pages: Seq<PageNum>) -> Seq<DentryInfo>
    decreases pages.len(),
{
    if pages.len() == 0 {
        Seq::empty()
    } else {
        entries_of(v, pages.drop_last()) + live_infos(v, pages.last(), DENTRIES_PER_PAGE as int)
    }
}

/// The index of entries `es`, a later entry replacing an earlier one of the
/// same name.
pub open spec fn entry_map(es: Seq<DentryInfo>) -> Map<FileName, DentryInfo>
    decreases es.len(),
{
    if es.len() == 0 {
        Map::empty()
    } else {
        entry_map(es.drop_last()).insert(es.last().name, es.last())
    }
}

/// The inode numbers entries `es` name.
pub open spec fn inos_of(es: Seq<DentryInfo>) -> Seq<InodeNum> {
    Seq::new(es.len(), |i: int| es[i].ino)
}

/// The pages of `pages` are directory pages of `x`.
pub open spec fn all_owned_dir(v: PmView, x: InodeNum, pages: Seq<PageNum>) -> bool {
    forall|i: int| 0 <= i < pages.len() ==> owns_dir_page(v, x, #[trigger] pages[i] as int)
}

/// The pages of `pages` are data pages of `x`.
pub open spec fn all_owned_data(v: PmView, x: InodeNum, pages: Seq<PageNum>) -> bool {
    forall|i: int| 0 <= i < pages.len() ==> owns_data_page(v, x, #[trigger] pages[i] as int)
}

pub(crate) proof fn lemma_owned_pages(v: PmView, x: InodeNum, k: int)
    requires
        0 <= k <= v.descs.len(),
        v.descs.len() + DATA_PAGE_START <= u64::MAX,
    ensures
        all_owned_dir(v, x, owned_dir_pages(v, x, k)),
        all_owned_data(v, x, owned_data_pages(v, x, k)),
    decreases k,
{
    if k > 0 {
        lemma_owned_pages(v, x, k - 1);
        let pd = owned_dir_pages(v, x, k - 1);
        let pa = owned_data_pages(v, x, k - 1);
        assert forall|i: int| 0 <= i < owned_dir_pages(v, x, k).len() implies owns_dir_page(
            v,
            x,
            #[trigger] owned_dir_pages(v, x, k)[i] as int,
        ) by {
            if i < pd.len() {
                assert(owned_dir_pages(v, x, k)[i] == pd[i]);
            }
        }
        assert forall|i: int| 0 <= i < owned_data_pages(v, x, k).len() implies owns_data_page(
            v,
            x,
            #[trigger] owned_data_pages(v, x, k)[i] as int,
        ) by {
            if i < pa.len() {
                assert(owned_data_pages(v, x, k)[i] == pa[i]);
            }
        }
    }
}

/// Records the directory pages `pages` of inode `x` and the live entries
/// they hold, and queues the inodes those entries name.
fn index_dir_pages(sbi: &mut SbInfo, x: InodeNum, pages: &Vec<PageNum>, queue: &mut Vec<InodeNum>) -> (r: Result<(), Error>)
    requires
        old(sbi).wf(),
        all_owned_dir(old(sbi).dev@, x, pages@),
        !old(sbi).ino_dentry_tree.view().contains_key(x),
        !old(sbi).ino_dir_page_tree.view().contains_key(x),
    ensures
        r is Ok,
        final(sbi).wf(),
        *final(sbi) == (SbInfo {
            ino_dentry_tree: final(sbi).ino_dentry_tree,
            ino_dir_page_tree: final(sbi).ino_dir_page_tree,
            ..*old(sbi)
        }),
        final(sbi).ino_dentry_tree.view() == (if entries_of(old(sbi).dev@, pages@).len() > 0 {
            old(sbi).ino_dentry_tree.view().insert(x, entry_map(entries_of(old(sbi).dev@, pages@)))
        } else {
            old(sbi).ino_dentry_tree.view()
        }),
        final(sbi).ino_dir_page_tree.view() == (if pages@.len() > 0 {
            old(sbi).ino_dir_page_tree.view().insert(x, pages@.to_set())
        } else {
            old(sbi).ino_dir_page_tree.view()
        }),
        final(queue)@ == old(queue)@ + inos_of(entries_of(old(sbi).dev@, pages@)),
{
    let ghost s0 = *sbi;
    let ghost v = s0.dev@;
    let ghost q0 = queue@;
    let mut j: usize = 0;
    while j < pages.len()
        invariant
            sbi.wf(),
            v == s0.dev@,
            s0.wf(),
            all_owned_dir(v, x, pages@),
            !s0.ino_dentry_tree.view().contains_key(x),
            !s0.ino_dir_page_tree.view().contains_key(x),
            j <= pages@.len(),
            *sbi == (SbInfo { ino_dentry_tree: sbi.ino_dentry_tree, ino_dir_page_tree: sbi.ino_dir_page_tree, ..s0 }),
            sbi.ino_dentry_tree.view() == (if entries_of(v, pages@.take(j as int)).len() > 0 {
                s0.ino_dentry_tree.view().insert(x, entry_map(entries_of(v, pages@.take(j as int))))
            } else {
                s0.ino_dentry_tree.view()
            }),
            sbi.ino_dir_page_tree.view() == (if j > 0 {
                s0.ino_dir_page_tree.view().insert(x, pages@.take(j as int).to_set())
            } else {
                s0.ino_dir_page_tree.view()
            }),
            queue@ == q0 + inos_of(entries_of(v, pages@.take(j as int))),
        decreases pages@.len() - j,
    {
        let page = pages[j];
        proof {
            assert(owns_dir_page(v, x, pages@[j as int] as int));
        }
        let dir_page_wrapper = match DirPageWrapper::from_page_no(&sbi.dev, page) {
            Ok(w) => w,
            Err(_) => vstd::pervasive::unreached(),
        };
        let live_dentries = match dir_page_wrapper.get_live_dentry_info(&sbi.dev) {
            Ok(l) => l,
            Err(_) => vstd::pervasive::unreached(),
        };
        let ghost ej = entries_of(v, pages@.take(j as int));
        let ghost dpt = sbi.ino_dir_page_tree;
        let mut k: usize = 0;
        while k < live_dentries.len()
            invariant
                sbi.ino_dir_page_tree == dpt,
                sbi.wf(),
                v == s0.dev@,
                s0.wf(),
                !s0.ino_dentry_tree.view().contains_key(x),
                k <= live_dentries@.len(),
                *sbi == (SbInfo { ino_dentry_tree: sbi.ino_dentry_tree, ino_dir_page_tree: sbi.ino_dir_page_tree, ..s0 }),
                sbi.ino_dentry_tree.view() == (if (ej + live_dentries@.take(k as int)).len() > 0 {
                    s0.ino_dentry_tree.view().insert(x, entry_map(ej + live_dentries@.take(k as int)))
                } else {
                    s0.ino_dentry_tree.view()
                }),
                queue@ == q0 + inos_of(ej + live_dentries@.take(k as int)),
            decreases live_dentries@.len() - k,
        {
            let d = live_dentries[k];
            sbi.ino_dentry_tree.insert(x, d);
            queue.push(d.get_ino());
            proof {
                let es = ej + live_dentries@.take(k + 1);
                assert(es.drop_last() =~= ej + live_dentries@.take(k as int));
                assert(es.last() == d);
                assert(entry_map(es) == entry_map(ej + live_dentries@.take(k as int)).insert(d.name, d));
                if (ej + live_dentries@.take(k as int)).len() > 0 {
                    assert(sbi.ino_dentry_tree.view() =~= s0.ino_dentry_tree.view().insert(x, entry_map(es)));
                } else {
                    assert(entry_map(ej + live_dentries@.take(k as int)) =~= Map::<FileName, DentryInfo>::empty());
                    assert(sbi.ino_dentry_tree.view() =~= s0.ino_dentry_tree.view().insert(x, entry_map(es)));
                }
                assert(inos_of(es) =~= inos_of(ej + live_dentries@.take(k as int)).push(d.ino));
                assert(queue@ =~= q0 + inos_of(es));
            }
            k = k + 1;
        }
        sbi.ino_dir_page_tree.insert_one(x, DirPageInfo::new(page));
        proof {
            assert(live_dentries@.take(k as int) =~= live_dentries@);
            let t = pages@.take(j + 1);
            assert(t.drop_last() =~= pages@.take(j as int));
            assert(t.last() == page);
            assert(entries_of(v, t) == ej + live_dentries@);
            assert(t.to_set() =~= pages@.take(j as int).to_set().insert(page)) by {
                pages@.take(j as int).lemma_push_to_set_commute(page);
                assert(t =~= pages@.take(j as int).push(page));
            }
            if j == 0 {
                assert(pages@.take(0).to_set() =~= Set::<PageNum>::empty());
                assert(sbi.ino_dir_page_tree.view() =~= s0.ino_dir_page_tree.view().insert(x, t.to_set()));
            } else {
                assert(sbi.ino_dir_page_tree.view() =~= s0.ino_dir_page_tree.view().insert(x, t.to_set()));
            }
        }
        j = j + 1;
    }
    proof {
        assert(pages@.take(j as int) =~= pages@);
    }
    Ok(())
}

/// The live entries in the directory pages of inode `x`.
pub open spec fn dir_entries(v: PmView, x: InodeNum) -> Seq<DentryInfo> {
    entries_of(v, owned_dir_pages(v, x, v.descs.len() as int))
}

/// Inode `y` is named by a live entry in a directory page of inode `x`.
pub open spec fn dir_child(v: PmView, x: InodeNum, y: InodeNum) -> bool {
    exists|i: int| 0 <= i < dir_entries(v, x).len() && #[trigger] dir_entries(v, x)[i].ino == y
}

/// Inode `y` is reached from the root through at most `n` live entries.
pub open spec fn reach_n(v: PmView, n: nat, y: InodeNum) -> bool
    decreases n, 0nat,
{
    if n == 0 {
        y == ROOT_INO
    } else {
        reach_n(v, (n - 1) as nat, y) || child_of_reached(v, (n - 1) as nat, y)
    }
}

/// Inode `y` is named by a live entry of an inode reached through at most
/// `n` live entries.
pub open spec fn child_of_reached(v: PmView, n: nat, y: InodeNum) -> bool
    decreases n, 1nat,
{
    exists|x: InodeNum| reach_n(v, n, x) && #[trigger] dir_child(v, x, y)
}

/// Inode `y` is reached from the root through live entries.
pub open spec fn reachable(v: PmView, y: InodeNum) -> bool {
    exists|n: nat| #[trigger] reach_n(v, n, y)
}

/// What walking the tree leaves in the indexes, for the inodes `done`.
pub open spec fn indexes_for(s: SbInfo, v: PmView, done: Set<InodeNum>) -> bool {
    let n = v.descs.len() as int;
    &&& forall|x: InodeNum| #[trigger] s.ino_dir_page_tree.view().contains_key(x) == (done.contains(x)
        && owned_dir_pages(v, x, n).len() > 0)
    &&& forall|x: InodeNum| #[trigger] s.ino_dir_page_tree.view().contains_key(x) ==> s.ino_dir_page_tree.view()[x]
        == owned_dir_pages(v, x, n).to_set()
    &&& forall|x: InodeNum| #[trigger] s.ino_dentry_tree.view().contains_key(x) == (done.contains(x)
        && dir_entries(v, x).len() > 0)
    &&& forall|x: InodeNum| #[trigger] s.ino_dentry_tree.view().contains_key(x) ==> s.ino_dentry_tree.view()[x]
        == entry_map(dir_entries(v, x))
    &&& forall|x: InodeNum| #[trigger] s.ino_data_page_tree.view().contains_key(x) == (done.contains(x)
        && owned_data_pages(v, x, n).len() > 0)
    &&& forall|x: InodeNum| #[trigger] s.ino_data_page_tree.view().contains_key(x) ==> s.ino_data_page_tree.view()[x]
        == data_map(v, x, owned_data_pages(v, x, n))
}

pub(crate) proof fn lemma_reach_step(v: PmView, x: InodeNum, y: InodeNum)
    requires
        reachable(v, x),
        dir_child(v, x, y),
    ensures
        reachable(v, y),
{
    let m = choose|m: nat| #[trigger] reach_n(v, m, x);
    assert(reach_n(v, m, x));
    assert(child_of_reached(v, m, y));
    let m1 = (m + 1) as nat;
    assert((m1 - 1) as nat == m);
    assert(reach_n(v, m1, y));
}

pub(crate) proof fn lemma_closed_contains_reachable(v: PmView, done: Set<InodeNum>, n: nat, y: InodeNum)
    requires
        done.contains(ROOT_INO),
        forall|x: InodeNum, z: InodeNum| #[trigger] done.contains(x) && #[trigger] dir_child(v, x, z) ==> done.contains(z),
        reach_n(v, n, y),
    ensures
        done.contains(y),
    decreases n,
{
    if n > 0 {
        let n1 = (n - 1) as nat;
        if reach_n(v, n1, y) {
            lemma_closed_contains_reachable(v, done, n1, y);
        } else {
            assert(child_of_reached(v, n1, y));
            let x = choose|x: InodeNum| reach_n(v, n1, x) && #[trigger] dir_child(v, x, y);
            lemma_closed_contains_reachable(v, done, n1, x);
        }
    }
}

/// Walks the directory tree from the root through live entries: each inode
/// reached is processed once, its directory pages, live entries and data
/// pages going into the indexes and the inodes its entries name into the
/// queue.
fn walk_tree(
    sbi: &mut SbInfo,
    init_dir_pages: &SortedMap<InodeNum, Vec<PageNum>>,
    init_data_pages: &SortedMap<InodeNum, Vec<PageNum>>,
) -> (r: Result<(), Error>)
    requires
        old(sbi).wf(),
        old(sbi).dev@.descs.len() + DATA_PAGE_START <= u64::MAX,
        page_lists_ok(*init_dir_pages, old(sbi).dev@, old(sbi).dev@.descs.len() as int, true),
        page_lists_ok(*init_data_pages, old(sbi).dev@, old(sbi).dev@.descs.len() as int, false),
        old(sbi).ino_dentry_tree.view() == Map::<InodeNum, Map<FileName, DentryInfo>>::empty(),
        old(sbi).ino_dir_page_tree.view() == Map::<InodeNum, Set<PageNum>>::empty(),
        old(sbi).ino_data_page_tree.view() == Map::<InodeNum, Map<u64, DataPageInfo>>::empty(),
    ensures
        r is Ok,
        final(sbi).wf(),
        *final(sbi) == (SbInfo {
            ino_dentry_tree: final(sbi).ino_dentry_tree,
            ino_dir_page_tree: final(sbi).ino_dir_page_tree,
            ino_data_page_tree: final(sbi).ino_data_page_tree,
            ..*old(sbi)
        }),
        indexes_for(*final(sbi), old(sbi).dev@, Set::new(|y: InodeNum| reachable(old(sbi).dev@, y))),
{
    let ghost s0 = *sbi;
    let ghost v = s0.dev@;
    let ghost n = v.descs.len() as int;
    let mut live_inode_vec: Vec<InodeNum> = Vec::new();
    live_inode_vec.push(ROOT_INO);
    let mut processed: SortedMap<InodeNum, ()> = SortedMap::new();
    proof {
        assert(reach_n(v, 0, ROOT_INO));
        assert(live_inode_vec@[0] == ROOT_INO);
        assert(indexes_for(*sbi, v, processed.view().dom()));
    }
    while live_inode_vec.len() > 0
        invariant
            sbi.wf(),
            s0.wf(),
            v == s0.dev@,
            n == v.descs.len(),
            v.descs.len() + DATA_PAGE_START <= u64::MAX,
            *sbi == (SbInfo {
                ino_dentry_tree: sbi.ino_dentry_tree,
                ino_dir_page_tree: sbi.ino_dir_page_tree,
                ino_data_page_tree: sbi.ino_data_page_tree,
                ..s0
            }),
            page_lists_ok(*init_dir_pages, v, n, true),
            page_lists_ok(*init_data_pages, v, n, false),
            processed.wf(),
            forall|y: InodeNum| #[trigger] processed.view().contains_key(y) ==> reachable(v, y),
            forall|j: int| 0 <= j < live_inode_vec@.len() ==> reachable(v, #[trigger] live_inode_vec@[j]),
            forall|x: InodeNum, z: InodeNum|
                #[trigger] processed.view().contains_key(x) && #[trigger] dir_child(v, x, z) ==> processed.view().contains_key(z)
                    || live_inode_vec@.contains(z),
            processed.view().contains_key(ROOT_INO) || live_inode_vec@.contains(ROOT_INO),
            indexes_for(*sbi, v, processed.view().dom()),
        decreases 0x1_0000_0000_0000_0000 - processed.view().dom().len(), live_inode_vec@.len(),
    {
        let ghost q0 = live_inode_vec@;
        let live_inode = live_inode_vec.remove(0);
        proof {
            assert forall|z: InodeNum| q0.contains(z) && z != live_inode implies live_inode_vec@.contains(z) by {
                let j = choose|j: int| 0 <= j < q0.len() && q0[j] == z;
                assert(live_inode_vec@[j - 1] == z);
            }
            assert(reachable(v, q0[0]));
        }
        if processed.contains_key(&live_inode) {
            proof {
                assert forall|x: InodeNum, z: InodeNum|
                    #[trigger] processed.view().contains_key(x) && #[trigger] dir_child(v, x, z) implies processed.view().contains_key(z)
                        || live_inode_vec@.contains(z) by {
                    if !processed.view().contains_key(z) {
                        assert(q0.contains(z));
                    }
                }
                if !processed.view().contains_key(ROOT_INO) {
                    assert(q0.contains(ROOT_INO));
                }
            }
            continue;
        }
        let ghost qa = live_inode_vec@;
        let ghost sa = *sbi;
        proof {
            lemma_owned_pages(v, live_inode, n);
            assert(!sbi.ino_dentry_tree.view().contains_key(live_inode));
            assert(!sbi.ino_dir_page_tree.view().contains_key(live_inode));
            assert(!sbi.ino_data_page_tree.view().contains_key(live_inode));
        }
        let owned_dir = init_dir_pages.get(&live_inode);
        if let Some(pages) = owned_dir {
            index_dir_pages(sbi, live_inode, pages, &mut live_inode_vec)?;
        }
        let ghost sb = *sbi;
        proof {
            if owned_dir is None {
                assert(owned_dir_pages(v, live_inode, n).len() == 0);
                assert(entries_of(v, owned_dir_pages(v, live_inode, n)) =~= Seq::<DentryInfo>::empty());
            }
            assert(live_inode_vec@ == qa + inos_of(dir_entries(v, live_inode)));
        }
        let owned_data = init_data_pages.get(&live_inode);
        if let Some(pages) = owned_data {
            proof {
                assert forall|j: int| 0 <= j < pages@.len() implies #[trigger] pages@[j] >= DATA_PAGE_START by {
                    assert(owns_data_page(v, live_inode, pages@[j] as int));
                }
            }
            let tree = match build_tree(&sbi.dev, live_inode, pages) {
                Ok(t) => t,
                Err(_) => {
                    proof {
                        let j = choose|j: int| 0 <= j < pages@.len() && !data_page_readable(v, #[trigger] pages@[j] as int);
                        assert(owns_data_page(v, live_inode, pages@[j] as int));
                    }
                    vstd::pervasive::unreached()
                },
            };
            sbi.ino_data_page_tree.insert_inode(live_inode, tree)?;
        }
        let ghost pd0 = processed.view().dom();
        proof {
            processed.lemma_wf();
        }
        processed.insert(live_inode, ());
        proof {
            assert(processed.view().dom() =~= pd0.insert(live_inode));
            processed.lemma_wf();
            crate::allocator::lemma_range_set_len(0, 0x1_0000_0000_0000_0000);
            assert(processed.view().dom().subset_of(crate::allocator::range_set(0, 0x1_0000_0000_0000_0000)));
            vstd::set_lib::lemma_len_subset(processed.view().dom(), crate::allocator::range_set(0, 0x1_0000_0000_0000_0000));
            assert(reachable(v, live_inode));
            let es = dir_entries(v, live_inode);
            assert forall|j: int| 0 <= j < live_inode_vec@.len() implies reachable(v, #[trigger] live_inode_vec@[j]) by {
                if j >= qa.len() {
                    let i = j - qa.len();
                    assert(live_inode_vec@[j] == es[i].ino);
                    assert(dir_child(v, live_inode, es[i].ino));
                    lemma_reach_step(v, live_inode, es[i].ino);
                } else {
                    assert(live_inode_vec@[j] == qa[j]);
                }
            }
            assert forall|x: InodeNum, z: InodeNum|
                #[trigger] processed.view().contains_key(x) && #[trigger] dir_child(v, x, z) implies processed.view().contains_key(z)
                    || live_inode_vec@.contains(z) by {
                if x == live_inode {
                    let i = choose|i: int| 0 <= i < es.len() && #[trigger] es[i].ino == z;
                    assert(live_inode_vec@[qa.len() + i] == z);
                } else {
                    if !processed.view().contains_key(z) && z != live_inode {
                        assert(q0.contains(z));
                        assert(qa.contains(z));
                        let j = choose|j: int| 0 <= j < qa.len() && qa[j] == z;
                        assert(live_inode_vec@[j] == z);
                    }
                }
            }
            if !processed.view().contains_key(ROOT_INO) {
                assert(qa.contains(ROOT_INO));
                let j = choose|j: int| 0 <= j < qa.len() && qa[j] == ROOT_INO;
                assert(live_inode_vec@[j] == ROOT_INO);
            }
        }
    }
    proof {
        let done = processed.view().dom();
        assert forall|y: InodeNum| reachable(v, y) implies done.contains(y) by {
            let m = choose|m: nat| #[trigger] reach_n(v, m, y);
            lemma_closed_contains_reachable(v, done, m, y);
        }
        assert(done =~= Set::new(|y: InodeNum| reachable(v, y)));
    }
    Ok(())
}

proof fn lemma_used_inos(v: PmView, k: int)
    ensures
        k >= 0 ==> used_inos(v, k).len() <= k,
    decreases k,
{
    if k > 0 {
        lemma_used_inos(v, k - 1);
    }
}

proof fn lemma_used_pages(v: PmView, k: int)
    requires
        0 <= k <= v.descs.len(),
        v.descs.len() + DATA_PAGE_START <= u64::MAX,
    ensures
        forall|i: int| 0 <= i < used_pages(v, k).len() ==> DATA_PAGE_START <= #[trigger] used_pages(v, k)[i] < k
            + DATA_PAGE_START,
        forall|i: int, j: int| 0 <= i < j < used_pages(v, k).len() ==> used_pages(v, k)[i] < used_pages(v, k)[j],
        used_pages(v, k).len() <= k,
    decreases k,
{
    if k > 0 {
        lemma_used_pages(v, k - 1);
        let prev = used_pages(v, k - 1);
        assert forall|i: int| 0 <= i < used_pages(v, k).len() implies DATA_PAGE_START <= #[trigger] used_pages(v, k)[i] < k
            + DATA_PAGE_START by {
            if i < prev.len() {
                assert(used_pages(v, k)[i] == prev[i]);
            }
        }
        assert forall|i: int, j: int| 0 <= i < j < used_pages(v, k).len() implies used_pages(v, k)[i] < used_pages(v, k)[j] by {
            if j < prev.len() {
                assert(used_pages(v, k)[i] == prev[i]);
                assert(used_pages(v, k)[j] == prev[j]);
            } else {
                assert(used_pages(v, k)[i] == prev[i]);
            }
        }
    }
}

proof fn lemma_live_infos(v: PmView, p: PageNum, k: int)
    requires
        k <= DENTRIES_PER_PAGE,
    ensures
        forall|i: int| 0 <= i < live_infos(v, p, k).len() ==> (#[trigger] live_infos(v, p, k)[i]).loc.page_no == p
            && live_infos(v, p, k)[i].loc.slot < DENTRIES_PER_PAGE,
    decreases k,
{
    if k > 0 {
        lemma_live_infos(v, p, k - 1);
        let prev = live_infos(v, p, k - 1);
        assert forall|i: int| 0 <= i < live_infos(v, p, k).len() implies (#[trigger] live_infos(v, p, k)[i]).loc.page_no == p
            && live_infos(v, p, k)[i].loc.slot < DENTRIES_PER_PAGE by {
            if i < prev.len() {
                assert(live_infos(v, p, k)[i] == prev[i]);
            }
        }
    }
}

proof fn lemma_entries_of(v: PmView, pages: Seq<PageNum>)
    ensures
        forall|i: int| 0 <= i < entries_of(v, pages).len() ==> pages.contains((#[trigger] entries_of(v, pages)[i]).loc.page_no)
            && entries_of(v, pages)[i].loc.slot < DENTRIES_PER_PAGE,
    decreases pages.len(),
{
    if pages.len() > 0 {
        let prev = pages.drop_last();
        lemma_entries_of(v, prev);
        lemma_live_infos(v, pages.last(), DENTRIES_PER_PAGE as int);
        let es = entries_of(v, pages);
        let pe = entries_of(v, prev);
        assert forall|i: int| 0 <= i < es.len() implies pages.contains((#[trigger] es[i]).loc.page_no) && es[i].loc.slot
            < DENTRIES_PER_PAGE by {
            if i < pe.len() {
                assert(es[i] == pe[i]);
                let j = choose|j: int| 0 <= j < prev.len() && prev[j] == pe[i].loc.page_no;
                assert(pages[j] == prev[j]);
            } else {
                assert(es[i] == live_infos(v, pages.last(), DENTRIES_PER_PAGE as int)[i - pe.len()]);
                assert(pages[pages.len() - 1] == pages.last());
            }
        }
    }
}

proof fn lemma_entry_map(es: Seq<DentryInfo>)
    ensures
        forall|k: FileName| #[trigger] entry_map(es).contains_key(k) ==> entry_map(es)[k].name == k && exists|i: int|
            0 <= i < es.len() && es[i] == entry_map(es)[k],
    decreases es.len(),
{
    if es.len() > 0 {
        let prev = es.drop_last();
        lemma_entry_map(prev);
        assert forall|k: FileName| #[trigger] entry_map(es).contains_key(k) implies entry_map(es)[k].name == k && exists|i: int|
            0 <= i < es.len() && es[i] == entry_map(es)[k] by {
            if k == es.last().name {
                assert(es[es.len() - 1] == entry_map(es)[k]);
            } else {
                assert(entry_map(prev).contains_key(k));
                let i = choose|i: int| 0 <= i < prev.len() && prev[i] == entry_map(prev)[k];
                assert(es[i] == prev[i]);
            }
        }
    }
}

proof fn lemma_data_map(v: PmView, x: InodeNum, pages: Seq<PageNum>)
    ensures
        forall|o: u64| #[trigger] data_map(v, x, pages).contains_key(o) ==> pages.contains(data_map(v, x, pages)[o].page_no),
    decreases pages.len(),
{
    if pages.len() > 0 {
        let prev = pages.drop_last();
        lemma_data_map(v, x, prev);
        assert forall|o: u64| #[trigger] data_map(v, x, pages).contains_key(o) implies pages.contains(data_map(v, x, pages)[o].page_no) by {
            if o == v.desc(pages.last() as int).offset {
                assert(pages[pages.len() - 1] == pages.last());
            } else {
                assert(data_map(v, x, prev).contains_key(o));
                let j = choose|j: int| 0 <= j < prev.len() && prev[j] == data_map(v, x, prev)[o].page_no;
                assert(pages[j] == prev[j]);
            }
        }
    }
}

/// Mounts the file system the device holds: scans the inode table and the
/// page descriptor table, counting the inodes and pages in use, walks the
/// directory tree from the root to fill the indexes of inodes not in
/// memory, and rebuilds the page allocator and the inode allocator from
/// what is in use.  A table of inode numbers in use that is not in
/// increasing order is refused.
pub fn remount_fs(sbi: &mut SbInfo) -> (r: Result<(), Error>)
    requires
        old(sbi).wf(),
        old(sbi).geometry_ok(),
        old(sbi).ino_dentry_tree.view() == Map::<InodeNum, Map<FileName, DentryInfo>>::empty(),
        old(sbi).ino_dir_page_tree.view() == Map::<InodeNum, Set<PageNum>>::empty(),
        old(sbi).ino_data_page_tree.view() == Map::<InodeNum, Map<u64, DataPageInfo>>::empty(),
        old(sbi).inodes_in_use + NUM_INODES <= u64::MAX,
        old(sbi).blocks_in_use + old(sbi).dev@.descs.len() <= u64::MAX,
    ensures
        final(sbi).wf(),
        final(sbi).geometry_ok(),
        *final(sbi) == (SbInfo {
            inodes_in_use: final(sbi).inodes_in_use,
            blocks_in_use: final(sbi).blocks_in_use,
            ino_dentry_tree: final(sbi).ino_dentry_tree,
            ino_dir_page_tree: final(sbi).ino_dir_page_tree,
            ino_data_page_tree: final(sbi).ino_data_page_tree,
            page_allocator: final(sbi).page_allocator,
            inode_allocator: final(sbi).inode_allocator,
            ..*old(sbi)
        }),
        ({
            let v = old(sbi).dev@;
            let n = v.descs.len() as int;
            &&& final(sbi).inodes_in_use == old(sbi).inodes_in_use + used_inos(v, NUM_INODES as int).len()
            &&& final(sbi).blocks_in_use == old(sbi).blocks_in_use + used_pages(v, n).len()
            &&& indexes_for(*final(sbi), v, Set::new(|y: InodeNum| reachable(v, y)))
            &&& final(sbi).page_allocator is Some
            &&& final(sbi).free_pages() == free_from_alloc_vec(
                used_pages(v, n),
                DATA_PAGE_START,
                describable_end(old(sbi).num_blocks) as u64,
            )
            &&& match r {
                Ok(()) => {
                    &&& final(sbi).trees_ok()
                    &&& (inodes_numbered(v) ==> final(sbi).alloc_agrees())
                    &&& alloc_vec_ok(used_inos(v, NUM_INODES as int), ROOT_INO, NUM_INODES)
                    &&& final(sbi).inode_allocator.free_inos() == free_from_alloc_vec(
                        used_inos(v, NUM_INODES as int),
                        ROOT_INO,
                        NUM_INODES,
                    )
                },
                Err(e) => e == Error::EINVAL && !alloc_vec_ok(used_inos(v, NUM_INODES as int), ROOT_INO, NUM_INODES),
            }
        }),
{
    let ghost s0 = *sbi;
    let ghost v = s0.dev@;
    let ghost n = v.descs.len() as int;
    let alloc_inode_vec = scan_inodes(sbi);
    proof {
        lemma_used_inos(v, NUM_INODES as int);
        lemma_used_pages(v, n);
    }
    let (alloc_page_vec, init_dir_pages, init_data_pages) = scan_pages(sbi);
    walk_tree(sbi, &init_dir_pages, &init_data_pages)?;
    let ghost s1 = *sbi;
    let bound = if crate::defs::NUM_PAGE_DESCRIPTORS < sbi.num_blocks {
        crate::defs::NUM_PAGE_DESCRIPTORS
    } else {
        sbi.num_blocks
    };
    proof {
        lemma_used_pages(v, n);
        assert(alloc_vec_ok(alloc_page_vec@, DATA_PAGE_START, bound)) by {
            assert forall|i: int|
                0 <= i < alloc_page_vec@.len() && #[trigger] crate::allocator::merge_reaches(alloc_page_vec@, DATA_PAGE_START, bound, i)
                    implies crate::allocator::merge_bound(alloc_page_vec@, DATA_PAGE_START, i) <= alloc_page_vec@[i] by {
                if i > 0 {
                    assert(alloc_page_vec@[i - 1] < alloc_page_vec@[i]);
                }
            }
        }
    }
    let a = match PerCpuPageAllocator::new_from_alloc_vec(alloc_page_vec, DATA_PAGE_START, bound, sbi.cpus) {
        Ok(a) => a,
        Err(_) => vstd::pervasive::unreached(),
    };
    proof {
        assert(bound == describable_end(s0.num_blocks));
        assert forall|p: PageNum| #[trigger] a.free_pages().contains(p) implies sbi.dev@.has_page(p as int) by {
            assert(free_from_alloc_vec(used_pages(v, n), DATA_PAGE_START, bound).contains(p));
        }
    }
    sbi.page_allocator = Some(a);
    let ghost s2 = *sbi;
    proof {
        assert(sbi.wf());
        assert forall|p: PageNum| sbi.dev@.has_page(p as int) implies #[trigger] sbi.page_ok(p) by {}
        assert forall|i: InodeNum, p: PageNum|
            #[trigger] sbi.ino_dir_page_tree.view().contains_key(i) && #[trigger] sbi.ino_dir_page_tree.view()[i].contains(p)
                implies sbi.page_ok(p) by {
            lemma_owned_pages(v, i, n);
            let ps = owned_dir_pages(v, i, n);
            assert(ps.to_set().contains(p));
            let j = choose|j: int| 0 <= j < ps.len() && ps[j] == p;
            assert(owns_dir_page(v, i, ps[j] as int));
        }
        assert forall|i: InodeNum, o: u64|
            #[trigger] sbi.ino_data_page_tree.view().contains_key(i) && #[trigger] sbi.ino_data_page_tree.view()[i].contains_key(o)
                implies sbi.page_ok(sbi.ino_data_page_tree.view()[i][o].page_no) by {
            lemma_owned_pages(v, i, n);
            let ps = owned_data_pages(v, i, n);
            lemma_data_map(v, i, ps);
            let p = sbi.ino_data_page_tree.view()[i][o].page_no;
            let j = choose|j: int| 0 <= j < ps.len() && ps[j] == p;
            assert(owns_data_page(v, i, ps[j] as int));
        }
        assert forall|i: InodeNum, k: FileName|
            #[trigger] sbi.ino_dentry_tree.view().contains_key(i) && #[trigger] sbi.ino_dentry_tree.view()[i].contains_key(k)
                implies sbi.ino_dir_page_tree.view().contains_key(i) && sbi.ino_dir_page_tree.view()[i].contains(
                sbi.ino_dentry_tree.view()[i][k].loc.page_no,
            ) && sbi.ino_dentry_tree.view()[i][k].loc.slot < DENTRIES_PER_PAGE && sbi.ino_dentry_tree.view()[i][k].name == k by {
            let ps = owned_dir_pages(v, i, n);
            let es = dir_entries(v, i);
            lemma_entry_map(es);
            lemma_entries_of(v, ps);
            let e = entry_map(es)[k];
            let j = choose|j: int| 0 <= j < es.len() && es[j] == e;
            assert(ps.contains(es[j].loc.page_no));
            if ps.len() == 0 {
                assert(es =~= Seq::<DentryInfo>::empty());
            }
            assert(ps.to_set().contains(es[j].loc.page_no));
            assert(sbi.ino_dir_page_tree.view().contains_key(i));
        }
        assert(sbi.trees_ok());
    }
    let ia = RBInodeAllocator::new_from_alloc_vec(alloc_inode_vec, ROOT_INO)?;
    sbi.inode_allocator = ia;
    proof {
        if inodes_numbered(v) {
            lemma_mount_agrees(v);
            assert(describable_end(s0.num_blocks) == DATA_PAGE_START + n);
            assert(sbi.dev@ == v);
            assert forall|i: InodeNum| #[trigger] sbi.inode_allocator.free_inos().contains(i) implies 0 < i < NUM_INODES
                && inode_free(sbi.dev@.inodes[i as int]) by {
                assert(free_from_alloc_vec(used_inos(v, NUM_INODES as int), ROOT_INO, NUM_INODES).contains(i));
            }
            assert forall|p: PageNum| #[trigger] sbi.free_pages().contains(p) implies desc_free(sbi.dev@.desc(p as int)) by {
                assert(free_from_alloc_vec(used_pages(v, n), DATA_PAGE_START, (DATA_PAGE_START + v.descs.len()) as u64).contains(p));
            }
        }
    }
    Ok(())
}

/// The root directory a format creates: two links, a page-sized size,
/// mode `mode | S_IFDIR`, owner `uid`/`gid` and all times `now`.
pub open spec fn root_inode_spec(uid: u32, gid: u32, mode: u16, now: Timespec) -> HayleyFsInode {
    HayleyFsInode {
        inode_type: InodeType::DIR,
        link_count: 2,
        mode: mode | S_IFDIR,
        uid,
        gid,
        ctime: now,
        atime: now,
        mtime: now,
        blocks: 0,
        size: HAYLEYFS_PAGESIZE,
        ino: ROOT_INO,
    }
}

impl HayleyFsInode {
    /// Writes the root directory into inode slot `ROOT_INO`, owned by the
    /// mount's `uid`/`gid`, with the mount's mode and all times `now`.
    pub fn init_root_inode(sbi: &mut SbInfo, now: Timespec) -> (r: Result<HayleyFsInode, Error>)
        requires
            old(sbi).wf(),
        ensures
            final(sbi).wf(),
            *final(sbi) == (SbInfo { dev: final(sbi).dev, ..*old(sbi) }),
            r matches Ok(i) && i == root_inode_spec(old(sbi).uid, old(sbi).gid, old(sbi).mode, now),
            final(sbi).dev@ == with_inode(old(sbi).dev@, ROOT_INO, root_inode_spec(old(sbi).uid, old(sbi).gid, old(sbi).mode, now)),
    {
        let mut root_ino = crate::inode::get_inode_by_ino(&sbi.dev, ROOT_INO)?;
        root_ino.ino = ROOT_INO;
        root_ino.link_count = 2;
        root_ino.size = HAYLEYFS_PAGESIZE;
        root_ino.inode_type = InodeType::DIR;
        root_ino.uid = sbi.uid;
        root_ino.gid = sbi.gid;
        root_ino.blocks = 0;
        root_ino.mode = sbi.mode | S_IFDIR;
        root_ino.ctime = now;
        root_ino.atime = now;
        root_ino.mtime = now;
        sbi.dev.set_inode(ROOT_INO, root_ino);
        Ok(root_ino)
    }
}

/// Writes the device size into the super block.
pub fn init_super_block(dev: &mut PmDevice, size: i64)
    requires
        old(dev).wf(),
    ensures
        final(dev).wf(),
        final(dev)@ == (PmView { size, ..old(dev)@ }),
{
    dev.set_size(size);
}

/// Formats the device: zeroes it, writes the root directory (see
/// `init_root_inode`) and the super block.  Returns the root inode.
pub fn init_fs(sbi: &mut SbInfo, now: Timespec) -> (r: Result<HayleyFsInode, Error>)
    requires
        old(sbi).wf(),
    ensures
        final(sbi).wf(),
        *final(sbi) == (SbInfo { dev: final(sbi).dev, ..*old(sbi) }),
        r matches Ok(i) && i == root_inode_spec(old(sbi).uid, old(sbi).gid, old(sbi).mode, now),
        ({
            let v = final(sbi).dev@;
            &&& v.size == old(sbi).size
            &&& v.descs.len() == old(sbi).dev@.descs.len()
            &&& v.inodes[ROOT_INO as int] == root_inode_spec(old(sbi).uid, old(sbi).gid, old(sbi).mode, now)
            &&& forall|i: int| 0 <= i < NUM_INODES && i != ROOT_INO ==> #[trigger] v.inodes[i] == zero_inode_spec()
            &&& forall|i: int| 0 <= i < v.descs.len() ==> desc_free(#[trigger] v.descs[i])
            &&& forall|i: int, j: int| 0 <= i < v.descs.len() && 0 <= j < DENTRIES_PER_PAGE ==> dentry_free(#[trigger] v.dirs[i][j])
            &&& forall|i: int, j: int| 0 <= i < v.descs.len() && 0 <= j < HAYLEYFS_PAGESIZE ==> #[trigger] v.data[i][j] == 0
            &&& formatted(v, root_inode_spec(old(sbi).uid, old(sbi).gid, old(sbi).mode, now))
        }),
{
    let ghost s0 = *sbi;
    memset_nt(&mut sbi.dev);
    proof {
        assert forall|p: PageNum| #[trigger] sbi.free_pages().contains(p) implies sbi.dev@.has_page(p as int) by {
            assert(s0.dev@.has_page(p as int));
        }
    }
    let pi = HayleyFsInode::init_root_inode(sbi, now)?;
    let size = sbi.get_size();
    init_super_block(&mut sbi.dev, size);
    proof {
        assert forall|p: PageNum| #[trigger] sbi.free_pages().contains(p) implies sbi.dev@.has_page(p as int) by {
            assert(s0.dev@.has_page(p as int));
        }
    }
    Ok(pi)
}

/// `blksize_bits` of the kernel: 9 for sizes up to 512, one more for each
/// halving above.
pub open spec fn blksize_bits_spec(size: nat) -> nat
    decreases size,
{
    if size / 2 > 256 {
        1 + blksize_bits_spec(size / 2)
    } else {
        9
    }
}

proof fn lemma_blksize_bits_bound(x: nat)
    ensures
        9 <= blksize_bits_spec(x) <= 9 + x / 512,
    decreases x,
{
    if x / 2 > 256 {
        lemma_blksize_bits_bound(x / 2);
        assert(1 + (x / 2) / 512 <= x / 512) by (nonlinear_arith)
            requires x / 2 > 256;
    }
}

/// The number of bits of a block size, as the kernel's `blksize_bits`.
pub fn blksize_bits(size: u32) -> (r: u32)
    ensures
        r == blksize_bits_spec(size as nat),
{
    proof {
        lemma_blksize_bits_bound(size as nat);
    }
    let mut bits: u32 = 9;
    let mut s: u32 = size;
    while s / 2 > 256
        invariant
            9 <= bits,
            bits + blksize_bits_spec(s as nat) == 9 + blksize_bits_spec(size as nat),
            blksize_bits_spec(size as nat) <= 9 + size / 512,
        decreases s,
    {
        proof {
            lemma_blksize_bits_bound((s / 2) as nat);
        }
        s = s / 2;
        bits = bits + 1;
    }
    bits
}

/// What an in-memory inode is given from its persistent inode.
#[derive(Clone, Copy)]
pub struct VfsInodeAttrs {
    pub ino: InodeNum,
    pub size: i64,
    pub nlink: u32,
    pub mode: u16,
    pub blocks: u64,
    pub uid: u32,
    pub gid: u32,
    pub atime: Timespec,
    pub ctime: Timespec,
    pub mtime: Timespec,
    pub blkbits: u8,
}

/// The attributes of in-memory inode `ino` whose persistent inode is `i`,
/// on a file system of block size `blocksize`.
pub open spec fn attrs_of(ino: InodeNum, i: HayleyFsInode, blocksize: i64) -> VfsInodeAttrs {
    VfsInodeAttrs {
        ino,
        size: i.size as i64,
        nlink: i.link_count as u32,
        mode: i.mode,
        blocks: i.blocks,
        uid: i.uid,
        gid: i.gid,
        atime: i.atime,
        ctime: i.ctime,
        mtime: i.mtime,
        blkbits: blksize_bits_spec(blocksize as nat) as u8,
    }
}

/// The attributes handed to an in-memory inode carry each persistent
/// field unchanged: its three times each from its own field, its owner,
/// group, mode, link count, size and block count, and the inode number
/// asked for.
pub proof fn lemma_attrs_keep_fields(ino: InodeNum, i: HayleyFsInode, blocksize: i64)
    requires
        i.size <= i64::MAX,
    ensures
        attrs_of(ino, i, blocksize).atime == i.atime,
        attrs_of(ino, i, blocksize).ctime == i.ctime,
        attrs_of(ino, i, blocksize).mtime == i.mtime,
        attrs_of(ino, i, blocksize).uid == i.uid,
        attrs_of(ino, i, blocksize).gid == i.gid,
        attrs_of(ino, i, blocksize).mode == i.mode,
        attrs_of(ino, i, blocksize).nlink == i.link_count,
        attrs_of(ino, i, blocksize).size == i.size,
        attrs_of(ino, i, blocksize).blocks == i.blocks,
        attrs_of(ino, i, blocksize).ino == ino,
{
}

/// The attributes can be handed over: the size fits the in-memory size,
/// the block size and its bit count fit their fields.
pub open spec fn attrs_fit(i: HayleyFsInode, blocksize: i64) -> bool {
    &&& i.size <= i64::MAX
    &&& 0 <= blocksize <= u32::MAX
    &&& blksize_bits_spec(blocksize as nat) <= u8::MAX
}

/// The attributes of in-memory inode `ino`, copied from persistent inode
/// `pi`; a size or block size that does not fit is refused.
pub fn vfs_inode_attrs(ino: InodeNum, pi: &HayleyFsInode, blocksize: i64) -> (r: Result<VfsInodeAttrs, Error>)
    ensures
        (match r {
            Ok(a) => {
                &&& attrs_fit(*pi, blocksize)
                &&& a == attrs_of(ino, *pi, blocksize)
                &&& a.atime == pi.atime
                &&& a.ctime == pi.ctime
                &&& a.mtime == pi.mtime
                &&& a.uid == pi.uid
                &&& a.gid == pi.gid
            },
            Err(e) => e == Error::EINVAL && !attrs_fit(*pi, blocksize),
        }),
{
    if pi.get_size() > i64::MAX as u64 {
        return Err(Error::EINVAL);
    }
    if blocksize < 0 || blocksize > u32::MAX as i64 {
        return Err(Error::EINVAL);
    }
    let bits = blksize_bits(blocksize as u32);
    if bits > u8::MAX as u32 {
        return Err(Error::EINVAL);
    }
    Ok(VfsInodeAttrs {
        ino,
        size: pi.get_size() as i64,
        nlink: pi.get_link_count() as u32,
        mode: pi.get_mode(),
        blocks: pi.get_blocks(),
        uid: pi.get_uid(),
        gid: pi.get_gid(),
        atime: pi.get_atime(),
        ctime: pi.get_ctime(),
        mtime: pi.get_mtime(),
        blkbits: bits as u8,
    })
}

/// What `statfs` reports.
#[derive(Clone, Copy)]
pub struct KStatfs {
    pub f_type: i64,
    pub f_bsize: i64,
    pub f_blocks: u64,
    pub f_bfree: u64,
    pub f_bavail: u64,
    pub f_files: u64,
    pub f_ffree: u64,
    pub f_namelen: i64,
}

/// The file system's statistics: its magic number, block size and block
/// count, the blocks and inodes not in use, and the longest name.
pub fn statfs(sbi: &SbInfo) -> (r: KStatfs)
    requires
        sbi.blocks_in_use <= sbi.num_blocks,
        sbi.inodes_in_use <= NUM_INODES,
    ensures
        r == (KStatfs {
            f_type: SUPER_MAGIC,
            f_bsize: sbi.blocksize,
            f_blocks: sbi.num_blocks,
            f_bfree: (sbi.num_blocks - sbi.blocks_in_use) as u64,
            f_bavail: (sbi.num_blocks - sbi.blocks_in_use) as u64,
            f_files: NUM_INODES,
            f_ffree: (NUM_INODES - sbi.inodes_in_use) as u64,
            f_namelen: MAX_FILENAME_LEN as i64,
        }),
{
    KStatfs {
        f_type: SUPER_MAGIC,
        f_bsize: sbi.blocksize,
        f_blocks: sbi.num_blocks,
        f_bfree: sbi.num_blocks - sbi.get_pages_in_use(),
        f_bavail: sbi.num_blocks - sbi.get_pages_in_use(),
        f_files: NUM_INODES,
        f_ffree: NUM_INODES - sbi.get_inodes_in_use(),
        f_namelen: MAX_FILENAME_LEN as i64,
    }
}

/// Sets up the mounted file system and returns the attributes of its root:
/// with the `init` option the device is formatted (see `init_fs`),
/// otherwise the file system on it is mounted (see `remount_fs`).
pub fn fill_super(sbi: &mut SbInfo, now: Timespec) -> (r: Result<VfsInodeAttrs, Error>)
    requires
        old(sbi).wf(),
        old(sbi).geometry_ok(),
        old(sbi).ino_dentry_tree.view() == Map::<InodeNum, Map<FileName, DentryInfo>>::empty(),
        old(sbi).ino_dir_page_tree.view() == Map::<InodeNum, Set<PageNum>>::empty(),
        old(sbi).ino_data_page_tree.view() == Map::<InodeNum, Map<u64, DataPageInfo>>::empty(),
        old(sbi).inodes_in_use + NUM_INODES <= u64::MAX,
        old(sbi).blocks_in_use + old(sbi).dev@.descs.len() <= u64::MAX,
    ensures
        final(sbi).wf(),
        final(sbi).geometry_ok(),
        (match r {
            Ok(a) => {
                let root = final(sbi).dev@.inodes[ROOT_INO as int];
                &&& final(sbi).trees_ok()
                &&& attrs_fit(root, final(sbi).blocksize)
                &&& a == attrs_of(ROOT_INO, root, final(sbi).blocksize)
                &&& (old(sbi).mount_opts.init == Some(true) ==> {
                    &&& formatted(final(sbi).dev@, root_inode_spec(old(sbi).uid, old(sbi).gid, old(sbi).mode, now))
                    &&& *final(sbi) == (SbInfo { dev: final(sbi).dev, ..*old(sbi) })
                    &&& ((forall|i: InodeNum| #[trigger] old(sbi).inode_allocator.free_inos().contains(i) ==> ROOT_INO < i
                        < NUM_INODES) ==> final(sbi).alloc_agrees())
                })
                &&& (old(sbi).mount_opts.init != Some(true) ==> {
                    let v = old(sbi).dev@;
                    let n = v.descs.len() as int;
                    &&& *final(sbi) == (SbInfo {
                        inodes_in_use: final(sbi).inodes_in_use,
                        blocks_in_use: final(sbi).blocks_in_use,
                        ino_dentry_tree: final(sbi).ino_dentry_tree,
                        ino_dir_page_tree: final(sbi).ino_dir_page_tree,
                        ino_data_page_tree: final(sbi).ino_data_page_tree,
                        page_allocator: final(sbi).page_allocator,
                        inode_allocator: final(sbi).inode_allocator,
                        ..*old(sbi)
                    })
                    &&& final(sbi).inodes_in_use == old(sbi).inodes_in_use + used_inos(v, NUM_INODES as int).len()
                    &&& final(sbi).blocks_in_use == old(sbi).blocks_in_use + used_pages(v, n).len()
                    &&& indexes_for(*final(sbi), v, Set::new(|y: InodeNum| reachable(v, y)))
                    &&& final(sbi).free_pages() == free_from_alloc_vec(
                        used_pages(v, n),
                        DATA_PAGE_START,
                        describable_end(old(sbi).num_blocks) as u64,
                    )
                    &&& final(sbi).inode_allocator.free_inos() == free_from_alloc_vec(
                        used_inos(v, NUM_INODES as int),
                        ROOT_INO,
                        NUM_INODES,
                    )
                    &&& (inodes_numbered(v) ==> final(sbi).alloc_agrees())
                })
            },
            Err(e) => {
                let v = old(sbi).dev@;
                &&& e == Error::EINVAL
                &&& (old(sbi).mount_opts.init == Some(true) ==> !attrs_fit(
                    root_inode_spec(old(sbi).uid, old(sbi).gid, old(sbi).mode, now),
                    old(sbi).blocksize,
                ))
                &&& (old(sbi).mount_opts.init != Some(true) ==> {
                    ||| !alloc_vec_ok(used_inos(v, NUM_INODES as int), ROOT_INO, NUM_INODES)
                    ||| !attrs_fit(v.inodes[ROOT_INO as int], old(sbi).blocksize)
                })
            },
        }),
{
    if let Some(true) = sbi.mount_opts.init {
        let ghost s0 = *sbi;
        let pi = init_fs(sbi, now)?;
        proof {
            assert(sbi.trees_ok());
        }
        vfs_inode_attrs(ROOT_INO, &pi, sbi.blocksize)
    } else {
        remount_fs(sbi)?;
        let pi = crate::inode::get_inode_by_ino(&sbi.dev, ROOT_INO)?;
        vfs_inode_attrs(ROOT_INO, &pi, sbi.blocksize)
    }
}

/// The index an in-memory inode carries: the pages of a file or a
/// symbolic link, or the pages and entries of a directory.
pub enum InodeInfo {
    Reg(HayleyFsRegInodeInfo),
    Dir(HayleyFsDirInodeInfo),
    Symlink(HayleyFsRegInodeInfo),
}

/// The index `f` of file `ino` is what `s0` recorded for it, taken out of
/// the index of inodes not in memory.
pub open spec fn file_info_taken(s0: SbInfo, s1: SbInfo, ino: InodeNum, f: HayleyFsRegInodeInfo) -> bool {
    let data = s0.ino_data_page_tree.view();
    &&& s1.reg_info_ok(f)
    &&& f.spec_ino() == ino
    &&& f.view() == (if data.contains_key(ino) { data[ino] } else { Map::empty() })
    &&& s1.ino_data_page_tree.view() == data.remove(ino)
    &&& s1.ino_dir_page_tree == s0.ino_dir_page_tree
    &&& s1.ino_dentry_tree == s0.ino_dentry_tree
}

/// The index `info` that setting up in-memory inode `ino` hands out when
/// the state goes from `s0` to `s1`: a file's or a symbolic link's page map
/// is what `s0` recorded for it, a directory's page set and entries are
/// what `s0` recorded for it; what was recorded is taken out.
pub open spec fn iget_index(s0: SbInfo, s1: SbInfo, ino: InodeNum, info: InodeInfo) -> bool {
    let i = s0.dev@.inodes[ino as int];
    let dirs = s0.ino_dir_page_tree.view();
    let dentries = s0.ino_dentry_tree.view();
    match info {
        InodeInfo::Reg(f) => i.inode_type == InodeType::REG && file_info_taken(s0, s1, ino, f),
        InodeInfo::Symlink(f) => i.inode_type == InodeType::SYMLINK && file_info_taken(s0, s1, ino, f),
        InodeInfo::Dir(d) => {
            &&& i.inode_type == InodeType::DIR
            &&& !s1.ino_dentry_tree.view().contains_key(ino)
            &&& s1.dir_info_ok(d)
            &&& d.spec_ino() == ino
            &&& d.page_set() == (if dirs.contains_key(ino) { dirs[ino] } else { Set::empty() })
            &&& d.dentry_map() == (if dirs.contains_key(ino) && dentries.contains_key(ino) {
                dentries[ino]
            } else {
                Map::empty()
            })
            &&& s1.ino_dir_page_tree.view() == dirs.remove(ino)
            &&& s1.ino_dentry_tree.view() == (if dirs.contains_key(ino) {
                dentries.remove(ino)
            } else {
                dentries
            })
            &&& s1.ino_data_page_tree == s0.ino_data_page_tree
        },
    }
}

/// Sets up in-memory inode `ino`, which exists on the device: its
/// attributes come from its persistent inode, and its index is taken out
/// of the indexes of inodes not in memory (empty when nothing is recorded).
pub fn hayleyfs_iget(sbi: &mut SbInfo, ino: InodeNum) -> (r: Result<(VfsInodeAttrs, InodeInfo), Error>)
    requires
        old(sbi).wf(),
        old(sbi).trees_ok(),
        0 < ino < NUM_INODES ==> old(sbi).dev@.inodes[ino as int].inode_type != InodeType::NONE,
    ensures
        final(sbi).wf(),
        final(sbi).trees_ok(),
        *final(sbi) == (SbInfo {
            ino_data_page_tree: final(sbi).ino_data_page_tree,
            ino_dir_page_tree: final(sbi).ino_dir_page_tree,
            ino_dentry_tree: final(sbi).ino_dentry_tree,
            ..*old(sbi)
        }),
        (match r {
            Ok((a, info)) => {
                let i = old(sbi).dev@.inodes[ino as int];
                let data = old(sbi).ino_data_page_tree.view();
                let dirs = old(sbi).ino_dir_page_tree.view();
                let dentries = old(sbi).ino_dentry_tree.view();
                &&& 0 < ino < NUM_INODES
                &&& attrs_fit(i, old(sbi).blocksize)
                &&& a == attrs_of(ino, i, old(sbi).blocksize)
                &&& iget_index(*old(sbi), *final(sbi), ino, info)
            },
            Err(e) => {
                &&& e == Error::EINVAL
                &&& *final(sbi) == *old(sbi)
                &&& (ino == 0 || ino >= NUM_INODES || !attrs_fit(old(sbi).dev@.inodes[ino as int], old(sbi).blocksize))
            },
        }),
{
    let ghost s0 = *sbi;
    let pi = crate::inode::get_inode_by_ino(&sbi.dev, ino)?;
    let attrs = vfs_inode_attrs(ino, &pi, sbi.blocksize)?;
    let inode_type = pi.get_type();
    match inode_type {
        InodeType::REG | InodeType::SYMLINK => {
            let pages = sbi.ino_data_page_tree.remove(ino);
            let inode_info = match pages {
                Some(pages) => match HayleyFsRegInodeInfo::new_from_tree(ino, pages) {
                    Ok(i) => i,
                    Err(_) => vstd::pervasive::unreached(),
                },
                None => match HayleyFsRegInodeInfo::new(ino) {
                    Ok(i) => i,
                    Err(_) => vstd::pervasive::unreached(),
                },
            };
            proof {
                assert forall|k: u64| #[trigger] inode_info.view().contains_key(k) implies sbi.page_ok(inode_info.view()[k].page_no) by {
                    assert(s0.ino_data_page_tree.view().contains_key(ino));
                    assert(s0.ino_data_page_tree.view()[ino].contains_key(k));
                }
                assert forall|i: InodeNum, o: u64|
                    #[trigger] sbi.ino_data_page_tree.view().contains_key(i) && #[trigger] sbi.ino_data_page_tree.view()[i].contains_key(o)
                        implies sbi.page_ok(sbi.ino_data_page_tree.view()[i][o].page_no) by {
                    assert(s0.ino_data_page_tree.view().contains_key(i));
                    assert(s0.ino_data_page_tree.view()[i].contains_key(o));
                }
            }
            if inode_type == InodeType::REG {
                Ok((attrs, InodeInfo::Reg(inode_info)))
            } else {
                Ok((attrs, InodeInfo::Symlink(inode_info)))
            }
        },
        InodeType::DIR => {
            let pages = sbi.ino_dir_page_tree.remove(ino);
            let inode_info = match pages {
                Some(pages) => {
                    let dentries = sbi.ino_dentry_tree.remove(ino);
                    match dentries {
                        Some(dentries) => match HayleyFsDirInodeInfo::new_from_tree(ino, pages, dentries) {
                            Ok(i) => i,
                            Err(_) => vstd::pervasive::unreached(),
                        },
                        None => match HayleyFsDirInodeInfo::new_from_tree(ino, pages, SortedMap::new()) {
                            Ok(i) => i,
                            Err(_) => vstd::pervasive::unreached(),
                        },
                    }
                },
                None => match HayleyFsDirInodeInfo::new(ino) {
                    Ok(i) => i,
                    Err(_) => vstd::pervasive::unreached(),
                },
            };
            proof {
                assert forall|p: PageNum| #[trigger] inode_info.page_set().contains(p) implies sbi.page_ok(p) by {
                    assert(s0.ino_dir_page_tree.view().contains_key(ino));
                    assert(s0.ino_dir_page_tree.view()[ino].contains(p));
                }
                assert forall|k: FileName| #[trigger] inode_info.dentry_map().contains_key(k) implies inode_info.page_set().contains(
                    inode_info.dentry_map()[k].loc.page_no,
                ) && inode_info.dentry_map()[k].loc.slot < DENTRIES_PER_PAGE && inode_info.dentry_map()[k].name == k by {
                    assert(s0.ino_dentry_tree.view().contains_key(ino));
                    assert(s0.ino_dentry_tree.view()[ino].contains_key(k));
                }
                assert(!sbi.ino_dentry_tree.view().contains_key(ino));
                assert forall|i: InodeNum, p: PageNum|
                    #[trigger] sbi.ino_dir_page_tree.view().contains_key(i) && #[trigger] sbi.ino_dir_page_tree.view()[i].contains(p)
                        implies sbi.page_ok(p) by {
                    assert(s0.ino_dir_page_tree.view().contains_key(i));
                    assert(s0.ino_dir_page_tree.view()[i].contains(p));
                }
                assert forall|i: InodeNum, k: FileName|
                    #[trigger] sbi.ino_dentry_tree.view().contains_key(i) && #[trigger] sbi.ino_dentry_tree.view()[i].contains_key(k)
                        implies sbi.ino_dir_page_tree.view().contains_key(i) && sbi.ino_dir_page_tree.view()[i].contains(
                        sbi.ino_dentry_tree.view()[i][k].loc.page_no,
                    ) && sbi.ino_dentry_tree.view()[i][k].loc.slot < DENTRIES_PER_PAGE && sbi.ino_dentry_tree.view()[i][k].name == k by {
                    assert(s0.ino_dentry_tree.view().contains_key(i));
                    assert(s0.ino_dentry_tree.view()[i].contains_key(k));
                }
            }
            proof {
                let dirs = s0.ino_dir_page_tree.view();
                let dentries = s0.ino_dentry_tree.view();
                assert(inode_info.page_set() == (if dirs.contains_key(ino) { dirs[ino] } else { Set::empty() }));
                assert(inode_info.dentry_map() =~= (if dirs.contains_key(ino) && dentries.contains_key(ino) {
                    dentries[ino]
                } else {
                    Map::empty()
                }));
                assert(sbi.ino_dir_page_tree.view() == dirs.remove(ino));
                assert(sbi.ino_dentry_tree.view() == (if dirs.contains_key(ino) { dentries.remove(ino) } else { dentries }));
                assert forall|i: InodeNum| #[trigger] sbi.ino_dentry_tree.view().contains_key(i) implies sbi.ino_dir_page_tree.view().contains_key(i) by {
                    assert(s0.ino_dentry_tree.view().contains_key(i));
                }
                assert(sbi.trees_ok());
                assert(sbi.dir_info_ok(inode_info));
                assert(sbi.wf());
            }
            Ok((attrs, InodeInfo::Dir(inode_info)))
        },
        InodeType::NONE => vstd::pervasive::unreached(),
    }
}

/// Sets up the in-memory inode of `new_inode`, just created with mode
/// `umode`: a file or a symbolic link of one link with mode `umode`, or a
/// directory of two links with mode `umode | S_IFDIR`; the other attributes
/// come from the persistent inode, and its index starts empty.
pub fn new_vfs_inode<Type>(sbi: &SbInfo, new_inode: &InodeWrapper<Clean, Complete, Type>, umode: u16) -> (r: Result<
    (VfsInodeAttrs, InodeInfo),
    Error,
>)
    requires
        sbi.wf(),
        new_inode.spec_ino() < NUM_INODES,
        sbi.dev@.inodes[new_inode.spec_ino() as int].inode_type != InodeType::NONE,
    ensures
        (match r {
            Ok((a, info)) => {
                let ino = new_inode.spec_ino();
                let i = sbi.dev@.inodes[ino as int];
                let t = i.inode_type;
                &&& attrs_fit(i, sbi.blocksize)
                &&& a == (VfsInodeAttrs {
                    mode: if t == InodeType::DIR { umode | S_IFDIR } else { umode },
                    nlink: if t == InodeType::DIR { 2 } else { 1 },
                    ..attrs_of(ino, i, sbi.blocksize)
                })
                &&& match info {
                    InodeInfo::Reg(f) => t == InodeType::REG && f.wf() && f.spec_ino() == ino && f.view() == Map::<u64, DataPageInfo>::empty(),
                    InodeInfo::Symlink(f) => t == InodeType::SYMLINK && f.wf() && f.spec_ino() == ino && f.view() == Map::<u64, DataPageInfo>::empty(),
                    InodeInfo::Dir(d) => t == InodeType::DIR && d.wf() && d.spec_ino() == ino && d.page_set() == Set::<PageNum>::empty()
                        && d.dentry_map() == Map::<FileName, DentryInfo>::empty(),
                }
            },
            Err(e) => e == Error::EINVAL && !attrs_fit(sbi.dev@.inodes[new_inode.spec_ino() as int], sbi.blocksize),
        }),
{
    let ino = new_inode.get_ino();
    let pi = new_inode.get_inode(&sbi.dev);
    let attrs = vfs_inode_attrs(ino, &pi, sbi.blocksize)?;
    let inode_type = new_inode.get_type(&sbi.dev);
    match inode_type {
        InodeType::REG => {
            let inode_info = match HayleyFsRegInodeInfo::new(ino) {
                Ok(i) => i,
                Err(_) => vstd::pervasive::unreached(),
            };
            Ok((VfsInodeAttrs { mode: umode, nlink: 1, ..attrs }, InodeInfo::Reg(inode_info)))
        },
        InodeType::DIR => {
            let inode_info = match HayleyFsDirInodeInfo::new(ino) {
                Ok(i) => i,
                Err(_) => vstd::pervasive::unreached(),
            };
            Ok((VfsInodeAttrs { mode: umode | S_IFDIR, nlink: 2, ..attrs }, InodeInfo::Dir(inode_info)))
        },
        InodeType::SYMLINK => {
            let inode_info = match HayleyFsRegInodeInfo::new(ino) {
                Ok(i) => i,
                Err(_) => vstd::pervasive::unreached(),
            };
            Ok((VfsInodeAttrs { mode: umode, nlink: 1, ..attrs }, InodeInfo::Symlink(inode_info)))
        },
        InodeType::NONE => vstd::pervasive::unreached(),
    }
}

/// Mode `mode` is that of a regular file.
pub open spec fn s_isreg(mode: u16) -> bool {
    mode & S_IFMT == S_IFREG
}

/// Mode `mode` is that of a directory.
pub open spec fn s_isdir(mode: u16) -> bool {
    mode & S_IFMT == S_IFDIR
}

/// What putting in-memory inode `ino`, of mode `mode` and index `info`,
/// out of memory leaves in the indexes of inodes not in memory: a file's
/// page map, or a directory's page set, recorded under `ino`.
pub open spec fn evict_trees(s0: SbInfo, s1: SbInfo, ino: InodeNum, mode: u16, info: InodeInfo) -> bool {
    &&& s1.ino_data_page_tree.view() == (match info {
        InodeInfo::Reg(f) => if s_isreg(mode) { s0.ino_data_page_tree.view().insert(ino, f.view()) } else { s0.ino_data_page_tree.view() },
        _ => s0.ino_data_page_tree.view(),
    })
    &&& s1.ino_dir_page_tree.view() == (match info {
        InodeInfo::Dir(d) => if s_isdir(mode) && !s_isreg(mode) { s0.ino_dir_page_tree.view().insert(ino, d.page_set()) } else { s0.ino_dir_page_tree.view() },
        _ => s0.ino_dir_page_tree.view(),
    })
}

/// Putting a file out of memory and then setting it up in memory again
/// hands back an index holding the pages it had: the same page map.
pub proof fn lemma_iget_after_evict_file(
    s0: SbInfo,
    s1: SbInfo,
    s2: SbInfo,
    ino: InodeNum,
    mode: u16,
    f: HayleyFsRegInodeInfo,
    info2: InodeInfo,
)
    requires
        s_isreg(mode),
        evict_trees(s0, s1, ino, mode, InodeInfo::Reg(f)),
        iget_index(s1, s2, ino, info2),
        s1.dev@.inodes[ino as int].inode_type == InodeType::REG,
    ensures
        info2 matches InodeInfo::Reg(f2) && f2.view() == f.view(),
{
}

/// Putting a directory out of memory and then setting it up in memory
/// again hands back an index holding the pages it had: the same page set.
pub proof fn lemma_iget_after_evict_dir(
    s0: SbInfo,
    s1: SbInfo,
    s2: SbInfo,
    ino: InodeNum,
    mode: u16,
    d: HayleyFsDirInodeInfo,
    info2: InodeInfo,
)
    requires
        s_isdir(mode),
        evict_trees(s0, s1, ino, mode, InodeInfo::Dir(d)),
        iget_index(s1, s2, ino, info2),
        s1.dev@.inodes[ino as int].inode_type == InodeType::DIR,
    ensures
        info2 matches InodeInfo::Dir(d2) && d2.page_set() == d.page_set(),
{
    assert(!s_isreg(mode)) by (bit_vector)
        requires
            mode & 0o170000u16 == 0o040000u16,
    ;
}

/// Puts in-memory inode `ino`, of mode `mode` and `nlink` links, out of
/// memory: the pages of a file, or of a directory, go back into the
/// indexes of inodes not in memory; an inode with no link left gives its
/// number back to the inode allocator.
pub fn evict_inode(sbi: &mut SbInfo, ino: InodeNum, mode: u16, nlink: u32, info: InodeInfo)
    requires
        old(sbi).wf(),
        s_isreg(mode) ==> (info matches InodeInfo::Reg(f) && old(sbi).reg_info_ok(f)),
        s_isdir(mode) ==> (info matches InodeInfo::Dir(d) && old(sbi).dir_info_ok(d)),
        nlink == 0 ==> !old(sbi).inode_allocator.free_inos().contains(ino),
    ensures
        final(sbi).wf(),
        *final(sbi) == (SbInfo {
            ino_data_page_tree: final(sbi).ino_data_page_tree,
            ino_dir_page_tree: final(sbi).ino_dir_page_tree,
            inode_allocator: final(sbi).inode_allocator,
            ..*old(sbi)
        }),
        evict_trees(*old(sbi), *final(sbi), ino, mode, info),
        final(sbi).inode_allocator.free_inos() == (if nlink == 0 {
            old(sbi).inode_allocator.free_inos().insert(ino)
        } else {
            old(sbi).inode_allocator.free_inos()
        }),
        old(sbi).trees_ok() && !old(sbi).ino_dentry_tree.view().contains_key(ino) ==> final(sbi).trees_ok(),
        old(sbi).alloc_agrees() && (nlink == 0 ==> 0 < ino < NUM_INODES && inode_free(old(sbi).dev@.inodes[ino as int]))
            ==> final(sbi).alloc_agrees(),
{
    let ghost s0 = *sbi;
    if (mode & S_IFMT) == S_IFREG {
        match info {
            InodeInfo::Reg(inode_info) => {
                let pages = match inode_info.get_all_pages() {
                    Ok(p) => p,
                    Err(_) => vstd::pervasive::unreached(),
                };
                match sbi.ino_data_page_tree.insert_inode(ino, pages) {
                    Ok(()) => {},
                    Err(_) => vstd::pervasive::unreached(),
                }
                proof {
                    if s0.trees_ok() {
                        assert forall|i: InodeNum, o: u64|
                            #[trigger] sbi.ino_data_page_tree.view().contains_key(i) && #[trigger] sbi.ino_data_page_tree.view()[i].contains_key(o)
                                implies sbi.page_ok(sbi.ino_data_page_tree.view()[i][o].page_no) by {
                            if i != ino {
                                assert(s0.ino_data_page_tree.view().contains_key(i));
                                assert(s0.ino_data_page_tree.view()[i].contains_key(o));
                            }
                        }
                    }
                }
            },
            _ => vstd::pervasive::unreached(),
        }
    } else if (mode & S_IFMT) == S_IFDIR {
        match info {
            InodeInfo::Dir(inode_info) => {
                let pages = match inode_info.get_all_pages() {
                    Ok(p) => p,
                    Err(_) => vstd::pervasive::unreached(),
                };
                match sbi.ino_dir_page_tree.insert_inode(ino, pages) {
                    Ok(()) => {},
                    Err(_) => vstd::pervasive::unreached(),
                }
                proof {
                    if s0.trees_ok() {
                        assert forall|i: InodeNum, p: PageNum|
                            #[trigger] sbi.ino_dir_page_tree.view().contains_key(i) && #[trigger] sbi.ino_dir_page_tree.view()[i].contains(p)
                                implies sbi.page_ok(p) by {
                            if i != ino {
                                assert(s0.ino_dir_page_tree.view().contains_key(i));
                                assert(s0.ino_dir_page_tree.view()[i].contains(p));
                            }
                        }
                    }
                    if s0.trees_ok() && !s0.ino_dentry_tree.view().contains_key(ino) {
                        assert forall|i: InodeNum, k: FileName|
                            #[trigger] sbi.ino_dentry_tree.view().contains_key(i) && #[trigger] sbi.ino_dentry_tree.view()[i].contains_key(k)
                                implies sbi.ino_dir_page_tree.view().contains_key(i) && sbi.ino_dir_page_tree.view()[i].contains(
                                sbi.ino_dentry_tree.view()[i][k].loc.page_no,
                            ) && sbi.ino_dentry_tree.view()[i][k].loc.slot < DENTRIES_PER_PAGE && sbi.ino_dentry_tree.view()[i][k].name == k by {
                            assert(s0.ino_dentry_tree.view()[i].contains_key(k));
                        }
                    }
                }
            },
            _ => vstd::pervasive::unreached(),
        }
    }
    let ghost s_mid = *sbi;
    if nlink == 0 {
        match sbi.inode_allocator.dealloc_ino(ino) {
            Ok(()) => {},
            Err(_) => vstd::pervasive::unreached(),
        }
    }
    proof {
        if s0.alloc_agrees() && (nlink == 0 ==> 0 < ino < NUM_INODES && inode_free(s0.dev@.inodes[ino as int])) {
            assert(s_mid.dev == s0.dev && s_mid.page_allocator == s0.page_allocator);
            assert(s_mid.inode_allocator == s0.inode_allocator);
            assert forall|i: InodeNum| #[trigger] sbi.inode_allocator.free_inos().contains(i) implies 0 < i < NUM_INODES
                && inode_free(sbi.dev@.inodes[i as int]) by {
                if i != ino {
                    assert(s0.inode_allocator.free_inos().contains(i));
                }
            }
            assert forall|p: PageNum| #[trigger] sbi.free_pages().contains(p) implies desc_free(sbi.dev@.desc(p as int)) by {
                assert(s0.free_pages().contains(p));
            }
        }
    }
}

/// The device a format leaves: the root directory `root` in its slot,
/// every other inode free and every page descriptor free.
pub open spec fn formatted(v: PmView, root: HayleyFsInode) -> bool {
    &&& v.inodes.len() == NUM_INODES
    &&& v.inodes[ROOT_INO as int] == root
    &&& root.inode_type == InodeType::DIR
    &&& root.ino == ROOT_INO
    &&& forall|i: int| 0 <= i < NUM_INODES && i != ROOT_INO ==> #[trigger] v.inodes[i] == zero_inode_spec()
    &&& forall|i: int| 0 <= i < v.descs.len() ==> desc_free(#[trigger] v.descs[i])
}

proof fn lemma_formatted_used_inos(v: PmView, root: HayleyFsInode, k: int)
    requires
        formatted(v, root),
        0 <= k <= NUM_INODES,
    ensures
        used_inos(v, k) == (if k <= ROOT_INO { Seq::<InodeNum>::empty() } else { seq![ROOT_INO] }),
    decreases k,
{
    if k > 0 {
        lemma_formatted_used_inos(v, root, k - 1);
        if k - 1 != ROOT_INO {
            assert(v.inodes[k - 1] == zero_inode_spec());
        }
    }
}

proof fn lemma_formatted_used_pages(v: PmView, root: HayleyFsInode, k: int)
    requires
        formatted(v, root),
        0 <= k <= v.descs.len(),
    ensures
        used_pages(v, k) == Seq::<PageNum>::empty(),
    decreases k,
{
    if k > 0 {
        lemma_formatted_used_pages(v, root, k - 1);
        assert(desc_free(v.descs[k - 1]));
    }
}

proof fn lemma_formatted_owned(v: PmView, root: HayleyFsInode, x: InodeNum, k: int)
    requires
        formatted(v, root),
        0 <= k <= v.descs.len(),
    ensures
        owned_dir_pages(v, x, k) == Seq::<PageNum>::empty(),
        owned_data_pages(v, x, k) == Seq::<PageNum>::empty(),
    decreases k,
{
    if k > 0 {
        lemma_formatted_owned(v, root, x, k - 1);
        assert(desc_free(v.descs[k - 1]));
        assert(v.desc(k - 1 + DATA_PAGE_START) == v.descs[k - 1]);
    }
}

proof fn lemma_formatted_reach(v: PmView, root: HayleyFsInode, n: nat, y: InodeNum)
    requires
        formatted(v, root),
    ensures
        reach_n(v, n, y) <==> y == ROOT_INO,
    decreases n,
{
    if n > 0 {
        lemma_formatted_reach(v, root, (n - 1) as nat, y);
        if child_of_reached(v, (n - 1) as nat, y) {
            let x = choose|x: InodeNum| reach_n(v, (n - 1) as nat, x) && #[trigger] dir_child(v, x, y);
            lemma_formatted_owned(v, root, x, v.descs.len() as int);
            assert(dir_entries(v, x) =~= Seq::<DentryInfo>::empty());
        }
    }
}

/// Mounting a freshly formatted device finds the root directory alone:
/// the root is the one inode in use and no page is, no directory page,
/// entry or file page is there to index, only the root is reached, every
/// inode number past the root's is free and every data page of a device
/// of `num_blocks` blocks is free.
pub proof fn lemma_mount_after_format(v: PmView, root: HayleyFsInode, num_blocks: u64)
    requires
        formatted(v, root),
        DATA_PAGE_START <= num_blocks,
    ensures
        used_inos(v, NUM_INODES as int) == seq![ROOT_INO],
        used_pages(v, v.descs.len() as int) == Seq::<PageNum>::empty(),
        forall|x: InodeNum| #[trigger] owned_dir_pages(v, x, v.descs.len() as int) == Seq::<PageNum>::empty(),
        forall|x: InodeNum| #[trigger] owned_data_pages(v, x, v.descs.len() as int) == Seq::<PageNum>::empty(),
        forall|x: InodeNum| #[trigger] dir_entries(v, x) == Seq::<DentryInfo>::empty(),
        forall|y: InodeNum| #[trigger] reachable(v, y) <==> y == ROOT_INO,
        alloc_vec_ok(seq![ROOT_INO], ROOT_INO, NUM_INODES),
        free_from_alloc_vec(seq![ROOT_INO], ROOT_INO, NUM_INODES) == range_set(ROOT_INO + 1, NUM_INODES as int),
        free_from_alloc_vec(Seq::<PageNum>::empty(), DATA_PAGE_START, num_blocks) == range_set(
            DATA_PAGE_START as int,
            num_blocks as int,
        ),
{
    lemma_formatted_used_inos(v, root, NUM_INODES as int);
    lemma_formatted_used_pages(v, root, v.descs.len() as int);
    assert forall|x: InodeNum| #[trigger] owned_dir_pages(v, x, v.descs.len() as int) == Seq::<PageNum>::empty() by {
        lemma_formatted_owned(v, root, x, v.descs.len() as int);
    }
    assert forall|x: InodeNum| #[trigger] owned_data_pages(v, x, v.descs.len() as int) == Seq::<PageNum>::empty() by {
        lemma_formatted_owned(v, root, x, v.descs.len() as int);
    }
    assert forall|x: InodeNum| #[trigger] dir_entries(v, x) == Seq::<DentryInfo>::empty() by {
        lemma_formatted_owned(v, root, x, v.descs.len() as int);
    }
    assert forall|y: InodeNum| #[trigger] reachable(v, y) <==> y == ROOT_INO by {
        if reachable(v, y) {
            let n = choose|n: nat| #[trigger] reach_n(v, n, y);
            lemma_formatted_reach(v, root, n, y);
        }
        if y == ROOT_INO {
            assert(reach_n(v, 0, y));
        }
    }
    let a = seq![ROOT_INO];
    assert(merge_reaches(a, ROOT_INO, NUM_INODES, 0));
    assert(a[0] == ROOT_INO);
    assert forall|p: u64| #[trigger] free_from_alloc_vec(a, ROOT_INO, NUM_INODES).contains(p) <==> range_set(
        ROOT_INO + 1,
        NUM_INODES as int,
    ).contains(p) by {
        if range_set(ROOT_INO + 1, NUM_INODES as int).contains(p) {
            assert forall|j: int| 0 <= j < a.len() && merge_reaches(a, ROOT_INO, NUM_INODES, j) implies #[trigger] a[j] != p by {
                assert(j == 0);
            }
        }
    }
    assert(free_from_alloc_vec(a, ROOT_INO, NUM_INODES) =~= range_set(ROOT_INO + 1, NUM_INODES as int));
    assert(free_from_alloc_vec(Seq::<PageNum>::empty(), DATA_PAGE_START, num_blocks) =~= range_set(
        DATA_PAGE_START as int,
        num_blocks as int,
    ));
}

proof fn lemma_live_infos_match(v: PmView, p: PageNum, k: int)
    requires
        k <= DENTRIES_PER_PAGE,
    ensures
        forall|i: int| 0 <= i < live_infos(v, p, k).len() ==> {
            let e = #[trigger] live_infos(v, p, k)[i];
            &&& e.ino != 0
            &&& v.dentry(e.loc).name == e.name
            &&& v.dentry(e.loc).ino == e.ino
        },
    decreases k,
{
    if k > 0 {
        lemma_live_infos_match(v, p, k - 1);
        let prev = live_infos(v, p, k - 1);
        assert forall|i: int| 0 <= i < live_infos(v, p, k).len() implies {
            let e = #[trigger] live_infos(v, p, k)[i];
            &&& e.ino != 0
            &&& v.dentry(e.loc).name == e.name
            &&& v.dentry(e.loc).ino == e.ino
        } by {
            if i < prev.len() {
                assert(live_infos(v, p, k)[i] == prev[i]);
            }
        }
    }
}

proof fn lemma_entries_of_match(v: PmView, pages: Seq<PageNum>)
    ensures
        forall|i: int| 0 <= i < entries_of(v, pages).len() ==> {
            let e = #[trigger] entries_of(v, pages)[i];
            &&& e.ino != 0
            &&& v.dentry(e.loc).name == e.name
            &&& v.dentry(e.loc).ino == e.ino
        },
    decreases pages.len(),
{
    if pages.len() > 0 {
        let prev = pages.drop_last();
        lemma_entries_of_match(v, prev);
        lemma_live_infos_match(v, pages.last(), DENTRIES_PER_PAGE as int);
        let es = entries_of(v, pages);
        let pe = entries_of(v, prev);
        let li = live_infos(v, pages.last(), DENTRIES_PER_PAGE as int);
        assert forall|i: int| 0 <= i < es.len() implies {
            let e = #[trigger] es[i];
            &&& e.ino != 0
            &&& v.dentry(e.loc).name == e.name
            &&& v.dentry(e.loc).ino == e.ino
        } by {
            if i < pe.len() {
                assert(es[i] == pe[i]);
            } else {
                assert(es[i] == li[i - pe.len()]);
            }
        }
    }
}

/// The index of entries that mounting builds for a directory agrees with
/// the device it was built from.
pub proof fn lemma_mounted_index_matches(v: PmView, x: InodeNum)
    ensures
        index_matches(v, entry_map(dir_entries(v, x))),
{
    let es = dir_entries(v, x);
    lemma_entry_map(es);
    lemma_entries_of_match(v, owned_dir_pages(v, x, v.descs.len() as int));
    assert forall|k: FileName| #[trigger] entry_map(es).contains_key(k) implies {
        &&& entry_map(es)[k].ino != 0
        &&& v.dentry(entry_map(es)[k].loc).name == k
        &&& v.dentry(entry_map(es)[k].loc).ino == entry_map(es)[k].ino
    } by {
        let i = choose|i: int| 0 <= i < es.len() && es[i] == entry_map(es)[k];
        assert(es[i] == entry_map(es)[k]);
    }
}

/// Every live inode slot of `v` records its own number.
pub open spec fn inodes_numbered(v: PmView) -> bool {
    forall|k: int| 0 <= k < NUM_INODES && !inode_free(#[trigger] v.inodes[k]) ==> v.inodes[k].ino == k
}

proof fn lemma_used_inos_shape(v: PmView, k: int)
    requires
        inodes_numbered(v),
        0 <= k <= NUM_INODES,
    ensures
        forall|j: int| 0 <= j < used_inos(v, k).len() ==> #[trigger] used_inos(v, k)[j] < k,
        forall|j1: int, j2: int| 0 <= j1 < j2 < used_inos(v, k).len() ==> used_inos(v, k)[j1] < used_inos(v, k)[j2],
        forall|m: int| 0 <= m < k && !inode_free(#[trigger] v.inodes[m]) ==> exists|j: int|
            0 <= j < used_inos(v, k).len() && used_inos(v, k)[j] == m,
    decreases k,
{
    if k > 0 {
        lemma_used_inos_shape(v, k - 1);
        let prev = used_inos(v, k - 1);
        let cur = used_inos(v, k);
        assert forall|m: int| 0 <= m < k && !inode_free(#[trigger] v.inodes[m]) implies exists|j: int|
            0 <= j < cur.len() && cur[j] == m by {
            if m < k - 1 {
                let j = choose|j: int| 0 <= j < prev.len() && prev[j] == m;
                assert(cur[j] == prev[j]);
            } else {
                assert(cur[cur.len() - 1] == m);
            }
        }
    }
}

/// A scan of the first `k` descriptors counts a page in use exactly when
/// its descriptor is not free, and counts no page twice.
pub proof fn lemma_used_pages_exact(v: PmView, k: int)
    requires
        0 <= k <= v.descs.len(),
        v.descs.len() + DATA_PAGE_START <= u64::MAX,
    ensures
        forall|p: PageNum|
            #[trigger] used_pages(v, k).contains(p) <==> DATA_PAGE_START <= p < DATA_PAGE_START + k && !desc_free(
                v.descs[p - DATA_PAGE_START],
            ),
        used_pages(v, k).no_duplicates(),
    decreases k,
{
    lemma_used_pages(v, k);
    if k > 0 {
        lemma_used_pages_exact(v, k - 1);
        let prev = used_pages(v, k - 1);
        let cur = used_pages(v, k);
        assert forall|p: PageNum|
            #[trigger] cur.contains(p) <==> DATA_PAGE_START <= p < DATA_PAGE_START + k && !desc_free(
                v.descs[p - DATA_PAGE_START],
            ) by {
            if cur.contains(p) {
                let j = choose|j: int| 0 <= j < cur.len() && cur[j] == p;
                if j < prev.len() {
                    assert(prev[j] == cur[j]);
                    assert(prev.contains(p));
                }
            }
            if DATA_PAGE_START <= p < DATA_PAGE_START + k && !desc_free(v.descs[p - DATA_PAGE_START]) {
                if p < DATA_PAGE_START + k - 1 {
                    assert(prev.contains(p));
                    let j = choose|j: int| 0 <= j < prev.len() && prev[j] == p;
                    assert(cur[j] == p);
                } else {
                    assert(cur[cur.len() - 1] == p);
                }
            }
        }
    }
}

/// A scan of the first `k` descriptors counts as many pages in use as
/// there are descriptors among them that are not free, so a mount adds
/// exactly that many to the blocks in use.
pub proof fn lemma_used_pages_count(v: PmView, k: int)
    requires
        0 <= k <= v.descs.len(),
    ensures
        used_pages(v, k).len() == v.descs.take(k).filter(|d: PageDescriptor| !desc_free(d)).len(),
    decreases k,
{
    reveal(Seq::filter);
    let pred = |d: PageDescriptor| !desc_free(d);
    if k > 0 {
        lemma_used_pages_count(v, k - 1);
        let t = v.descs.take(k);
        assert(t.drop_last() =~= v.descs.take(k - 1));
        assert(t.last() == v.descs[k - 1]);
        assert(t.filter(pred) == if pred(t.last()) {
            t.drop_last().filter(pred).push(t.last())
        } else {
            t.drop_last().filter(pred)
        });
    } else {
        assert(v.descs.take(k) =~= Seq::<PageDescriptor>::empty());
    }
}

/// After a mount, the allocator's free pages are exactly the pages past
/// the reserved ones that the descriptor table describes and whose
/// descriptor is free: a page whose descriptor is free is never counted
/// in use.
pub proof fn lemma_mount_free_pages(v: PmView, num_blocks: u64)
    requires
        DATA_PAGE_START <= num_blocks,
        DATA_PAGE_START + v.descs.len() == describable_end(num_blocks),
        v.descs.len() + DATA_PAGE_START <= u64::MAX,
    ensures
        forall|p: PageNum|
            #[trigger] free_from_alloc_vec(used_pages(v, v.descs.len() as int), DATA_PAGE_START, describable_end(num_blocks) as u64).contains(p)
                <==> DATA_PAGE_START <= p < DATA_PAGE_START + v.descs.len() && desc_free(v.descs[p - DATA_PAGE_START]),
{
    let n = v.descs.len() as int;
    let used = used_pages(v, n);
    let end = describable_end(num_blocks) as u64;
    lemma_used_pages(v, n);
    lemma_used_pages_exact(v, n);
    assert forall|p: PageNum|
        #[trigger] free_from_alloc_vec(used, DATA_PAGE_START, end).contains(p) <==> DATA_PAGE_START <= p
            < DATA_PAGE_START + n && desc_free(v.descs[p - DATA_PAGE_START]) by {
        if DATA_PAGE_START <= p < DATA_PAGE_START + n {
            assert(DATA_PAGE_START < end);
            assert forall|j: int| 0 <= j < used.len() implies #[trigger] merge_reaches(used, DATA_PAGE_START, end, j) by {
                assert forall|i: int| 0 <= i < j implies #[trigger] used[i] + 1 < end by {
                    assert(used[i] < used[j]);
                }
            }
            if !desc_free(v.descs[p - DATA_PAGE_START]) {
                assert(used.contains(p));
                let j = choose|j: int| 0 <= j < used.len() && used[j] == p;
                assert(merge_reaches(used, DATA_PAGE_START, end, j));
            } else {
                assert forall|j: int| 0 <= j < used.len() && merge_reaches(used, DATA_PAGE_START, end, j) implies #[trigger] used[j] != p by {
                    assert(used.contains(used[j]));
                }
            }
        }
    }
}

proof fn lemma_used_pages_shape(v: PmView, k: int)
    requires
        0 <= k <= v.descs.len(),
        v.descs.len() + DATA_PAGE_START <= u64::MAX,
    ensures
        forall|j: int| 0 <= j < used_pages(v, k).len() ==> #[trigger] used_pages(v, k)[j] < k + DATA_PAGE_START,
        forall|j1: int, j2: int| 0 <= j1 < j2 < used_pages(v, k).len() ==> used_pages(v, k)[j1] < used_pages(v, k)[j2],
        forall|m: int| 0 <= m < k && !desc_free(#[trigger] v.descs[m]) ==> exists|j: int|
            0 <= j < used_pages(v, k).len() && used_pages(v, k)[j] == m + DATA_PAGE_START,
    decreases k,
{
    if k > 0 {
        lemma_used_pages_shape(v, k - 1);
        let prev = used_pages(v, k - 1);
        let cur = used_pages(v, k);
        assert forall|m: int| 0 <= m < k && !desc_free(#[trigger] v.descs[m]) implies exists|j: int|
            0 <= j < cur.len() && cur[j] == m + DATA_PAGE_START by {
            if m < k - 1 {
                let j = choose|j: int| 0 <= j < prev.len() && prev[j] == m + DATA_PAGE_START;
                assert(cur[j] == prev[j]);
            } else {
                assert(cur[cur.len() - 1] == m + DATA_PAGE_START);
            }
        }
    }
}

/// Mounting a device whose live inode slots record their own numbers
/// leaves nothing in use among what the allocators hold: every inode number
/// the mount leaves free names a free inode slot, and every page it leaves
/// free has a free descriptor.
pub proof fn lemma_mount_agrees(v: PmView)
    requires
        v.inodes.len() == NUM_INODES,
        v.descs.len() + DATA_PAGE_START <= u64::MAX,
        inodes_numbered(v),
    ensures
        forall|i: u64| #[trigger] free_from_alloc_vec(used_inos(v, NUM_INODES as int), ROOT_INO, NUM_INODES).contains(i)
            ==> inode_free(v.inodes[i as int]),
        forall|p: u64| #[trigger] free_from_alloc_vec(
            used_pages(v, v.descs.len() as int),
            DATA_PAGE_START,
            (DATA_PAGE_START + v.descs.len()) as u64,
        ).contains(p) ==> desc_free(v.desc(p as int)),
{
    let ui = used_inos(v, NUM_INODES as int);
    lemma_used_inos_shape(v, NUM_INODES as int);
    assert forall|i: u64| #[trigger] free_from_alloc_vec(ui, ROOT_INO, NUM_INODES).contains(i) implies inode_free(
        v.inodes[i as int],
    ) by {
        if !inode_free(v.inodes[i as int]) {
            let j = choose|j: int| 0 <= j < ui.len() && ui[j] == i as int;
            assert forall|j2: int| 0 <= j2 < j implies #[trigger] ui[j2] + 1 < NUM_INODES by {
                assert(ui[j2] < ui[j]);
            }
            assert(merge_reaches(ui, ROOT_INO, NUM_INODES, j));
        }
    }
    let n = v.descs.len() as int;
    let up = used_pages(v, n);
    let end = (DATA_PAGE_START + v.descs.len()) as u64;
    lemma_used_pages_shape(v, n);
    assert forall|p: u64| #[trigger] free_from_alloc_vec(up, DATA_PAGE_START, end).contains(p) implies desc_free(
        v.desc(p as int),
    ) by {
        let m = p - DATA_PAGE_START;
        if !desc_free(v.descs[m]) {
            let j = choose|j: int| 0 <= j < up.len() && up[j] == m + DATA_PAGE_START;
            assert forall|j2: int| 0 <= j2 < j implies #[trigger] up[j2] + 1 < end by {
                assert(up[j2] < up[j]);
            }
            assert(merge_reaches(up, DATA_PAGE_START, end, j));
        }
    }
}

} // verus!
