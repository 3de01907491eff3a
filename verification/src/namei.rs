//! Directory operations: creating, linking, looking up, listing, removing
//! and renaming names.
use crate::defs::{lemma_name_bytes_kept, lemma_name_eq, spec_name_bytes, Error, FileName, InodeNum, InodeType, PageNum, PageType, DATA_PAGE_START, HAYLEYFS_PAGESIZE, MAX_FILENAME_LEN, MAX_LINKS, NUM_INODES, S_IFDIR};
use crate::dentry::{dir_page_all_free, name_over, with_dentry, DentryWrapper};
use crate::fs::SbInfo;
use crate::inode::{init_inode_of_type, new_dir_inode, new_file_inode, with_inode, InodeWrapper};
use crate::page::{data_page_readable, dir_page_has_free, dir_page_readable, first_free_slot, with_desc, DataPageWrapper, DirPageWrapper};
use crate::pm::{dentry_free, desc_free, inode_free, inode_initialized, name_is_empty, zero_inode_spec, DentryLoc, HayleyFsDentry, HayleyFsInode, PageDescriptor, PmView, Timespec};
use crate::typestate::{Alloc, Clean, ClearIno, Complete, Dealloc, DecLink, DirInode, Free, IncLink, InitRenamePointer, RegInode, Start, ToUnmap, Written};
use crate::volatile::{DentryInfo, HayleyFsDirInodeInfo, HayleyFsRegInodeInfo};
use vstd::prelude::*;

verus! {

/// Page `p`, which the allocator held, became a directory page of `parent`.
pub open spec fn new_dir_page(s0: SbInfo, s1: SbInfo, parent: InodeNum, p: PageNum) -> bool {
    &&& s0.page_is_free(p)
    &&& s1.page_ok(p)
    &&& s1.free_pages() == s0.free_pages().remove(p)
    &&& s1.dev@ == with_desc(
        s0.dev@,
        p as int,
        PageDescriptor { page_type: PageType::DIR, ino: parent, ..s0.dev@.desc(p as int) },
    )
    &&& s1.blocks_in_use == s0.blocks_in_use.wrapping_add(1)
}

/// The state outside the device, the page allocator and the counters is
/// as in `s0`.
pub open spec fn same_indexes(s0: SbInfo, s1: SbInfo) -> bool {
    &&& s1.size == s0.size
    &&& s1.blocksize == s0.blocksize
    &&& s1.num_blocks == s0.num_blocks
    &&& s1.ino_dentry_tree == s0.ino_dentry_tree
    &&& s1.ino_dir_page_tree == s0.ino_dir_page_tree
    &&& s1.ino_data_page_tree == s0.ino_data_page_tree
    &&& s1.cpus == s0.cpus
    &&& s1.current_cpu == s0.current_cpu
    &&& s1.same_pools(s0)
}

/// A free entry for directory `parent` was found at `loc`: in one of its
/// pages, or in page `loc.page_no` newly taken for it.
pub open spec fn free_slot_found(
    s0: SbInfo,
    s1: SbInfo,
    i0: HayleyFsDirInodeInfo,
    i1: HayleyFsDirInodeInfo,
    parent: InodeNum,
    loc: DentryLoc,
) -> bool {
    &&& i1.spec_ino() == i0.spec_ino()
    &&& i1.dentry_map() == i0.dentry_map()
    &&& s1.dev@.valid_loc(loc)
    &&& first_free_slot(s1.dev@, loc.page_no as int, loc.slot as int)
    &&& dir_page_readable(s1.dev@, loc.page_no as int)
    &&& same_indexes(s0, s1)
    &&& s1.inode_allocator == s0.inode_allocator
    &&& s1.inodes_in_use == s0.inodes_in_use
    &&& ({
        ||| (s1 == s0 && i1.page_set() == i0.page_set() && i0.page_set().contains(loc.page_no))
        ||| (new_dir_page(s0, s1, parent, loc.page_no) && i1.page_set() == i0.page_set().insert(loc.page_no))
    })
}

/// The error for a directory number `parent` that does not name a live
/// directory: `EINVAL` for a number out of range, `EPERM` otherwise.
pub open spec fn not_dir_error(parent: InodeNum) -> Error {
    if parent == 0 || parent >= NUM_INODES {
        Error::EINVAL
    } else {
        Error::EPERM
    }
}

/// Every page the page allocator holds has a free descriptor and a free
/// directory entry.
pub open spec fn free_pages_clean(s: SbInfo) -> bool {
    forall|p: PageNum| #[trigger] s.free_pages().contains(p) ==> desc_free(s.dev@.desc(p as int)) && dir_page_has_free(
        s.dev@,
        p as int,
    )
}

/// A step that changes only the slot of live inode `ino` keeps the
/// allocators in agreement with the device.
proof fn lemma_agrees_past_live(s0: SbInfo, s1: SbInfo, ino: InodeNum)
    requires
        s0.wf(),
        inode_initialized(s0.dev@.inodes[ino as int]),
        s1 == (SbInfo { dev: s1.dev, ..s0 }),
        s1.dev@.descs == s0.dev@.descs,
        forall|i: int| 0 <= i < s0.dev@.inodes.len() && i != ino ==> s1.dev@.inodes[i] == s0.dev@.inodes[i],
    ensures
        s0.alloc_agrees() ==> s1.alloc_agrees(),
{
    if s0.alloc_agrees() {
        assert forall|i: InodeNum| #[trigger] s1.inode_allocator.free_inos().contains(i) implies s0.inode_allocator.free_inos().contains(i)
            && s1.dev@.inodes[i as int] == s0.dev@.inodes[i as int] by {
            assert(i != ino);
        }
        SbInfo::lemma_agrees_kept(s0, s1);
    }
}

/// Every inode number the inode allocator holds names a free inode slot.
pub open spec fn inos_agree(s: SbInfo) -> bool {
    forall|i: InodeNum| #[trigger] s.inode_allocator.free_inos().contains(i) ==> 0 < i < NUM_INODES && inode_free(
        s.dev@.inodes[i as int],
    )
}

/// Directory `parent`, whose index is `info`, can take a new entry: it is
/// a live directory, each page of its index is a readable directory page,
/// and one of them has a free entry, or else the page allocator can hand
/// out a page and every page it holds is clean.
pub open spec fn has_entry_room(s: SbInfo, info: HayleyFsDirInodeInfo, parent: InodeNum) -> bool {
    &&& init_inode_of_type(s.dev@, parent, InodeType::DIR)
    &&& forall|p: PageNum| #[trigger] info.page_set().contains(p) ==> dir_page_readable(s.dev@, p as int)
    &&& ({
        ||| exists|p: PageNum| #[trigger] info.page_set().contains(p) && dir_page_has_free(s.dev@, p as int)
        ||| {
            &&& s.page_allocator is Some
            &&& !s.out_of_pages()
            &&& free_pages_clean(s)
        }
    })
}

/// Takes a page from the allocator for directory `parent` and hands out its
/// first free entry.
pub fn alloc_page_for_dentry(
    sbi: &mut SbInfo,
    parent: InodeNum,
    parent_info: &mut HayleyFsDirInodeInfo,
) -> (r: Result<DentryWrapper<Clean, Free>, Error>)
    requires
        old(sbi).wf(),
        old(sbi).dir_info_ok(*old(parent_info)),
    ensures
        final(sbi).wf(),
        final(sbi).dir_info_ok(*final(parent_info)),
        (match r {
            Ok(d) => {
                &&& init_inode_of_type(old(sbi).dev@, parent, InodeType::DIR)
                &&& new_dir_page(*old(sbi), *final(sbi), parent, d.spec_loc().page_no)
                &&& free_slot_found(*old(sbi), *final(sbi), *old(parent_info), *final(parent_info), parent, d.spec_loc())
            },
            Err(e) => {
                &&& final(parent_info).spec_ino() == old(parent_info).spec_ino()
                &&& final(parent_info).dentry_map() == old(parent_info).dentry_map()
                &&& ((e == Error::EINVAL && old(sbi).page_allocator is None)
                    || (e == Error::ENOSPC && old(sbi).out_of_pages())
                    || e == Error::ENOTDIR
                    || (e == Error::EPERM && !init_inode_of_type(old(sbi).dev@, parent, InodeType::DIR))
                    || e == Error::ENOSPC)
            },
        }),
        init_inode_of_type(old(sbi).dev@, parent, InodeType::DIR) && old(sbi).page_allocator is Some
            && !old(sbi).out_of_pages() && free_pages_clean(*old(sbi)) ==> r is Ok,
        old(sbi).alloc_agrees() ==> final(sbi).alloc_agrees(),
{
    let ghost s0 = *sbi;
    let dir_page = match DirPageWrapper::alloc_dir_page(sbi) {
        Ok(w) => w.flush().fence(),
        Err(e) => {
            proof {
                if e == Error::ENOTDIR && free_pages_clean(s0) {
                    let q = choose|q: PageNum| #[trigger] s0.page_is_free(q) && s0.dev@.desc(q as int).page_type
                        == PageType::DATA;
                    assert(s0.free_pages().contains(q));
                }
            }
            return Err(e);
        },
    };
    let ghost sa = *sbi;
    proof {
        assert(s0.free_pages().contains(dir_page.spec_page_no()));
    }
    sbi.inc_blocks_in_use();
    let parent_inode = InodeWrapper::get_init_dir_inode_by_ino(&sbi.dev, parent);
    match parent_inode {
        Ok(parent_inode) => {
            let dir_page = dir_page.set_dir_page_backpointer(&mut sbi.dev, parent_inode).flush().fence();
            let ghost p = dir_page.spec_page_no();
            proof {
                assert(sbi.same_pools(s0));
                assert forall|q: PageNum| #[trigger] parent_info.page_set().contains(q) implies sbi.page_ok(q) by {
                    assert(s0.page_ok(q));
                }
                if s0.alloc_agrees() {
                    assert(sbi.dev@.inodes == sa.dev@.inodes);
                    assert forall|q: PageNum| #[trigger] sbi.free_pages().contains(q) implies desc_free(sbi.dev@.desc(q as int))
                        || (sa.free_pages().contains(q) && sbi.dev@.desc(q as int) == sa.dev@.desc(q as int)) by {
                        assert(q != p);
                    }
                    SbInfo::lemma_agrees_kept(sa, *sbi);
                }
            }
            parent_info.insert(&dir_page)?;
            proof {
                if free_pages_clean(s0) {
                    assert(s0.free_pages().contains(p));
                    assert(sbi.dev@.dir(p as int) == s0.dev@.dir(p as int));
                    assert(dir_page_has_free(sbi.dev@, p as int));
                }
            }
            let pd = dir_page.get_free_dentry(&sbi.dev)?;
            proof {
                assert(sbi.dev@.desc(p as int).page_type == PageType::DIR);
                assert(sbi.dev@.descs =~= with_desc(
                    s0.dev@,
                    p as int,
                    PageDescriptor { page_type: PageType::DIR, ino: parent, ..s0.dev@.desc(p as int) },
                ).descs);
                assert(sbi.dev@ == with_desc(
                    s0.dev@,
                    p as int,
                    PageDescriptor { page_type: PageType::DIR, ino: parent, ..s0.dev@.desc(p as int) },
                ));
            }
            Ok(pd)
        },
        Err(_) => {
            proof {
                if s0.alloc_agrees() {
                    SbInfo::lemma_agrees_kept(sa, *sbi);
                }
            }
            Err(Error::EPERM)
        },
    }
}

/// A free entry in directory `parent`: the first free entry of the first of
/// its pages, in increasing order, that has one, or else the first entry of
/// a page newly taken for it.
pub fn get_free_dentry(
    sbi: &mut SbInfo,
    parent: InodeNum,
    parent_info: &mut HayleyFsDirInodeInfo,
) -> (r: Result<DentryWrapper<Clean, Free>, Error>)
    requires
        old(sbi).wf(),
        old(sbi).dir_info_ok(*old(parent_info)),
    ensures
        final(sbi).wf(),
        final(sbi).dir_info_ok(*final(parent_info)),
        (match r {
            Ok(d) => free_slot_found(*old(sbi), *final(sbi), *old(parent_info), *final(parent_info), parent, d.spec_loc()),
            Err(e) => final(parent_info).spec_ino() == old(parent_info).spec_ino()
                && final(parent_info).dentry_map() == old(parent_info).dentry_map()
                && (e == Error::EINVAL || e == Error::EPERM || e == Error::ENOTDIR || e == Error::ENOSPC),
        }),
        has_entry_room(*old(sbi), *old(parent_info), parent) ==> r is Ok,
        (exists|p: PageNum| #[trigger] old(parent_info).page_set().contains(p) && dir_page_has_free(old(sbi).dev@, p as int))
            ==> *final(sbi) == *old(sbi),
        old(sbi).alloc_agrees() ==> final(sbi).alloc_agrees(),
{
    proof {
        parent_info.lemma_wf();
    }
    let result = match parent_info.find_page_with_free_dentry(&sbi.dev) {
        Ok(res) => res,
        Err(e) => {
            proof {
                let k = choose|k: int|
                    0 <= k < parent_info.page_seq().len() && !dir_page_readable(
                        sbi.dev@,
                        #[trigger] parent_info.page_seq()[k] as int,
                    );
                assert(parent_info.page_seq().to_set().contains(parent_info.page_seq()[k]));
            }
            return Err(e);
        },
    };
    proof {
        if result is None && has_entry_room(*sbi, *parent_info, parent) {
            assert forall|p: PageNum| #[trigger] parent_info.page_set().contains(p) implies !dir_page_has_free(
                sbi.dev@,
                p as int,
            ) by {
                assert(parent_info.page_seq().to_set().contains(p));
                let k = choose|k: int| 0 <= k < parent_info.page_seq().len() && parent_info.page_seq()[k] == p;
                assert(!dir_page_has_free(sbi.dev@, parent_info.page_seq()[k] as int));
            }
        }
    }
    if let Some(page_info) = result {
        proof {
            parent_info.lemma_wf();
            let k = choose|k: int| 0 <= k < parent_info.page_seq().len() && parent_info.page_seq()[k] == page_info.page_no;
            assert(parent_info.page_seq().to_set().contains(parent_info.page_seq()[k]));
            assert(parent_info.page_set().contains(page_info.page_no));
        }
        let dir_page = DirPageWrapper::from_dir_page_info(&sbi.dev, &page_info)?;
        dir_page.get_free_dentry(&sbi.dev)
    } else {
        alloc_page_for_dentry(sbi, parent, parent_info)
    }
}

/// What adding an entry did to the space of the file system: the geometry
/// and the indexes of inodes not in memory are as before; the directory's
/// pages, the page allocator, the descriptor table and the block count are
/// as before too, or a free page was taken as a new page of directory
/// `parent`, the one holding entry `loc`.
pub open spec fn dir_space_step(
    s0: SbInfo,
    s1: SbInfo,
    i0: HayleyFsDirInodeInfo,
    i1: HayleyFsDirInodeInfo,
    parent: InodeNum,
    loc: DentryLoc,
) -> bool {
    let p = loc.page_no;
    &&& same_indexes(s0, s1)
    &&& ({
        ||| {
            &&& s1.dev@.descs == s0.dev@.descs
            &&& s1.free_pages() == s0.free_pages()
            &&& s1.blocks_in_use == s0.blocks_in_use
            &&& i1.page_set() == i0.page_set()
        }
        ||| {
            &&& s0.page_is_free(p)
            &&& s1.free_pages() == s0.free_pages().remove(p)
            &&& s1.dev@.descs == with_desc(
                s0.dev@,
                p as int,
                PageDescriptor { page_type: PageType::DIR, ino: parent, ..s0.dev@.desc(p as int) },
            ).descs
            &&& s1.blocks_in_use == s0.blocks_in_use.wrapping_add(1)
            &&& i1.page_set() == i0.page_set().insert(p)
        }
    })
}

/// A step that changes inode slots only where they were live or handed out
/// from the allocator, and takes pages as `dir_space_step` says, keeps the
/// allocators in agreement with the device.
proof fn lemma_dir_step_agrees(
    s0: SbInfo,
    s1: SbInfo,
    i0: HayleyFsDirInodeInfo,
    i1: HayleyFsDirInodeInfo,
    parent: InodeNum,
    loc: DentryLoc,
)
    requires
        s0.alloc_agrees(),
        s0.wf(),
        dir_space_step(s0, s1, i0, i1, parent, loc),
        forall|i: InodeNum| #[trigger] s1.inode_allocator.free_inos().contains(i) ==> s0.inode_allocator.free_inos().contains(i)
            && s1.dev@.inodes[i as int] == s0.dev@.inodes[i as int],
    ensures
        s1.alloc_agrees(),
{
    assert forall|p: PageNum| #[trigger] s1.free_pages().contains(p) implies desc_free(s1.dev@.desc(p as int)) || (
    s0.free_pages().contains(p) && s1.dev@.desc(p as int) == s0.dev@.desc(p as int)) by {
        assert(s0.free_pages().contains(p));
        assert(s0.dev@.has_page(p as int));
    }
    SbInfo::lemma_agrees_kept(s0, s1);
}

/// What adding an entry did: entry `loc`, free before and in a page of
/// directory `parent`, now names inode `ino` under `name`; every other
/// entry is as before; the directory's index records the entry.
pub open spec fn entry_added(
    s0: SbInfo,
    s1: SbInfo,
    i0: HayleyFsDirInodeInfo,
    i1: HayleyFsDirInodeInfo,
    parent: InodeNum,
    loc: DentryLoc,
    name: Seq<u8>,
    ino: InodeNum,
) -> bool {
    let d = s1.dev@.dentry(loc);
    &&& init_inode_of_type(s0.dev@, parent, InodeType::DIR)
    &&& name.len() <= MAX_FILENAME_LEN
    &&& s1.dev@.valid_loc(loc)
    &&& d.ino == ino
    &&& d.name.bytes@ == spec_name_bytes(name)
    &&& d.rename_ptr is None
    &&& s0.dev@.dentry(loc).ino == 0
    &&& s1.dev@.size == s0.dev@.size
    &&& forall|l: DentryLoc| #[trigger] s0.dev@.valid_loc(l) && l != loc ==> s1.dev@.dentry(l) == s0.dev@.dentry(l)
    &&& dir_page_readable(s1.dev@, loc.page_no as int)
    &&& i1.page_set().contains(loc.page_no)
    &&& i1.spec_ino() == i0.spec_ino()
    &&& i1.dentry_map() == i0.dentry_map().insert(d.name, DentryInfo { ino, loc, name: d.name })
}

/// What creating an entry for a new inode did: the entry was added, and
/// inode `ino`, free before and handed out by the inode allocator, now
/// holds `node`.
pub open spec fn entry_created(
    s0: SbInfo,
    s1: SbInfo,
    i0: HayleyFsDirInodeInfo,
    i1: HayleyFsDirInodeInfo,
    parent: InodeNum,
    loc: DentryLoc,
    name: Seq<u8>,
    ino: InodeNum,
    node: HayleyFsInode,
) -> bool {
    &&& entry_added(s0, s1, i0, i1, parent, loc, name, ino)
    &&& s1.dev@.data == s0.dev@.data
    &&& 0 < ino < NUM_INODES
    &&& inode_free(s0.dev@.inodes[ino as int])
    &&& s0.inode_allocator.free_inos().contains(ino)
    &&& forall|q: InodeNum| #[trigger] s0.inode_allocator.free_inos().contains(q) ==> ino <= q
    &&& s1.inode_allocator.free_inos() == s0.inode_allocator.free_inos().remove(ino)
    &&& s1.dev@.inodes == s0.dev@.inodes.update(ino as int, node)
}

/// Allocates an inode number and makes the named entry `dentry` point at
/// a new file in it.
fn init_dentry_with_new_reg_inode(
    sbi: &mut SbInfo,
    dentry: DentryWrapper<Clean, Alloc>,
    mode: u16,
    uid: u32,
    gid: u32,
    now: Timespec,
) -> (r: Result<(DentryWrapper<Clean, Complete>, InodeWrapper<Clean, Complete, RegInode>), Error>)
    requires
        old(sbi).wf(),
        old(sbi).dev@.valid_loc(dentry.spec_loc()),
    ensures
        final(sbi).wf(),
        same_indexes(*old(sbi), *final(sbi)),
        final(sbi).free_pages() == old(sbi).free_pages(),
        final(sbi).blocks_in_use == old(sbi).blocks_in_use,
        (match r {
            Ok((d, i)) => {
                let ino = i.spec_ino();
                &&& d.spec_loc() == dentry.spec_loc()
                &&& 0 < ino < NUM_INODES
                &&& inode_free(old(sbi).dev@.inodes[ino as int])
                &&& old(sbi).inode_allocator.free_inos().contains(ino)
                &&& forall|q: InodeNum| #[trigger] old(sbi).inode_allocator.free_inos().contains(q) ==> ino <= q
                &&& final(sbi).inode_allocator.free_inos() == old(sbi).inode_allocator.free_inos().remove(ino)
                &&& final(sbi).inodes_in_use == old(sbi).inodes_in_use.wrapping_add(1)
                &&& final(sbi).dev@ == with_dentry(
                    with_inode(old(sbi).dev@, ino, new_file_inode(ino, mode, uid, gid, now, InodeType::REG)),
                    dentry.spec_loc(),
                    HayleyFsDentry { ino, ..old(sbi).dev@.dentry(dentry.spec_loc()) },
                )
            },
            Err(e) => {
                &&& final(sbi).dev@ == old(sbi).dev@
                &&& (e == Error::ENOSPC || e == Error::EINVAL || e == Error::EPERM)
            },
        }),
        inos_agree(*old(sbi)) && !old(sbi).inode_allocator.free_inos().is_empty() ==> r is Ok,
        old(sbi).alloc_agrees() ==> final(sbi).alloc_agrees(),
{
    let ghost s0 = *sbi;
    let new_ino = match sbi.inode_allocator.alloc_ino() {
        Ok(i) => i,
        Err(e) => {
            proof {
                if s0.alloc_agrees() {
                    SbInfo::lemma_agrees_kept(s0, *sbi);
                }
            }
            return Err(e);
        },
    };
    proof {
        if s0.alloc_agrees() {
            SbInfo::lemma_agrees_kept(s0, *sbi);
        }
    }
    let inode = InodeWrapper::get_free_reg_inode_by_ino(&sbi.dev, new_ino)?;
    let inode = inode.allocate_file_inode(&mut sbi.dev, mode, uid, gid, now)?.flush().fence();
    sbi.inc_inodes_in_use();
    let (dentry, inode) = dentry.set_file_ino(&mut sbi.dev, inode);
    let dentry = dentry.flush().fence();
    proof {
        if s0.alloc_agrees() {
            assert(sbi.dev@.descs == s0.dev@.descs);
            assert forall|i: InodeNum| #[trigger] sbi.inode_allocator.free_inos().contains(i) implies s0.inode_allocator.free_inos().contains(i)
                && sbi.dev@.inodes[i as int] == s0.dev@.inodes[i as int] by {
                assert(i != new_ino);
            }
            SbInfo::lemma_agrees_kept(s0, *sbi);
        }
    }
    Ok((dentry, inode))
}

/// Creates regular file `name` in directory `parent`, whose index is
/// `parent_info`: a free entry of the directory, or of a page newly taken
/// for it, gets the name and the smallest free inode number, whose inode
/// becomes a file of one link with mode `mode`, owner `uid`/`gid` and all
/// times `now`.
pub fn hayleyfs_create(
    sbi: &mut SbInfo,
    parent: InodeNum,
    parent_info: &mut HayleyFsDirInodeInfo,
    name: &[u8],
    mode: u16,
    uid: u32,
    gid: u32,
    now: Timespec,
) -> (r: Result<(DentryWrapper<Clean, Complete>, InodeWrapper<Clean, Complete, RegInode>), Error>)
    requires
        old(sbi).wf(),
        old(sbi).dir_info_ok(*old(parent_info)),
        old(parent_info).spec_ino() == parent,
    ensures
        final(sbi).wf(),
        final(sbi).dir_info_ok(*final(parent_info)),
        old(sbi).alloc_agrees() ==> final(sbi).alloc_agrees(),
        (match r {
            Ok((d, i)) => {
                &&& entry_created(
                    *old(sbi),
                    *final(sbi),
                    *old(parent_info),
                    *final(parent_info),
                    parent,
                    d.spec_loc(),
                    name@,
                    i.spec_ino(),
                    new_file_inode(i.spec_ino(), mode, uid, gid, now, InodeType::REG),
                )
                &&& final(sbi).dev@.inodes[i.spec_ino() as int].uid == uid
                &&& final(sbi).dev@.inodes[i.spec_ino() as int].gid == gid
                &&& final(sbi).dev@.inodes[i.spec_ino() as int].mode == mode
                &&& dir_space_step(*old(sbi), *final(sbi), *old(parent_info), *final(parent_info), parent, d.spec_loc())
                &&& final(sbi).inodes_in_use == old(sbi).inodes_in_use.wrapping_add(1)
            },
            Err(e) => {
                &&& final(parent_info).spec_ino() == old(parent_info).spec_ino()
                &&& final(parent_info).dentry_map() == old(parent_info).dentry_map()
                &&& (!init_inode_of_type(old(sbi).dev@, parent, InodeType::DIR) ==> {
                    &&& *final(sbi) == *old(sbi)
                    &&& e == not_dir_error(parent)
                })
                &&& (e == Error::ENAMETOOLONG ==> name@.len() > MAX_FILENAME_LEN)
                &&& (init_inode_of_type(old(sbi).dev@, parent, InodeType::DIR) && name@.len() > MAX_FILENAME_LEN ==> {
                    &&& *final(sbi) == *old(sbi)
                    &&& e == Error::ENAMETOOLONG
                })
                &&& (e == Error::EINVAL || e == Error::EPERM || e == Error::ENOTDIR || e == Error::ENOSPC || e
                    == Error::ENAMETOOLONG)
            },
        }),
        has_entry_room(*old(sbi), *old(parent_info), parent) && name@.len() <= MAX_FILENAME_LEN && inos_agree(
            *old(sbi),
        ) && !old(sbi).inode_allocator.free_inos().is_empty() ==> r is Ok,
{
    let ghost s0 = *sbi;
    let ghost i0 = *parent_info;
    let _parent_inode = InodeWrapper::get_init_dir_inode_by_ino(&sbi.dev, parent)?;
    if name.len() > MAX_FILENAME_LEN {
        return Err(Error::ENAMETOOLONG);
    }
    let pd = get_free_dentry(sbi, parent, parent_info)?;
    let ghost s1 = *sbi;
    let ghost loc = pd.spec_loc();
    let pd = pd.set_name(&mut sbi.dev, name)?.flush().fence();
    proof {
        if s0.alloc_agrees() {
            assert(sbi.dev@.inodes == s1.dev@.inodes);
            assert(sbi.dev@.descs == s1.dev@.descs);
            SbInfo::lemma_agrees_kept(s1, *sbi);
        }
    }
    let ghost s2 = *sbi;
    proof {
        if inos_agree(s0) {
            assert(s2.dev@.inodes == s0.dev@.inodes);
        }
    }
    let (dentry, inode) = init_dentry_with_new_reg_inode(sbi, pd, mode, uid, gid, now)?;
    proof {
        assert forall|q: PageNum| #[trigger] parent_info.page_set().contains(q) implies sbi.page_ok(q) by {
            assert(s1.page_ok(q));
        }
    }
    dentry.index(&sbi.dev, parent_info)?;
    proof {
        let ino = inode.spec_ino();
        assert(dentry_free(s1.dev@.dentry(loc)));
        assert(name_over(s1.dev@.dentry(loc).name, name@) =~= spec_name_bytes(name@));
        assert(sbi.dev@.inodes =~= s0.dev@.inodes.update(ino as int, new_file_inode(ino, mode, uid, gid, now, InodeType::REG)));
        assert forall|l: DentryLoc| #[trigger] s0.dev@.valid_loc(l) && l != loc implies sbi.dev@.dentry(l) == s0.dev@.dentry(l) by {
            assert(s1.dev@.dentry(l) == s0.dev@.dentry(l));
        }
        if s0.alloc_agrees() {
            lemma_dir_step_agrees(s0, *sbi, i0, *parent_info, parent, loc);
        }
    }
    Ok((dentry, inode))
}

/// The entry of `m` whose stored name is `name` padded with zeros.
pub open spec fn lookup_spec(m: Map<FileName, DentryInfo>, name: Seq<u8>) -> Option<DentryInfo> {
    if exists|k: FileName| k.bytes@ == spec_name_bytes(name) && #[trigger] m.contains_key(k) {
        Some(m[choose|k: FileName| k.bytes@ == spec_name_bytes(name) && #[trigger] m.contains_key(k)])
    } else {
        None
    }
}

/// Looking a name up in an index whose entries are filed under their own
/// names finds an entry exactly when the index holds one whose stored name
/// is the requested name's bytes, unchanged, followed by zeros, and the
/// entry found is such an entry: names are compared byte for byte.
pub proof fn lemma_lookup_exact(m: Map<FileName, DentryInfo>, name: Seq<u8>)
    requires
        name.len() <= MAX_FILENAME_LEN,
        forall|k: FileName| #[trigger] m.contains_key(k) ==> m[k].name == k,
    ensures
        lookup_spec(m, name) is Some <==> exists|k: FileName|
            #[trigger] m.contains_key(k) && (forall|i: int| 0 <= i < name.len() ==> #[trigger] k.bytes@[i] == name[i])
                && (forall|i: int| name.len() <= i < MAX_FILENAME_LEN ==> #[trigger] k.bytes@[i] == 0u8),
        lookup_spec(m, name) matches Some(d) ==> {
            &&& m.contains_key(d.name)
            &&& m[d.name] == d
            &&& forall|i: int| 0 <= i < name.len() ==> #[trigger] d.name.bytes@[i] == name[i]
            &&& forall|i: int| name.len() <= i < MAX_FILENAME_LEN ==> #[trigger] d.name.bytes@[i] == 0u8
        },
{
    broadcast use vstd::array::group_array_axioms;

    lemma_name_bytes_kept(name);
    let sb = spec_name_bytes(name);
    assert forall|k: FileName|
        (k.bytes@ == sb) <==> ((forall|i: int| 0 <= i < name.len() ==> #[trigger] k.bytes@[i] == name[i]) && (forall|i: int|
            name.len() <= i < MAX_FILENAME_LEN ==> #[trigger] k.bytes@[i] == 0u8)) by {
        assert(k.bytes@.len() == MAX_FILENAME_LEN);
        if (forall|i: int| 0 <= i < name.len() ==> #[trigger] k.bytes@[i] == name[i]) && (forall|i: int|
            name.len() <= i < MAX_FILENAME_LEN ==> #[trigger] k.bytes@[i] == 0u8) {
            assert(k.bytes@ =~= sb);
        }
        if k.bytes@ == sb {
            assert forall|i: int| 0 <= i < name.len() implies #[trigger] k.bytes@[i] == name[i] by {
                assert(sb[i] == name[i]);
            }
            assert forall|i: int| name.len() <= i < MAX_FILENAME_LEN implies #[trigger] k.bytes@[i] == 0u8 by {
                assert(sb[i] == 0u8);
            }
        }
    }
    if exists|k: FileName| k.bytes@ == sb && #[trigger] m.contains_key(k) {
        let k = choose|k: FileName| k.bytes@ == sb && #[trigger] m.contains_key(k);
        assert(m[k].name == k);
    }
}

/// After `name` is added to a directory (by creating a file, a directory
/// or a symbolic link, or by linking), looking `name` up in the
/// directory's index finds the new entry and its inode.
pub proof fn lemma_lookup_after_add(
    s0: SbInfo,
    s1: SbInfo,
    i0: HayleyFsDirInodeInfo,
    i1: HayleyFsDirInodeInfo,
    parent: InodeNum,
    loc: DentryLoc,
    name: Seq<u8>,
    ino: InodeNum,
)
    requires
        entry_added(s0, s1, i0, i1, parent, loc, name, ino),
    ensures
        lookup_spec(i1.dentry_map(), name) == Some(DentryInfo { ino, loc, name: s1.dev@.dentry(loc).name }),
{
    let k0 = s1.dev@.dentry(loc).name;
    assert(i1.dentry_map().contains_key(k0));
    let k = choose|k: FileName| k.bytes@ == spec_name_bytes(name) && #[trigger] i1.dentry_map().contains_key(k);
    lemma_name_eq(k, k0);
}

/// Looks up `name` in directory `parent`, whose index is `parent_info`,
/// after moving into the index what was recorded for the directory while
/// it was not in memory.
pub fn hayleyfs_lookup(
    sbi: &mut SbInfo,
    parent: InodeNum,
    parent_info: &mut HayleyFsDirInodeInfo,
    name: &[u8],
) -> (r: Result<Option<DentryInfo>, Error>)
    requires
        old(sbi).wf(),
        old(sbi).trees_ok(),
        old(sbi).dir_info_ok(*old(parent_info)),
        old(parent_info).spec_ino() == parent,
        name@.len() <= MAX_FILENAME_LEN,
    ensures
        final(sbi).wf(),
        final(sbi).trees_ok(),
        final(sbi).dir_info_ok(*final(parent_info)),
        final(sbi).dev == old(sbi).dev,
        final(parent_info).spec_ino() == parent,
        (match r {
            Ok(found) => {
                &&& init_inode_of_type(old(sbi).dev@, parent, InodeType::DIR)
                &&& *final(sbi) == (SbInfo {
                    ino_dentry_tree: final(sbi).ino_dentry_tree,
                    ino_dir_page_tree: final(sbi).ino_dir_page_tree,
                    ..*old(sbi)
                })
                &&& final(sbi).ino_dentry_tree.view() == old(sbi).ino_dentry_tree.view().remove(parent)
                &&& final(sbi).ino_dir_page_tree.view() == old(sbi).ino_dir_page_tree.view().remove(parent)
                &&& final(parent_info).page_set() == (if old(sbi).ino_dir_page_tree.view().contains_key(parent) {
                    old(parent_info).page_set().union(old(sbi).ino_dir_page_tree.view()[parent])
                } else {
                    old(parent_info).page_set()
                })
                &&& final(parent_info).dentry_map() == (if old(sbi).ino_dentry_tree.view().contains_key(parent) {
                    old(parent_info).dentry_map().union_prefer_right(old(sbi).ino_dentry_tree.view()[parent])
                } else {
                    old(parent_info).dentry_map()
                })
                &&& found == lookup_spec(final(parent_info).dentry_map(), name@)
            },
            Err(e) => {
                &&& !init_inode_of_type(old(sbi).dev@, parent, InodeType::DIR)
                &&& *final(sbi) == *old(sbi)
                &&& *final(parent_info) == *old(parent_info)
                &&& (e == Error::EINVAL || e == Error::EPERM)
            },
        }),
{
    let _parent_inode = InodeWrapper::get_init_dir_inode_by_ino(&sbi.dev, parent)?;
    crate::fs::move_dir_inode_tree_to_map(sbi, parent_info)?;
    let result = parent_info.lookup_dentry(name);
    proof {
        let m = parent_info.dentry_map();
        match result {
            Some(d) => {
                let k0 = choose|k: FileName| k.bytes@ == spec_name_bytes(name@) && #[trigger] m.contains_key(k) && d == m[k];
                let k = choose|k: FileName| k.bytes@ == spec_name_bytes(name@) && #[trigger] m.contains_key(k);
                lemma_name_eq(k, k0);
            },
            None => {},
        }
    }
    Ok(result)
}

/// The entries of directory `parent` to list from position `pos`: those
/// from index `pos` on, in increasing name order, with the position past
/// the last one, or none when `pos` is already past the last one.
pub fn hayleyfs_readdir(
    sbi: &SbInfo,
    parent: InodeNum,
    parent_info: &HayleyFsDirInodeInfo,
    pos: i64,
) -> (r: Result<(Vec<DentryInfo>, i64), Error>)
    requires
        sbi.wf(),
        parent_info.wf(),
        0 <= pos,
        pos + parent_info.dentry_seq().len() <= i64::MAX,
    ensures
        (match r {
            Ok((v, new_pos)) => {
                let n = parent_info.dentry_seq().len();
                &&& init_inode_of_type(sbi.dev@, parent, InodeType::DIR)
                &&& if pos >= n {
                    v@ == Seq::<DentryInfo>::empty() && new_pos == pos
                } else {
                    v@ == parent_info.dentry_seq().subrange(pos as int, n as int) && new_pos == n
                }
            },
            Err(e) => (!init_inode_of_type(sbi.dev@, parent, InodeType::DIR) && (e == Error::EINVAL || e
                == Error::EPERM)) || (e == Error::EINVAL && parent_info.dentry_seq().len() > i64::MAX),
        }),
{
    let _parent_inode = InodeWrapper::get_init_dir_inode_by_ino(&sbi.dev, parent)?;
    let dentries = parent_info.get_all_dentries()?;
    let num_dentries = dentries.len();
    if num_dentries as u64 > i64::MAX as u64 {
        return Err(Error::EINVAL);
    }
    if pos >= num_dentries as i64 {
        return Ok((Vec::new(), pos));
    }
    let start = pos as usize;
    let mut listed: Vec<DentryInfo> = Vec::new();
    let mut k: usize = start;
    while k < num_dentries
        invariant
            start <= k <= num_dentries,
            num_dentries == dentries@.len(),
            listed@ == dentries@.subrange(start as int, k as int),
        decreases num_dentries - k,
    {
        listed.push(dentries[k]);
        proof {
            assert(listed@ =~= dentries@.subrange(start as int, k + 1));
        }
        k = k + 1;
    }
    Ok((listed, num_dentries as i64))
}

/// Makes file `target` also known as `name` in directory `parent`, whose
/// index is `parent_info`: a free entry gets the name and the inode number,
/// and the file gains a link, its change time becoming `now`.
pub fn hayleyfs_link(
    sbi: &mut SbInfo,
    target: InodeNum,
    parent: InodeNum,
    parent_info: &mut HayleyFsDirInodeInfo,
    name: &[u8],
    now: Timespec,
) -> (r: Result<(DentryWrapper<Clean, Complete>, InodeWrapper<Clean, Complete, RegInode>), Error>)
    requires
        old(sbi).wf(),
        old(sbi).dir_info_ok(*old(parent_info)),
        old(parent_info).spec_ino() == parent,
    ensures
        final(sbi).wf(),
        final(sbi).dir_info_ok(*final(parent_info)),
        old(sbi).alloc_agrees() ==> final(sbi).alloc_agrees(),
        (match r {
            Ok((d, i)) => {
                let old_i = old(sbi).dev@.inodes[target as int];
                &&& entry_added(*old(sbi), *final(sbi), *old(parent_info), *final(parent_info), parent, d.spec_loc(), name@, target)
                &&& final(sbi).dev@.data == old(sbi).dev@.data
                &&& i.spec_ino() == target
                &&& init_inode_of_type(old(sbi).dev@, target, InodeType::REG)
                &&& old_i.link_count < MAX_LINKS
                &&& final(sbi).dev@.inodes == old(sbi).dev@.inodes.update(
                    target as int,
                    HayleyFsInode { link_count: (old_i.link_count + 1) as u16, ctime: now, ..old_i },
                )
                &&& final(sbi).inode_allocator == old(sbi).inode_allocator
                &&& dir_space_step(*old(sbi), *final(sbi), *old(parent_info), *final(parent_info), parent, d.spec_loc())
                &&& final(sbi).inodes_in_use == old(sbi).inodes_in_use
            },
            Err(e) => {
                &&& final(parent_info).spec_ino() == old(parent_info).spec_ino()
                &&& final(parent_info).dentry_map() == old(parent_info).dentry_map()
                &&& (!init_inode_of_type(old(sbi).dev@, parent, InodeType::DIR) ==> {
                    &&& *final(sbi) == *old(sbi)
                    &&& e == not_dir_error(parent)
                })
                &&& (e == Error::ENAMETOOLONG ==> name@.len() > MAX_FILENAME_LEN)
                &&& (init_inode_of_type(old(sbi).dev@, parent, InodeType::DIR) && name@.len() > MAX_FILENAME_LEN ==> {
                    &&& *final(sbi) == *old(sbi)
                    &&& e == Error::ENAMETOOLONG
                })
                &&& (e == Error::EINVAL || e == Error::EPERM || e == Error::ENOTDIR || e == Error::ENOSPC || e
                    == Error::ENAMETOOLONG || e == Error::EMLINK)
            },
        }),
        has_entry_room(*old(sbi), *old(parent_info), parent) && name@.len() <= MAX_FILENAME_LEN
            && init_inode_of_type(old(sbi).dev@, target, InodeType::REG) && old(sbi).dev@.inodes[target as int].link_count
            < MAX_LINKS ==> r is Ok,
{
    let ghost s0 = *sbi;
    let _parent_inode = InodeWrapper::get_init_dir_inode_by_ino(&sbi.dev, parent)?;
    if name.len() > MAX_FILENAME_LEN {
        return Err(Error::ENAMETOOLONG);
    }
    let pd = get_free_dentry(sbi, parent, parent_info)?;
    let ghost s1 = *sbi;
    let ghost loc = pd.spec_loc();
    let pd = pd.set_name(&mut sbi.dev, name)?.flush().fence();
    proof {
        if s0.alloc_agrees() {
            assert(sbi.dev@.inodes == s1.dev@.inodes);
            assert(sbi.dev@.descs == s1.dev@.descs);
            SbInfo::lemma_agrees_kept(s1, *sbi);
        }
    }
    let ghost s2 = *sbi;
    proof {
        assert(s2.dev@.inodes == s0.dev@.inodes);
    }
    let target_inode = InodeWrapper::get_init_reg_inode_by_ino(&sbi.dev, target)?;
    let target_inode = target_inode.inc_link_count(&mut sbi.dev, now)?.flush().fence();
    let ghost s3 = *sbi;
    let (pd, target_inode) = pd.set_file_ino(&mut sbi.dev, target_inode);
    let pd = pd.flush().fence();
    proof {
        assert forall|q: PageNum| #[trigger] parent_info.page_set().contains(q) implies sbi.page_ok(q) by {
            assert(s1.page_ok(q));
        }
    }
    pd.index(&sbi.dev, parent_info)?;
    proof {
        assert(dentry_free(s1.dev@.dentry(loc)));
        assert(name_over(s1.dev@.dentry(loc).name, name@) =~= spec_name_bytes(name@));
        assert(init_inode_of_type(s0.dev@, target, InodeType::REG));
        assert(sbi.dev@.inodes =~= s0.dev@.inodes.update(
            target as int,
            HayleyFsInode { link_count: (s0.dev@.inodes[target as int].link_count + 1) as u16, ctime: now, ..s0.dev@.inodes[target as int] },
        ));
        assert forall|l: DentryLoc| #[trigger] s0.dev@.valid_loc(l) && l != loc implies sbi.dev@.dentry(l) == s0.dev@.dentry(l) by {
            assert(s1.dev@.dentry(l) == s0.dev@.dentry(l));
        }
        if s0.alloc_agrees() {
            lemma_dir_step_agrees(s0, *sbi, *old(parent_info), *parent_info, parent, loc);
        }
    }
    Ok((pd, target_inode))
}

/// Allocates an inode number and makes the named entry `dentry` point at a
/// new directory in it, whose parent `parent_inode` has gained a link.
fn init_dentry_with_new_dir_inode(
    sbi: &mut SbInfo,
    dentry: DentryWrapper<Clean, Alloc>,
    parent_inode: InodeWrapper<Clean, IncLink, DirInode>,
    mode: u16,
    uid: u32,
    gid: u32,
    now: Timespec,
) -> (r: Result<
    (DentryWrapper<Clean, Complete>, InodeWrapper<Clean, Complete, DirInode>, InodeWrapper<Clean, Complete, DirInode>),
    Error,
>)
    requires
        old(sbi).wf(),
        old(sbi).dev@.valid_loc(dentry.spec_loc()),
    ensures
        final(sbi).wf(),
        same_indexes(*old(sbi), *final(sbi)),
        final(sbi).free_pages() == old(sbi).free_pages(),
        final(sbi).blocks_in_use == old(sbi).blocks_in_use,
        final(sbi).inodes_in_use == old(sbi).inodes_in_use,
        (match r {
            Ok((d, parent, i)) => {
                let ino = i.spec_ino();
                &&& d.spec_loc() == dentry.spec_loc()
                &&& parent.spec_ino() == parent_inode.spec_ino()
                &&& 0 < ino < NUM_INODES
                &&& inode_free(old(sbi).dev@.inodes[ino as int])
                &&& old(sbi).inode_allocator.free_inos().contains(ino)
                &&& forall|q: InodeNum| #[trigger] old(sbi).inode_allocator.free_inos().contains(q) ==> ino <= q
                &&& final(sbi).inode_allocator.free_inos() == old(sbi).inode_allocator.free_inos().remove(ino)
                &&& final(sbi).dev@ == with_dentry(
                    with_inode(old(sbi).dev@, ino, new_dir_inode(ino, mode, uid, gid, now)),
                    dentry.spec_loc(),
                    HayleyFsDentry { ino, ..old(sbi).dev@.dentry(dentry.spec_loc()) },
                )
            },
            Err(e) => {
                &&& final(sbi).dev@ == old(sbi).dev@
                &&& (e == Error::ENOSPC || e == Error::EINVAL || e == Error::EPERM)
            },
        }),
        inos_agree(*old(sbi)) && !old(sbi).inode_allocator.free_inos().is_empty() ==> r is Ok,
        old(sbi).alloc_agrees() ==> final(sbi).alloc_agrees(),
{
    let ghost s0 = *sbi;
    let new_ino = match sbi.inode_allocator.alloc_ino() {
        Ok(i) => i,
        Err(e) => {
            proof {
                if s0.alloc_agrees() {
                    SbInfo::lemma_agrees_kept(s0, *sbi);
                }
            }
            return Err(e);
        },
    };
    proof {
        if s0.alloc_agrees() {
            SbInfo::lemma_agrees_kept(s0, *sbi);
        }
    }
    let new_inode = InodeWrapper::get_free_dir_inode_by_ino(&sbi.dev, new_ino)?;
    let new_inode = new_inode.allocate_dir_inode(&mut sbi.dev, mode, uid, gid, now)?.flush().fence();
    let (dentry, new_inode, parent_inode) = dentry.set_dir_ino(&mut sbi.dev, new_inode, parent_inode);
    let dentry = dentry.flush().fence();
    proof {
        if s0.alloc_agrees() {
            assert(sbi.dev@.descs == s0.dev@.descs);
            assert forall|i: InodeNum| #[trigger] sbi.inode_allocator.free_inos().contains(i) implies s0.inode_allocator.free_inos().contains(i)
                && sbi.dev@.inodes[i as int] == s0.dev@.inodes[i as int] by {
                assert(i != new_ino);
            }
            SbInfo::lemma_agrees_kept(s0, *sbi);
        }
    }
    Ok((dentry, parent_inode, new_inode))
}

/// Creates directory `name` in directory `parent`, whose index is
/// `parent_info`: the parent gains a link, a free entry gets the name and
/// the smallest free inode number, whose inode becomes a directory of two
/// links with mode `mode | S_IFDIR`, owner `uid`/`gid` and all times `now`.
pub fn hayleyfs_mkdir(
    sbi: &mut SbInfo,
    parent: InodeNum,
    parent_info: &mut HayleyFsDirInodeInfo,
    name: &[u8],
    mode: u16,
    uid: u32,
    gid: u32,
    now: Timespec,
) -> (r: Result<
    (DentryWrapper<Clean, Complete>, InodeWrapper<Clean, Complete, DirInode>, InodeWrapper<Clean, Complete, DirInode>),
    Error,
>)
    requires
        old(sbi).wf(),
        old(sbi).dir_info_ok(*old(parent_info)),
        old(parent_info).spec_ino() == parent,
    ensures
        final(sbi).wf(),
        final(sbi).dir_info_ok(*final(parent_info)),
        old(sbi).alloc_agrees() ==> final(sbi).alloc_agrees(),
        (match r {
            Ok((d, p, i)) => {
                let ino = i.spec_ino();
                let old_p = old(sbi).dev@.inodes[parent as int];
                &&& p.spec_ino() == parent
                &&& entry_added(*old(sbi), *final(sbi), *old(parent_info), *final(parent_info), parent, d.spec_loc(), name@, ino)
                &&& final(sbi).dev@.data == old(sbi).dev@.data
                &&& 0 < ino < NUM_INODES
                &&& ino != parent
                &&& inode_free(old(sbi).dev@.inodes[ino as int])
                &&& old(sbi).inode_allocator.free_inos().contains(ino)
                &&& forall|q: InodeNum| #[trigger] old(sbi).inode_allocator.free_inos().contains(q) ==> ino <= q
                &&& final(sbi).inode_allocator.free_inos() == old(sbi).inode_allocator.free_inos().remove(ino)
                &&& old_p.link_count < MAX_LINKS
                &&& final(sbi).dev@.inodes == old(sbi).dev@.inodes.update(
                    parent as int,
                    HayleyFsInode { link_count: (old_p.link_count + 1) as u16, ctime: now, ..old_p },
                ).update(ino as int, new_dir_inode(ino, mode, uid, gid, now))
                &&& final(sbi).dev@.inodes[ino as int].uid == uid
                &&& final(sbi).dev@.inodes[ino as int].gid == gid
                &&& final(sbi).dev@.inodes[ino as int].mode == mode | S_IFDIR
                &&& dir_space_step(*old(sbi), *final(sbi), *old(parent_info), *final(parent_info), parent, d.spec_loc())
                &&& final(sbi).inodes_in_use == old(sbi).inodes_in_use
            },
            Err(e) => {
                &&& final(parent_info).spec_ino() == old(parent_info).spec_ino()
                &&& final(parent_info).dentry_map() == old(parent_info).dentry_map()
                &&& (!init_inode_of_type(old(sbi).dev@, parent, InodeType::DIR) ==> {
                    &&& *final(sbi) == *old(sbi)
                    &&& e == not_dir_error(parent)
                })
                &&& (e == Error::ENAMETOOLONG ==> name@.len() > MAX_FILENAME_LEN)
                &&& (init_inode_of_type(old(sbi).dev@, parent, InodeType::DIR) && name@.len() > MAX_FILENAME_LEN ==> {
                    &&& *final(sbi) == *old(sbi)
                    &&& e == Error::ENAMETOOLONG
                })
                &&& (init_inode_of_type(old(sbi).dev@, parent, InodeType::DIR) && name@.len() <= MAX_FILENAME_LEN
                    && old(sbi).dev@.inodes[parent as int].link_count == MAX_LINKS ==> final(sbi).dev@ == old(sbi).dev@
                    && e == Error::EMLINK)
                &&& (e == Error::EINVAL || e == Error::EPERM || e == Error::ENOTDIR || e == Error::ENOSPC || e
                    == Error::ENAMETOOLONG || e == Error::EMLINK)
            },
        }),
        has_entry_room(*old(sbi), *old(parent_info), parent) && name@.len() <= MAX_FILENAME_LEN
            && old(sbi).dev@.inodes[parent as int].link_count < MAX_LINKS && inos_agree(*old(sbi))
            && !old(sbi).inode_allocator.free_inos().is_empty() ==> r is Ok,
{
    let ghost s0 = *sbi;
    let parent_inode = InodeWrapper::get_init_dir_inode_by_ino(&sbi.dev, parent)?;
    if name.len() > MAX_FILENAME_LEN {
        return Err(Error::ENAMETOOLONG);
    }
    let parent_inode = match parent_inode.inc_link_count(&mut sbi.dev, now) {
        Ok(w) => w.flush().fence(),
        Err(e) => {
            proof {
                lemma_agrees_past_live(s0, *sbi, parent);
            }
            return Err(e);
        },
    };
    let ghost sp = *sbi;
    proof {
        lemma_agrees_past_live(s0, sp, parent);
    }
    proof {
        if has_entry_room(s0, *parent_info, parent) {
            assert(sbi.dev@.descs == s0.dev@.descs);
            assert(sbi.dev@.dirs == s0.dev@.dirs);
            assert(init_inode_of_type(sbi.dev@, parent, InodeType::DIR));
            assert forall|q: PageNum| #[trigger] parent_info.page_set().contains(q) implies dir_page_readable(
                sbi.dev@,
                q as int,
            ) by {
                assert(sbi.dev@.desc(q as int) == s0.dev@.desc(q as int));
            }
            if exists|q: PageNum| #[trigger] parent_info.page_set().contains(q) && dir_page_has_free(s0.dev@, q as int) {
                let q = choose|q: PageNum| #[trigger] parent_info.page_set().contains(q) && dir_page_has_free(s0.dev@, q as int);
                assert(sbi.dev@.dir(q as int) == s0.dev@.dir(q as int));
                assert(dir_page_has_free(sbi.dev@, q as int));
            } else {
                assert forall|q: PageNum| #[trigger] sbi.free_pages().contains(q) implies desc_free(sbi.dev@.desc(q as int))
                    && dir_page_has_free(sbi.dev@, q as int) by {
                    assert(s0.free_pages().contains(q));
                    assert(sbi.dev@.dir(q as int) == s0.dev@.dir(q as int));
                    assert(sbi.dev@.desc(q as int) == s0.dev@.desc(q as int));
                }
            }
            assert(has_entry_room(*sbi, *parent_info, parent));
        }
        assert(sbi.same_pools(s0));
        assert forall|q: PageNum| #[trigger] parent_info.page_set().contains(q) implies sbi.page_ok(q) by {
            assert(s0.page_ok(q));
        }
    }
    let pd = get_free_dentry(sbi, parent, parent_info)?;
    let ghost s1 = *sbi;
    let ghost loc = pd.spec_loc();
    let pd = pd.set_name(&mut sbi.dev, name)?.flush().fence();
    proof {
        if s0.alloc_agrees() {
            assert(sbi.dev@.inodes == s1.dev@.inodes);
            assert(sbi.dev@.descs == s1.dev@.descs);
            SbInfo::lemma_agrees_kept(s1, *sbi);
        }
    }
    proof {
        if inos_agree(s0) {
            assert forall|i: InodeNum| #[trigger] sbi.inode_allocator.free_inos().contains(i) implies 0 < i < NUM_INODES
                && inode_free(sbi.dev@.inodes[i as int]) by {
                assert(s0.inode_allocator.free_inos().contains(i));
                assert(i != parent);
            }
        }
    }
    let (dentry, parent_inode, new_inode) = init_dentry_with_new_dir_inode(sbi, pd, parent_inode, mode, uid, gid, now)?;
    proof {
        assert forall|q: PageNum| #[trigger] parent_info.page_set().contains(q) implies sbi.page_ok(q) by {
            assert(s1.page_ok(q));
        }
    }
    dentry.index(&sbi.dev, parent_info)?;
    proof {
        let ino = new_inode.spec_ino();
        assert(dentry_free(s1.dev@.dentry(loc)));
        assert(name_over(s1.dev@.dentry(loc).name, name@) =~= spec_name_bytes(name@));
        assert(ino != parent);
        assert(sbi.dev@.inodes =~= s0.dev@.inodes.update(
            parent as int,
            HayleyFsInode { link_count: (s0.dev@.inodes[parent as int].link_count + 1) as u16, ctime: now, ..s0.dev@.inodes[parent as int] },
        ).update(ino as int, new_dir_inode(ino, mode, uid, gid, now)));
        assert forall|l: DentryLoc| #[trigger] s0.dev@.valid_loc(l) && l != loc implies sbi.dev@.dentry(l) == s0.dev@.dentry(l) by {
            assert(s1.dev@.dentry(l) == s0.dev@.dentry(l));
        }
        if s0.alloc_agrees() {
            lemma_dir_step_agrees(s0, *sbi, *old(parent_info), *parent_info, parent, loc);
        }
    }
    Ok((dentry, parent_inode, new_inode))
}

/// Descriptor table entry `idx` is that of one of `pages`.
pub open spec fn among(pages: Seq<PageNum>, idx: int) -> bool {
    exists|j: int| 0 <= j < pages.len() && pages[j] - DATA_PAGE_START == idx
}

/// `v1` is `v0` with the owners of `pages` cleared.
pub open spec fn pages_unmapped(v0: PmView, v1: PmView, pages: Seq<PageNum>) -> bool {
    &&& v1 == (PmView { descs: v1.descs, ..v0 })
    &&& v1.descs.len() == v0.descs.len()
    &&& forall|idx: int|
        0 <= idx < v0.descs.len() ==> #[trigger] v1.descs[idx] == (if among(pages, idx) {
            PageDescriptor { ino: 0, ..v0.descs[idx] }
        } else {
            v0.descs[idx]
        })
}

/// `v1` is `v0` with the descriptors of `pages` zeroed.
pub open spec fn pages_freed(v0: PmView, v1: PmView, pages: Seq<PageNum>) -> bool {
    &&& v1 == (PmView { descs: v1.descs, ..v0 })
    &&& v1.descs.len() == v0.descs.len()
    &&& forall|idx: int|
        0 <= idx < v0.descs.len() ==> #[trigger] v1.descs[idx] == (if among(pages, idx) {
            PageDescriptor { page_type: PageType::NONE, ino: 0, offset: 0 }
        } else {
            v0.descs[idx]
        })
}

/// The descriptor of every page of `freed` was zeroed and each went back
/// to the allocator; nothing else of the descriptor table or the
/// allocator changed.
pub open spec fn pages_released(s0: SbInfo, s1: SbInfo, freed: Set<PageNum>) -> bool {
    &&& s1.free_pages() == s0.free_pages().union(freed)
    &&& s1.dev@.descs.len() == s0.dev@.descs.len()
    &&& forall|idx: int|
        0 <= idx < s0.dev@.descs.len() ==> #[trigger] s1.dev@.descs[idx] == (if freed.contains((idx + DATA_PAGE_START) as u64) {
            PageDescriptor { page_type: PageType::NONE, ino: 0, offset: 0 }
        } else {
            s0.dev@.descs[idx]
        })
}

/// The pages an unlink frees: those of the file when its last link goes,
/// and the page of the removed entry when no live entry is left in it.
pub open spec fn unlink_freed(s0: SbInfo, s1: SbInfo, target_info: HayleyFsRegInodeInfo, links: u16, q: PageNum) -> Set<PageNum> {
    let emptied = dir_page_all_free(s1.dev@, q as int) && dir_page_readable(s0.dev@, q as int);
    (if links == 1 { info_page_nos(target_info).to_set() } else { Set::empty() }).union(
        if emptied { Set::empty().insert(q) } else { Set::empty() },
    )
}

/// The pages an rmdir frees: those of the removed directory, and the page
/// of the removed entry when no live entry is left in it.
pub open spec fn rmdir_freed(s0: SbInfo, s1: SbInfo, victim_info: HayleyFsDirInodeInfo, q: PageNum) -> Set<PageNum> {
    let emptied = dir_page_all_free(s1.dev@, q as int) && dir_page_readable(s0.dev@, q as int);
    victim_info.page_set().union(if emptied { Set::empty().insert(q) } else { Set::empty() })
}

proof fn lemma_unlink_pages(
    s0: SbInfo,
    s1: SbInfo,
    s2: SbInfo,
    s3: SbInfo,
    info: HayleyFsRegInodeInfo,
    links: u16,
    q: PageNum,
)
    requires
        s0.dev@.descs.len() + DATA_PAGE_START <= u64::MAX,
        s0.dev@.has_page(q as int),
        s1.dev@.descs == s0.dev@.descs,
        s1.free_pages() == s0.free_pages(),
        s3.dev@.dir(q as int) == s1.dev@.dir(q as int),
        dir_page_all_free(s1.dev@, q as int) && dir_page_readable(s1.dev@, q as int) ==> {
            &&& s2.dev@ == with_desc(s1.dev@, q as int, PageDescriptor { page_type: PageType::NONE, ino: 0, offset: 0 })
            &&& s2.free_pages() == s1.free_pages().insert(q)
        },
        !(dir_page_all_free(s1.dev@, q as int) && dir_page_readable(s1.dev@, q as int)) ==> s2 == s1,
        links == 1 ==> {
            &&& s3.free_pages() == s2.free_pages().union(info_page_nos(info).to_set())
            &&& pages_freed(s2.dev@, PmView { inodes: s2.dev@.inodes, ..s3.dev@ }, info_page_nos(info))
        },
        links != 1 ==> s3 == s2,
    ensures
        pages_released(s0, s3, unlink_freed(s0, s3, info, links, q)),
{
    let pns = info_page_nos(info);
    let zero = PageDescriptor { page_type: PageType::NONE, ino: 0, offset: 0 };
    let freed = unlink_freed(s0, s3, info, links, q);
    let v = PmView { inodes: s2.dev@.inodes, ..s3.dev@ };
    let e1 = dir_page_all_free(s1.dev@, q as int) && dir_page_readable(s1.dev@, q as int);
    assert(dir_page_all_free(s3.dev@, q as int) == dir_page_all_free(s1.dev@, q as int));
    assert(e1 == (dir_page_all_free(s3.dev@, q as int) && dir_page_readable(s0.dev@, q as int)));
    assert(s2.dev@.descs.len() == s0.dev@.descs.len());
    assert forall|idx: int| 0 <= idx < s0.dev@.descs.len() implies #[trigger] s2.dev@.descs[idx] == (if e1 && idx
        == q - DATA_PAGE_START {
        zero
    } else {
        s0.dev@.descs[idx]
    }) by {}
    assert(s2.free_pages() == (if e1 { s0.free_pages().insert(q) } else { s0.free_pages() }));
    assert forall|idx: int| 0 <= idx < s0.dev@.descs.len() implies #[trigger] s3.dev@.descs[idx] == (if freed.contains(
        (idx + DATA_PAGE_START) as u64,
    ) {
        zero
    } else {
        s0.dev@.descs[idx]
    }) by {
        if links == 1 {
            assert(v.descs[idx] == s3.dev@.descs[idx]);
            if among(pns, idx) {
                let j = choose|j: int| 0 <= j < pns.len() && pns[j] - DATA_PAGE_START == idx;
                assert(pns.to_set().contains(pns[j]));
            } else if pns.to_set().contains((idx + DATA_PAGE_START) as u64) {
                let j = choose|j: int| 0 <= j < pns.len() && pns[j] == (idx + DATA_PAGE_START) as u64;
                assert(among(pns, idx));
            }
        }
    }
    assert(s3.free_pages() =~= s0.free_pages().union(freed));
}

proof fn lemma_rmdir_pages(
    s0: SbInfo,
    s1: SbInfo,
    s2: SbInfo,
    s3: SbInfo,
    s4: SbInfo,
    info: HayleyFsDirInodeInfo,
    q: PageNum,
)
    requires
        s0.dev@.descs.len() + DATA_PAGE_START <= u64::MAX,
        s0.dev@.has_page(q as int),
        info.wf(),
        s1.dev@.descs == s0.dev@.descs,
        s1.free_pages() == s0.free_pages(),
        pages_freed(s1.dev@, s2.dev@, info.page_seq()),
        s2.free_pages() == s1.free_pages().union(info.page_set()),
        s3.dev@.descs == s2.dev@.descs,
        s3.free_pages() == s2.free_pages(),
        s4.dev@.dir(q as int) == s3.dev@.dir(q as int),
        dir_page_all_free(s3.dev@, q as int) && dir_page_readable(s3.dev@, q as int) ==> {
            &&& s4.dev@ == with_desc(s3.dev@, q as int, PageDescriptor { page_type: PageType::NONE, ino: 0, offset: 0 })
            &&& s4.free_pages() == s3.free_pages().insert(q)
        },
        !(dir_page_all_free(s3.dev@, q as int) && dir_page_readable(s3.dev@, q as int)) ==> s4 == s3,
    ensures
        pages_released(s0, s4, rmdir_freed(s0, s4, info, q)),
{
    let zero = PageDescriptor { page_type: PageType::NONE, ino: 0, offset: 0 };
    let vs = info.page_seq();
    let freed = rmdir_freed(s0, s4, info, q);
    info.lemma_wf();
    let e1 = dir_page_all_free(s3.dev@, q as int) && dir_page_readable(s3.dev@, q as int);
    assert(dir_page_all_free(s4.dev@, q as int) == dir_page_all_free(s3.dev@, q as int));
    assert forall|idx: int| 0 <= idx < s0.dev@.descs.len() implies #[trigger] s4.dev@.descs[idx] == (if freed.contains(
        (idx + DATA_PAGE_START) as u64,
    ) {
        zero
    } else {
        s0.dev@.descs[idx]
    }) by {
        if among(vs, idx) {
            let j = choose|j: int| 0 <= j < vs.len() && vs[j] - DATA_PAGE_START == idx;
            assert(vs.to_set().contains(vs[j]));
        } else if info.page_set().contains((idx + DATA_PAGE_START) as u64) {
            assert(vs.to_set().contains((idx + DATA_PAGE_START) as u64));
            let j = choose|j: int| 0 <= j < vs.len() && vs[j] == (idx + DATA_PAGE_START) as u64;
            assert(among(vs, idx));
        }
        if q - DATA_PAGE_START == idx && info.page_set().contains(q) {
            assert(vs.to_set().contains(q));
            let j = choose|j: int| 0 <= j < vs.len() && vs[j] == q;
            assert(among(vs, idx));
            assert(!dir_page_readable(s3.dev@, q as int));
        }
    }
    if info.page_set().contains(q) {
        assert(vs.to_set().contains(q));
        let j = choose|j: int| 0 <= j < vs.len() && vs[j] == q;
        assert(among(vs, q - DATA_PAGE_START));
        assert(!e1);
    }
    assert(s4.free_pages() =~= s0.free_pages().union(freed));
}

/// A step that frees pages as `pages_released` says, leaves the inode
/// allocator alone and changes no free inode slot keeps the allocators in
/// agreement with the device.
proof fn lemma_release_agrees(s0: SbInfo, s1: SbInfo, freed: Set<PageNum>)
    requires
        s0.alloc_agrees(),
        s1.wf(),
        s1.inode_allocator == s0.inode_allocator,
        forall|i: InodeNum| #[trigger] s0.inode_allocator.free_inos().contains(i) ==> s1.dev@.inodes[i as int] == s0.dev@.inodes[i as int],
        pages_released(s0, s1, freed),
    ensures
        s1.alloc_agrees(),
{
    assert forall|p: PageNum| #[trigger] s1.free_pages().contains(p) implies desc_free(s1.dev@.desc(p as int)) || (
    s0.free_pages().contains(p) && s1.dev@.desc(p as int) == s0.dev@.desc(p as int)) by {
        assert(s1.dev@.has_page(p as int));
        let idx = p - DATA_PAGE_START;
        assert((idx + DATA_PAGE_START) as u64 == p);
        assert(s1.dev@.descs[idx] == (if freed.contains(p) {
            PageDescriptor { page_type: PageType::NONE, ino: 0, offset: 0 }
        } else {
            s0.dev@.descs[idx]
        }));
    }
    SbInfo::lemma_agrees_kept(s0, s1);
}

/// A step that zeroes the descriptors of pages `pns`, hands the allocator
/// some of them back and changes nothing else of the device or the inode
/// allocator keeps the allocators in agreement with the device.
proof fn lemma_freed_pages_agree(s0: SbInfo, s1: SbInfo, pns: Seq<PageNum>)
    requires
        s0.alloc_agrees(),
        s1.wf(),
        s1.inode_allocator == s0.inode_allocator,
        pages_freed(s0.dev@, s1.dev@, pns),
        s1.free_pages().subset_of(s0.free_pages().union(pns.to_set())),
    ensures
        s1.alloc_agrees(),
{
    assert forall|p: PageNum| #[trigger] s1.free_pages().contains(p) implies desc_free(s1.dev@.desc(p as int)) || (
    s0.free_pages().contains(p) && s1.dev@.desc(p as int) == s0.dev@.desc(p as int)) by {
        assert(s1.dev@.has_page(p as int));
        let idx = p - DATA_PAGE_START;
        if pns.to_set().contains(p) {
            let j = choose|j: int| 0 <= j < pns.len() && pns[j] == p;
            assert(among(pns, idx));
        } else {
            if among(pns, idx) {
                let j = choose|j: int| 0 <= j < pns.len() && pns[j] - DATA_PAGE_START == idx;
                assert(pns[j] == p);
                assert(pns.to_set().contains(pns[j]));
            }
        }
    }
    SbInfo::lemma_agrees_kept(s0, s1);
}

/// The page numbers of `pages`.
pub open spec fn page_nos<S, O>(pages: Seq<DataPageWrapper<S, O>>) -> Seq<PageNum> {
    Seq::new(pages.len(), |i: int| pages[i].spec_page_no())
}

/// The page numbers of `pages`.
pub open spec fn dir_page_nos<S, O>(pages: Seq<DirPageWrapper<S, O>>) -> Seq<PageNum> {
    Seq::new(pages.len(), |i: int| pages[i].spec_page_no())
}

proof fn lemma_among_push(pages: Seq<PageNum>, p: PageNum, idx: int)
    ensures
        among(pages.push(p), idx) == (among(pages, idx) || p - DATA_PAGE_START == idx),
{
    if among(pages.push(p), idx) {
        let j = choose|j: int| 0 <= j < pages.push(p).len() && pages.push(p)[j] - DATA_PAGE_START == idx;
        if j < pages.len() {
            assert(pages[j] - DATA_PAGE_START == idx);
        }
    }
    if among(pages, idx) {
        let j = choose|j: int| 0 <= j < pages.len() && pages[j] - DATA_PAGE_START == idx;
        assert(pages.push(p)[j] == pages[j]);
    }
    if p - DATA_PAGE_START == idx {
        assert(pages.push(p)[pages.len() as int] == p);
    }
}

/// Takes apart the data pages `pages` of a file with no link left: clears
/// their owner, then zeroes their descriptors, then returns them to the
/// allocator.  A page the allocator already holds is refused.
fn free_data_pages(sbi: &mut SbInfo, pages: Vec<DataPageWrapper<Clean, ToUnmap>>) -> (r: Result<
    Vec<DataPageWrapper<Clean, Free>>,
    Error,
>)
    requires
        old(sbi).wf(),
        forall|i: int| 0 <= i < pages@.len() ==> old(sbi).page_ok(#[trigger] pages@[i].spec_page_no()),
    ensures
        final(sbi).wf(),
        final(sbi).unchanged_but_pages(*old(sbi)),
        final(sbi).inodes_in_use == old(sbi).inodes_in_use,
        pages_freed(old(sbi).dev@, final(sbi).dev@, page_nos(pages@)),
        (match r {
            Ok(v) => {
                &&& page_nos(v@) == page_nos(pages@)
                &&& final(sbi).free_pages() == old(sbi).free_pages().union(page_nos(pages@).to_set())
            },
            Err(e) => e == Error::EINVAL,
        }),
        final(sbi).free_pages().subset_of(old(sbi).free_pages().union(page_nos(pages@).to_set())),
        old(sbi).alloc_agrees() ==> final(sbi).alloc_agrees(),
        old(sbi).page_allocator is Some && page_nos(pages@).no_duplicates() && (forall|j: int|
            0 <= j < pages@.len() ==> !old(sbi).page_is_free(#[trigger] page_nos(pages@)[j])) ==> r is Ok,
{
    let ghost s0 = *sbi;
    let ghost pns = page_nos(pages@);
    let mut remaining = pages;
    let mut unmapped: Vec<DataPageWrapper<Clean, ClearIno>> = Vec::new();
    while remaining.len() > 0
        invariant
            s0 == *old(sbi),
            pns == page_nos(pages@),
            sbi.wf(),
            *sbi == (SbInfo { dev: sbi.dev, ..s0 }),
            unmapped@.len() + remaining@.len() == pns.len(),
            page_nos(unmapped@) == pns.take(unmapped@.len() as int),
            page_nos(remaining@) == pns.skip(unmapped@.len() as int),
            forall|j: int| 0 <= j < pns.len() ==> s0.page_ok(#[trigger] pns[j]),
            pages_unmapped(s0.dev@, sbi.dev@, pns.take(unmapped@.len() as int)),
        decreases remaining@.len(),
    {
        let ghost k = unmapped@.len() as int;
        let ghost v_before = sbi.dev@;
        let ghost old_pages = remaining@;
        let page = remaining.remove(0);
        proof {
            assert(page_nos(old_pages)[0] == pns.skip(k)[0]);
            assert forall|j: int| 0 <= j < remaining@.len() implies #[trigger] page_nos(remaining@)[j] == pns.skip(k + 1)[j] by {
                assert(remaining@[j] == old_pages[j + 1]);
                assert(page_nos(old_pages)[j + 1] == pns.skip(k)[j + 1]);
            }
            assert(page_nos(remaining@) =~= pns.skip(k + 1));
            assert(page.spec_page_no() == pns[k]);
            assert(s0.page_ok(pns[k]));
        }
        let page = page.unmap(&mut sbi.dev).flush().fence();
        let ghost before = unmapped@;
        unmapped.push(page);
        proof {
            assert(page_nos(unmapped@) =~= pns.take(k + 1));
            assert(pns.take(k + 1) =~= pns.take(k).push(pns[k]));
            assert forall|idx: int| 0 <= idx < s0.dev@.descs.len() implies #[trigger] sbi.dev@.descs[idx] == (if among(pns.take(k + 1), idx) {
                PageDescriptor { ino: 0, ..s0.dev@.descs[idx] }
            } else {
                s0.dev@.descs[idx]
            }) by {
                lemma_among_push(pns.take(k), pns[k], idx);
                assert(v_before.descs[idx] == (if among(pns.take(k), idx) {
                    PageDescriptor { ino: 0, ..s0.dev@.descs[idx] }
                } else {
                    s0.dev@.descs[idx]
                }));
            }
            assert(sbi.dev@ == (PmView { descs: sbi.dev@.descs, ..s0.dev@ }));
        }
    }
    proof {
        assert(pns.take(unmapped@.len() as int) =~= pns);
    }
    let ghost s1 = *sbi;
    let mut deallocated: Vec<DataPageWrapper<Clean, Dealloc>> = Vec::new();
    while unmapped.len() > 0
        invariant
            s0 == *old(sbi),
            pns == page_nos(pages@),
            sbi.wf(),
            *sbi == (SbInfo { dev: sbi.dev, ..s0 }),
            pages_unmapped(s0.dev@, s1.dev@, pns),
            deallocated@.len() + unmapped@.len() == pns.len(),
            page_nos(deallocated@) == pns.take(deallocated@.len() as int),
            page_nos(unmapped@) == pns.skip(deallocated@.len() as int),
            forall|j: int| 0 <= j < pns.len() ==> s0.page_ok(#[trigger] pns[j]),
            sbi.dev@ == (PmView { descs: sbi.dev@.descs, ..s0.dev@ }),
            sbi.dev@.descs.len() == s0.dev@.descs.len(),
            forall|idx: int|
                0 <= idx < s0.dev@.descs.len() ==> #[trigger] sbi.dev@.descs[idx] == (if among(
                    pns.take(deallocated@.len() as int),
                    idx,
                ) {
                    PageDescriptor { page_type: PageType::NONE, ino: 0, offset: 0 }
                } else {
                    s1.dev@.descs[idx]
                }),
        decreases unmapped@.len(),
    {
        let ghost k = deallocated@.len() as int;
        let ghost v_before = sbi.dev@;
        let ghost old_pages = unmapped@;
        let page = unmapped.remove(0);
        proof {
            assert(page_nos(old_pages)[0] == pns.skip(k)[0]);
            assert forall|j: int| 0 <= j < unmapped@.len() implies #[trigger] page_nos(unmapped@)[j] == pns.skip(k + 1)[j] by {
                assert(unmapped@[j] == old_pages[j + 1]);
                assert(page_nos(old_pages)[j + 1] == pns.skip(k)[j + 1]);
            }
            assert(page_nos(unmapped@) =~= pns.skip(k + 1));
            assert(page.spec_page_no() == pns[k]);
            assert(s0.page_ok(pns[k]));
        }
        let page = page.dealloc(&mut sbi.dev).flush().fence();
        deallocated.push(page);
        proof {
            assert(page_nos(deallocated@) =~= pns.take(k + 1));
            assert(pns.take(k + 1) =~= pns.take(k).push(pns[k]));
            assert forall|idx: int| 0 <= idx < s0.dev@.descs.len() implies #[trigger] sbi.dev@.descs[idx] == (if among(pns.take(k + 1), idx) {
                PageDescriptor { page_type: PageType::NONE, ino: 0, offset: 0 }
            } else {
                s1.dev@.descs[idx]
            }) by {
                lemma_among_push(pns.take(k), pns[k], idx);
                assert(v_before.descs[idx] == (if among(pns.take(k), idx) {
                    PageDescriptor { page_type: PageType::NONE, ino: 0, offset: 0 }
                } else {
                    s1.dev@.descs[idx]
                }));
            }
            assert(sbi.dev@ == (PmView { descs: sbi.dev@.descs, ..s0.dev@ }));
        }
    }
    proof {
        assert(pns.take(deallocated@.len() as int) =~= pns);
        assert forall|idx: int| 0 <= idx < s0.dev@.descs.len() implies #[trigger] sbi.dev@.descs[idx] == (if among(pns, idx) {
            PageDescriptor { page_type: PageType::NONE, ino: 0, offset: 0 }
        } else {
            s0.dev@.descs[idx]
        }) by {
            assert(s1.dev@.descs[idx] == (if among(pns, idx) {
                PageDescriptor { ino: 0, ..s0.dev@.descs[idx] }
            } else {
                s0.dev@.descs[idx]
            }));
        }
    }
    let ghost s2 = *sbi;
    proof {
        assert(sbi.same_pools(s0));
        assert(pns.take(0).to_set() =~= Set::<PageNum>::empty());
        assert(sbi.free_pages() =~= s0.free_pages().union(pns.take(0).to_set()));
    }
    let mut i: usize = 0;
    while i < deallocated.len()
        invariant
            s0 == *old(sbi),
            pns == page_nos(pages@),
            sbi.wf(),
            sbi.dev == s2.dev,
            sbi.unchanged_but_pages(s0),
            sbi.inodes_in_use == s0.inodes_in_use,
            page_nos(deallocated@) == pns,
            forall|j: int| 0 <= j < pns.len() ==> s0.page_ok(#[trigger] pns[j]),
            i <= deallocated@.len(),
            pages_freed(s0.dev@, s2.dev@, pns),
            sbi.free_pages() == s0.free_pages().union(pns.take(i as int).to_set()),
        decreases deallocated@.len() - i,
    {
        let p = deallocated[i].get_page_no();
        proof {
            assert(p == pns[i as int]);
            assert(sbi.page_ok(p));
        }
        let ghost s_before = *sbi;
        let res = sbi.dealloc_page(p);
        proof {
            assert(sbi.same_pools(s0));
            assert(sbi.unchanged_but_pages(s0));
        }
        if res.is_err() {
            proof {
                if s0.page_allocator is Some && pns.no_duplicates() && (forall|j: int|
                    0 <= j < pns.len() ==> !s0.page_is_free(#[trigger] pns[j])) {
                    assert(!s0.page_is_free(pns[i as int]));
                    assert(pns.take(i as int).to_set().contains(p));
                    let j = choose|j: int| 0 <= j < pns.take(i as int).len() && pns.take(i as int)[j] == p;
                    assert(pns[j] == pns[i as int]);
                }
                assert(pns.take(i as int).to_set().subset_of(pns.to_set()));
                if s0.alloc_agrees() {
                    lemma_freed_pages_agree(s0, *sbi, pns);
                }
            }
            return Err(Error::EINVAL);
        }
        proof {
            assert(pns.take(i + 1).to_set() =~= pns.take(i as int).to_set().insert(p)) by {
                assert(pns.take(i + 1) =~= pns.take(i as int).push(p));
                pns.take(i as int).lemma_push_to_set_commute(p);
            }
            assert(sbi.free_pages() =~= s0.free_pages().union(pns.take(i + 1).to_set()));
        }
        i = i + 1;
    }
    proof {
        assert(pns.take(i as int) =~= pns);
    }
    let freed = DataPageWrapper::mark_pages_free(deallocated)?;
    proof {
        assert(page_nos(freed@) =~= pns);
    }
    Ok(freed)
}

/// Takes apart the directory pages `pages` of a directory being removed: clears
/// their owner, then zeroes their descriptors, then returns them to the
/// allocator.  A page the allocator already holds is refused.
fn free_dir_pages(sbi: &mut SbInfo, pages: Vec<DirPageWrapper<Clean, ToUnmap>>) -> (r: Result<
    Vec<DirPageWrapper<Clean, Free>>,
    Error,
>)
    requires
        old(sbi).wf(),
        forall|i: int| 0 <= i < pages@.len() ==> old(sbi).page_ok(#[trigger] pages@[i].spec_page_no()),
    ensures
        final(sbi).wf(),
        final(sbi).unchanged_but_pages(*old(sbi)),
        final(sbi).inodes_in_use == old(sbi).inodes_in_use,
        pages_freed(old(sbi).dev@, final(sbi).dev@, dir_page_nos(pages@)),
        (match r {
            Ok(v) => {
                &&& dir_page_nos(v@) == dir_page_nos(pages@)
                &&& final(sbi).free_pages() == old(sbi).free_pages().union(dir_page_nos(pages@).to_set())
            },
            Err(e) => e == Error::EINVAL,
        }),
        final(sbi).free_pages().subset_of(old(sbi).free_pages().union(dir_page_nos(pages@).to_set())),
        old(sbi).alloc_agrees() ==> final(sbi).alloc_agrees(),
        old(sbi).page_allocator is Some && dir_page_nos(pages@).no_duplicates() && (forall|j: int|
            0 <= j < pages@.len() ==> !old(sbi).page_is_free(#[trigger] dir_page_nos(pages@)[j])) ==> r is Ok,
{
    let ghost s0 = *sbi;
    let ghost pns = dir_page_nos(pages@);
    let mut remaining = pages;
    let mut unmapped: Vec<DirPageWrapper<Clean, ClearIno>> = Vec::new();
    while remaining.len() > 0
        invariant
            s0 == *old(sbi),
            pns == dir_page_nos(pages@),
            sbi.wf(),
            *sbi == (SbInfo { dev: sbi.dev, ..s0 }),
            unmapped@.len() + remaining@.len() == pns.len(),
            dir_page_nos(unmapped@) == pns.take(unmapped@.len() as int),
            dir_page_nos(remaining@) == pns.skip(unmapped@.len() as int),
            forall|j: int| 0 <= j < pns.len() ==> s0.page_ok(#[trigger] pns[j]),
            pages_unmapped(s0.dev@, sbi.dev@, pns.take(unmapped@.len() as int)),
        decreases remaining@.len(),
    {
        let ghost k = unmapped@.len() as int;
        let ghost v_before = sbi.dev@;
        let ghost old_pages = remaining@;
        let page = remaining.remove(0);
        proof {
            assert(dir_page_nos(old_pages)[0] == pns.skip(k)[0]);
            assert forall|j: int| 0 <= j < remaining@.len() implies #[trigger] dir_page_nos(remaining@)[j] == pns.skip(k + 1)[j] by {
                assert(remaining@[j] == old_pages[j + 1]);
                assert(dir_page_nos(old_pages)[j + 1] == pns.skip(k)[j + 1]);
            }
            assert(dir_page_nos(remaining@) =~= pns.skip(k + 1));
            assert(page.spec_page_no() == pns[k]);
            assert(s0.page_ok(pns[k]));
        }
        let page = page.unmap(&mut sbi.dev).flush().fence();
        let ghost before = unmapped@;
        unmapped.push(page);
        proof {
            assert(dir_page_nos(unmapped@) =~= pns.take(k + 1));
            assert(pns.take(k + 1) =~= pns.take(k).push(pns[k]));
            assert forall|idx: int| 0 <= idx < s0.dev@.descs.len() implies #[trigger] sbi.dev@.descs[idx] == (if among(pns.take(k + 1), idx) {
                PageDescriptor { ino: 0, ..s0.dev@.descs[idx] }
            } else {
                s0.dev@.descs[idx]
            }) by {
                lemma_among_push(pns.take(k), pns[k], idx);
                assert(v_before.descs[idx] == (if among(pns.take(k), idx) {
                    PageDescriptor { ino: 0, ..s0.dev@.descs[idx] }
                } else {
                    s0.dev@.descs[idx]
                }));
            }
            assert(sbi.dev@ == (PmView { descs: sbi.dev@.descs, ..s0.dev@ }));
        }
    }
    proof {
        assert(pns.take(unmapped@.len() as int) =~= pns);
    }
    let ghost s1 = *sbi;
    let mut deallocated: Vec<DirPageWrapper<Clean, Dealloc>> = Vec::new();
    while unmapped.len() > 0
        invariant
            s0 == *old(sbi),
            pns == dir_page_nos(pages@),
            sbi.wf(),
            *sbi == (SbInfo { dev: sbi.dev, ..s0 }),
            pages_unmapped(s0.dev@, s1.dev@, pns),
            deallocated@.len() + unmapped@.len() == pns.len(),
            dir_page_nos(deallocated@) == pns.take(deallocated@.len() as int),
            dir_page_nos(unmapped@) == pns.skip(deallocated@.len() as int),
            forall|j: int| 0 <= j < pns.len() ==> s0.page_ok(#[trigger] pns[j]),
            sbi.dev@ == (PmView { descs: sbi.dev@.descs, ..s0.dev@ }),
            sbi.dev@.descs.len() == s0.dev@.descs.len(),
            forall|idx: int|
                0 <= idx < s0.dev@.descs.len() ==> #[trigger] sbi.dev@.descs[idx] == (if among(
                    pns.take(deallocated@.len() as int),
                    idx,
                ) {
                    PageDescriptor { page_type: PageType::NONE, ino: 0, offset: 0 }
                } else {
                    s1.dev@.descs[idx]
                }),
        decreases unmapped@.len(),
    {
        let ghost k = deallocated@.len() as int;
        let ghost v_before = sbi.dev@;
        let ghost old_pages = unmapped@;
        let page = unmapped.remove(0);
        proof {
            assert(dir_page_nos(old_pages)[0] == pns.skip(k)[0]);
            assert forall|j: int| 0 <= j < unmapped@.len() implies #[trigger] dir_page_nos(unmapped@)[j] == pns.skip(k + 1)[j] by {
                assert(unmapped@[j] == old_pages[j + 1]);
                assert(dir_page_nos(old_pages)[j + 1] == pns.skip(k)[j + 1]);
            }
            assert(dir_page_nos(unmapped@) =~= pns.skip(k + 1));
            assert(page.spec_page_no() == pns[k]);
            assert(s0.page_ok(pns[k]));
        }
        let page = page.dealloc(&mut sbi.dev).flush().fence();
        deallocated.push(page);
        proof {
            assert(dir_page_nos(deallocated@) =~= pns.take(k + 1));
            assert(pns.take(k + 1) =~= pns.take(k).push(pns[k]));
            assert forall|idx: int| 0 <= idx < s0.dev@.descs.len() implies #[trigger] sbi.dev@.descs[idx] == (if among(pns.take(k + 1), idx) {
                PageDescriptor { page_type: PageType::NONE, ino: 0, offset: 0 }
            } else {
                s1.dev@.descs[idx]
            }) by {
                lemma_among_push(pns.take(k), pns[k], idx);
                assert(v_before.descs[idx] == (if among(pns.take(k), idx) {
                    PageDescriptor { page_type: PageType::NONE, ino: 0, offset: 0 }
                } else {
                    s1.dev@.descs[idx]
                }));
            }
            assert(sbi.dev@ == (PmView { descs: sbi.dev@.descs, ..s0.dev@ }));
        }
    }
    proof {
        assert(pns.take(deallocated@.len() as int) =~= pns);
        assert forall|idx: int| 0 <= idx < s0.dev@.descs.len() implies #[trigger] sbi.dev@.descs[idx] == (if among(pns, idx) {
            PageDescriptor { page_type: PageType::NONE, ino: 0, offset: 0 }
        } else {
            s0.dev@.descs[idx]
        }) by {
            assert(s1.dev@.descs[idx] == (if among(pns, idx) {
                PageDescriptor { ino: 0, ..s0.dev@.descs[idx] }
            } else {
                s0.dev@.descs[idx]
            }));
        }
    }
    let ghost s2 = *sbi;
    proof {
        assert(sbi.same_pools(s0));
        assert(pns.take(0).to_set() =~= Set::<PageNum>::empty());
        assert(sbi.free_pages() =~= s0.free_pages().union(pns.take(0).to_set()));
    }
    let mut i: usize = 0;
    while i < deallocated.len()
        invariant
            s0 == *old(sbi),
            pns == dir_page_nos(pages@),
            sbi.wf(),
            sbi.dev == s2.dev,
            sbi.unchanged_but_pages(s0),
            sbi.inodes_in_use == s0.inodes_in_use,
            dir_page_nos(deallocated@) == pns,
            forall|j: int| 0 <= j < pns.len() ==> s0.page_ok(#[trigger] pns[j]),
            i <= deallocated@.len(),
            pages_freed(s0.dev@, s2.dev@, pns),
            sbi.free_pages() == s0.free_pages().union(pns.take(i as int).to_set()),
        decreases deallocated@.len() - i,
    {
        let p = deallocated[i].get_page_no();
        proof {
            assert(p == pns[i as int]);
            assert(sbi.page_ok(p));
        }
        let ghost s_before = *sbi;
        let res = sbi.dealloc_page(p);
        proof {
            assert(sbi.same_pools(s0));
            assert(sbi.unchanged_but_pages(s0));
        }
        if res.is_err() {
            proof {
                if s0.page_allocator is Some && pns.no_duplicates() && (forall|j: int|
                    0 <= j < pns.len() ==> !s0.page_is_free(#[trigger] pns[j])) {
                    assert(!s0.page_is_free(pns[i as int]));
                    assert(pns.take(i as int).to_set().contains(p));
                    let j = choose|j: int| 0 <= j < pns.take(i as int).len() && pns.take(i as int)[j] == p;
                    assert(pns[j] == pns[i as int]);
                }
                assert(pns.take(i as int).to_set().subset_of(pns.to_set()));
                if s0.alloc_agrees() {
                    lemma_freed_pages_agree(s0, *sbi, pns);
                }
            }
            return Err(Error::EINVAL);
        }
        proof {
            assert(pns.take(i + 1).to_set() =~= pns.take(i as int).to_set().insert(p)) by {
                assert(pns.take(i + 1) =~= pns.take(i as int).push(p));
                pns.take(i as int).lemma_push_to_set_commute(p);
            }
            assert(sbi.free_pages() =~= s0.free_pages().union(pns.take(i + 1).to_set()));
        }
        i = i + 1;
    }
    proof {
        assert(pns.take(i as int) =~= pns);
    }
    let freed = DirPageWrapper::mark_pages_free(deallocated)?;
    proof {
        assert(dir_page_nos(freed@) =~= pns);
    }
    Ok(freed)
}

/// The page numbers of a file's pages, in increasing offset order.
pub open spec fn info_page_nos(info: HayleyFsRegInodeInfo) -> Seq<PageNum> {
    Seq::new(info.page_seq().len(), |i: int| info.page_seq()[i].page_no)
}

/// Ends the unlink of file `pi`, whose pages `pi_info` lists: when no link
/// is left, its pages are taken apart and returned to the allocator and the
/// inode is zeroed.
pub fn runtime_finish_unlink(
    sbi: &mut SbInfo,
    pi: InodeWrapper<Clean, DecLink, RegInode>,
    pi_info: &HayleyFsRegInodeInfo,
) -> (r: Result<InodeWrapper<Clean, Complete, RegInode>, Error>)
    requires
        old(sbi).wf(),
        old(sbi).reg_info_ok(*pi_info),
        pi.spec_ino() < NUM_INODES,
    ensures
        final(sbi).wf(),
        final(sbi).unchanged_but_pages(*old(sbi)),
        final(sbi).inodes_in_use == old(sbi).inodes_in_use,
        final(sbi).dev@.descs.len() == old(sbi).dev@.descs.len(),
        ({
            let ino = pi.spec_ino();
            let pns = info_page_nos(*pi_info);
            let links = old(sbi).dev@.inodes[ino as int].link_count;
            match r {
                Ok(w) => {
                    &&& w.spec_ino() == ino
                    &&& if links > 0 {
                        *final(sbi) == *old(sbi)
                    } else {
                        &&& forall|i: int| 0 <= i < pns.len() ==> #[trigger] data_page_readable(old(sbi).dev@, pns[i] as int)
                        &&& final(sbi).free_pages() == old(sbi).free_pages().union(pns.to_set())
                        &&& final(sbi).dev@.inodes == old(sbi).dev@.inodes.update(ino as int, zero_inode_spec())
                        &&& pages_freed(old(sbi).dev@, PmView { inodes: old(sbi).dev@.inodes, ..final(sbi).dev@ }, pns)
                    }
                },
                Err(e) => links == 0,
            }
        }),
        ({
            let pns = info_page_nos(*pi_info);
            old(sbi).dev@.inodes[pi.spec_ino() as int].link_count > 0 || (old(sbi).page_allocator is Some
                && pns.no_duplicates() && forall|j: int|
                0 <= j < pns.len() ==> data_page_readable(old(sbi).dev@, #[trigger] pns[j] as int)
                    && !old(sbi).page_is_free(pns[j]))
        }) ==> r is Ok,
        old(sbi).alloc_agrees() ==> final(sbi).alloc_agrees(),
{
    let ghost s0 = *sbi;
    let result = match pi.try_complete_unlink(&sbi.dev, pi_info) {
        Ok(res) => res,
        Err(e) => {
            proof {
                let pns = info_page_nos(*pi_info);
                let k = choose|k: int|
                    0 <= k < pi_info.page_seq().len() && !data_page_readable(s0.dev@, #[trigger] pi_info.page_seq()[k].page_no as int);
                assert(pns[k] == pi_info.page_seq()[k].page_no);
            }
            return Err(e);
        },
    };
    match result {
        Ok(done) => Ok(done),
        Err((pi, pages)) => {
            proof {
                assert forall|i: int| 0 <= i < pages@.len() implies sbi.page_ok(#[trigger] pages@[i].spec_page_no()) by {
                    pi_info.lemma_pages();
                    let k = pi_info.offset_seq()[i];
                    assert(pi_info.view()[k] == pi_info.page_seq()[i]);
                    assert(pi_info.view().contains_key(k)) by {
                        assert(pi_info.offset_seq().to_set().contains(k));
                    }
                }
                assert(page_nos(pages@) =~= info_page_nos(*pi_info));
            }
            let freed = free_data_pages(sbi, pages)?;
            let ghost s1 = *sbi;
            let pi = pi.dealloc(&mut sbi.dev, freed).flush().fence();
            proof {
                assert(sbi.dev@.inodes =~= s0.dev@.inodes.update(pi.spec_ino() as int, zero_inode_spec()));
                assert(PmView { inodes: s0.dev@.inodes, ..sbi.dev@ } == s1.dev@);
                if s0.alloc_agrees() {
                    assert(s1.alloc_agrees());
                    assert(sbi.dev@.descs == s1.dev@.descs);
                    assert(sbi.dev@.inodes == s1.dev@.inodes.update(pi.spec_ino() as int, zero_inode_spec()));
                    assert forall|i: InodeNum| #[trigger] sbi.inode_allocator.free_inos().contains(i) implies 0 < i < NUM_INODES
                        && inode_free(sbi.dev@.inodes[i as int]) by {
                        assert(s1.inode_allocator.free_inos().contains(i));
                    }
                }
            }
            Ok(pi)
        },
    }
}

/// Frees the directory page of entry `pd`, just freed, when every entry of
/// the page is free: clears its owner, zeroes its descriptor and returns it
/// to the allocator.  Does nothing when the page still holds entries.
fn free_emptied_dir_page(sbi: &mut SbInfo, pd: &DentryWrapper<Clean, Free>) -> (r: Result<(), Error>)
    requires
        old(sbi).wf(),
        old(sbi).page_ok(pd.spec_loc().page_no),
        old(sbi).dev@.valid_loc(pd.spec_loc()),
    ensures
        final(sbi).wf(),
        final(sbi).unchanged_but_pages(*old(sbi)),
        final(sbi).inodes_in_use == old(sbi).inodes_in_use,
        ({
            let p = pd.spec_loc().page_no;
            if dir_page_all_free(old(sbi).dev@, p as int) && dir_page_readable(old(sbi).dev@, p as int) {
                &&& final(sbi).dev@ == with_desc(old(sbi).dev@, p as int, PageDescriptor { page_type: PageType::NONE, ino: 0, offset: 0 })
                &&& (r is Ok ==> final(sbi).free_pages() == old(sbi).free_pages().insert(p))
                &&& (r is Err ==> final(sbi).free_pages() == old(sbi).free_pages() && r == Err::<(), Error>(Error::EINVAL)
                    && (old(sbi).page_allocator is None || old(sbi).page_is_free(p)))
            } else {
                *final(sbi) == *old(sbi) && r is Ok
            }
        }),
        old(sbi).alloc_agrees() ==> final(sbi).alloc_agrees(),
{
    let ghost s0 = *sbi;
    let parent_page = pd.try_dealloc_parent_page(&sbi.dev);
    if let Ok(parent_page) = parent_page {
        let parent_page = parent_page.unmap(&mut sbi.dev).flush().fence();
        let ghost v1 = sbi.dev@;
        let parent_page = parent_page.dealloc(&mut sbi.dev).flush().fence();
        proof {
            let p = pd.spec_loc().page_no as int;
            assert(sbi.dev@.descs =~= with_desc(s0.dev@, p, PageDescriptor { page_type: PageType::NONE, ino: 0, offset: 0 }).descs);
            assert(sbi.dev@ == with_desc(s0.dev@, p, PageDescriptor { page_type: PageType::NONE, ino: 0, offset: 0 }));
            assert(sbi.page_ok(parent_page.spec_page_no()));
        }
        let ghost s1 = *sbi;
        let res = sbi.dealloc_page(parent_page.get_page_no());
        proof {
            if s0.alloc_agrees() {
                let p = pd.spec_loc().page_no;
                assert forall|q: PageNum| #[trigger] sbi.free_pages().contains(q) implies desc_free(sbi.dev@.desc(q as int)) || (
                s0.free_pages().contains(q) && sbi.dev@.desc(q as int) == s0.dev@.desc(q as int)) by {
                    if q != p {
                        assert(s0.free_pages().contains(q));
                    }
                }
                SbInfo::lemma_agrees_kept(s0, *sbi);
            }
        }
        res?;
    }
    Ok(())
}

/// Removes name `name` from directory `parent`, whose index is
/// `parent_info`: its entry is killed and freed, file `target`, whose pages
/// `target_info` lists, loses a link (its change time becoming `now`), and
/// is freed with its pages when no link is left; the entry's page is freed
/// when it holds no entry any more.
pub fn hayleyfs_unlink(
    sbi: &mut SbInfo,
    parent: InodeNum,
    parent_info: &mut HayleyFsDirInodeInfo,
    name: &[u8],
    target: InodeNum,
    target_info: &HayleyFsRegInodeInfo,
    now: Timespec,
) -> (r: Result<(InodeWrapper<Clean, Complete, RegInode>, DentryWrapper<Clean, Free>), Error>)
    requires
        old(sbi).wf(),
        old(sbi).dir_info_ok(*old(parent_info)),
        old(sbi).reg_info_ok(*target_info),
        old(parent_info).spec_ino() == parent,
        name@.len() <= MAX_FILENAME_LEN,
    ensures
        final(sbi).wf(),
        final(sbi).dir_info_ok(*final(parent_info)),
        final(parent_info).spec_ino() == parent,
        final(sbi).unchanged_but_pages(*old(sbi)),
        (match r {
            Ok((pi, pd)) => {
                let found = lookup_spec(old(parent_info).dentry_map(), name@);
                let loc = pd.spec_loc();
                let links = old(sbi).dev@.inodes[target as int].link_count;
                let pns = info_page_nos(*target_info);
                &&& init_inode_of_type(old(sbi).dev@, parent, InodeType::DIR)
                &&& init_inode_of_type(old(sbi).dev@, target, InodeType::REG)
                &&& found is Some
                &&& found->0.loc == loc
                &&& old(sbi).dev@.dentry(loc).ino != 0
                &&& pi.spec_ino() == target
                &&& final(parent_info).dentry_map() == old(parent_info).dentry_map().remove(found->0.name)
                &&& final(sbi).dev@.dentry(loc).ino == 0
                &&& name_is_empty(final(sbi).dev@.dentry(loc).name)
                &&& forall|l: DentryLoc| #[trigger] old(sbi).dev@.valid_loc(l) && l != loc ==> final(sbi).dev@.dentry(l)
                    == old(sbi).dev@.dentry(l)
                &&& final(sbi).dev@.inodes == old(sbi).dev@.inodes.update(
                    target as int,
                    if links > 1 {
                        HayleyFsInode { link_count: (links - 1) as u16, ctime: now, ..old(sbi).dev@.inodes[target as int] }
                    } else {
                        zero_inode_spec()
                    },
                )
                &&& final(sbi).dev@.data == old(sbi).dev@.data
                &&& pages_released(*old(sbi), *final(sbi), unlink_freed(*old(sbi), *final(sbi), *target_info, links, loc.page_no))
                &&& (old(sbi).alloc_agrees() ==> final(sbi).alloc_agrees())
            },
            Err(e) => {
                &&& *final(parent_info) == *old(parent_info)
                &&& (lookup_spec(old(parent_info).dentry_map(), name@) is None && init_inode_of_type(
                    old(sbi).dev@,
                    parent,
                    InodeType::DIR,
                ) ==> e == Error::ENOENT && *final(sbi) == *old(sbi))
                &&& (!init_inode_of_type(old(sbi).dev@, parent, InodeType::DIR) ==> *final(sbi) == *old(sbi)
                    && e == not_dir_error(parent))
                &&& (init_inode_of_type(old(sbi).dev@, parent, InodeType::DIR) && lookup_spec(
                    old(parent_info).dentry_map(),
                    name@,
                ) is Some && !init_inode_of_type(old(sbi).dev@, target, InodeType::REG) ==> e == not_dir_error(target)
                    || e == Error::EPERM)
            },
        }),
        ({
            let found = lookup_spec(old(parent_info).dentry_map(), name@);
            let pns = info_page_nos(*target_info);
            &&& init_inode_of_type(old(sbi).dev@, parent, InodeType::DIR)
            &&& found is Some
            &&& old(sbi).dev@.dentry(found->0.loc).ino != 0
            &&& init_inode_of_type(old(sbi).dev@, target, InodeType::REG)
            &&& old(sbi).page_allocator is Some
            &&& old(sbi).alloc_agrees()
            &&& (old(sbi).dev@.inodes[target as int].link_count > 1 || (pns.no_duplicates() && forall|j: int|
                0 <= j < pns.len() ==> data_page_readable(old(sbi).dev@, #[trigger] pns[j] as int)))
        }) ==> r is Ok,
{
    let ghost s0 = *sbi;
    let ghost i0 = *parent_info;
    let _parent_inode = InodeWrapper::get_init_dir_inode_by_ino(&sbi.dev, parent)?;
    let dentry_info = parent_info.lookup_dentry(name);
    proof {
        let m = parent_info.dentry_map();
        match dentry_info {
            Some(d) => {
                let k0 = choose|k: FileName| k.bytes@ == spec_name_bytes(name@) && #[trigger] m.contains_key(k) && d == m[k];
                let k = choose|k: FileName| k.bytes@ == spec_name_bytes(name@) && #[trigger] m.contains_key(k);
                lemma_name_eq(k, k0);
                assert(parent_info.page_set().contains(d.loc.page_no));
                assert(d.name == k0);
            },
            None => {},
        }
    }
    match dentry_info {
        None => Err(Error::ENOENT),
        Some(dentry_info) => {
            let ghost loc = dentry_info.loc;
            proof {
                assert(lookup_spec(i0.dentry_map(), name@) == Some(dentry_info));
            }
            let pd = DentryWrapper::get_init_dentry(&sbi.dev, dentry_info)?;
            let pi = InodeWrapper::get_init_reg_inode_by_ino(&sbi.dev, target)?;
            let pd = pd.clear_ino(&mut sbi.dev).flush().fence();
            proof {
                assert(sbi.dev@.inodes == s0.dev@.inodes);
            }
            let pi = pi.dec_link_count(&mut sbi.dev, now, &pd)?.flush();
            let pd = pd.dealloc_dentry(&mut sbi.dev).flush();
            let pi = pi.fence();
            let pd = pd.fence();
            let ghost s1 = *sbi;
            proof {
                assert(s1.dev@.descs == s0.dev@.descs);
                if s0.alloc_agrees() && dir_page_readable(s1.dev@, loc.page_no as int) {
                    assert(!s0.free_pages().contains(loc.page_no));
                }
            }
            free_emptied_dir_page(sbi, &pd)?;
            let ghost s2 = *sbi;
            proof {
                assert(sbi.same_pools(s0));
                assert forall|k: u64| #[trigger] target_info.view().contains_key(k) implies sbi.page_ok(target_info.view()[k].page_no) by {
                    assert(s0.page_ok(target_info.view()[k].page_no));
                }
                let pns = info_page_nos(*target_info);
                if s0.alloc_agrees() && (forall|j: int|
                    0 <= j < pns.len() ==> data_page_readable(s0.dev@, #[trigger] pns[j] as int)) {
                    assert forall|j: int| 0 <= j < pns.len() implies data_page_readable(s2.dev@, #[trigger] pns[j] as int)
                        && !s2.page_is_free(pns[j]) by {
                        assert(data_page_readable(s0.dev@, pns[j] as int));
                        assert(!s0.free_pages().contains(pns[j]));
                        if dir_page_readable(s1.dev@, loc.page_no as int) {
                            assert(pns[j] != loc.page_no);
                        }
                    }
                }
                let links = s0.dev@.inodes[target as int].link_count;
                assert(init_inode_of_type(s0.dev@, target, InodeType::REG) ==> s2.dev@.inodes[target as int].link_count == links - 1);
                assert(s0.page_allocator is Some ==> s2.page_allocator is Some);
            }
            let pi = runtime_finish_unlink(sbi, pi, target_info);
            proof {
                assert(sbi.same_pools(s0));
                assert forall|p: PageNum| #[trigger] parent_info.page_set().contains(p) implies sbi.page_ok(p) by {
                    assert(s0.page_ok(p));
                }
            }
            let pi = pi?;
            proof {
                let links = s0.dev@.inodes[target as int].link_count;
                assert(s1.dev@.descs == s0.dev@.descs);
                assert(s2.dev@.inodes[target as int].link_count == links - 1);
                lemma_unlink_pages(s0, s1, s2, *sbi, *target_info, links, loc.page_no);
                if s0.alloc_agrees() {
                    lemma_release_agrees(s0, *sbi, unlink_freed(s0, *sbi, *target_info, links, loc.page_no));
                }
            }
            parent_info.delete_dentry(dentry_info)?;
            Ok((pi, pd))
        },
    }
}

/// Takes apart the pages of directory `pi`, whose index is
/// `delete_dir_info`, and returns them to the allocator; a page that is
/// not a live directory page is refused.
fn runtime_rmdir_delete_pages(
    sbi: &mut SbInfo,
    delete_dir_info: &HayleyFsDirInodeInfo,
    pi: &InodeWrapper<Clean, Dealloc, DirInode>,
) -> (r: Result<Vec<DirPageWrapper<Clean, Free>>, Error>)
    requires
        old(sbi).wf(),
        old(sbi).dir_info_ok(*delete_dir_info),
    ensures
        final(sbi).wf(),
        final(sbi).unchanged_but_pages(*old(sbi)),
        final(sbi).inodes_in_use == old(sbi).inodes_in_use,
        final(sbi).dev@.descs.len() == old(sbi).dev@.descs.len(),
        (match r {
            Ok(v) => {
                &&& delete_dir_info.spec_ino() == pi.spec_ino()
                &&& forall|i: int| 0 <= i < delete_dir_info.page_seq().len() ==> #[trigger] dir_page_readable(
                    old(sbi).dev@,
                    delete_dir_info.page_seq()[i] as int,
                )
                &&& pages_freed(old(sbi).dev@, final(sbi).dev@, delete_dir_info.page_seq())
                &&& final(sbi).free_pages() == old(sbi).free_pages().union(delete_dir_info.page_set())
            },
            Err(e) => e == Error::EINVAL || e == Error::EPERM || e == Error::ENOTDIR,
        }),
        delete_dir_info.spec_ino() == pi.spec_ino() && old(sbi).page_allocator is Some && (forall|p: PageNum|
            #[trigger] delete_dir_info.page_set().contains(p) ==> dir_page_readable(old(sbi).dev@, p as int)
                && !old(sbi).page_is_free(p)) ==> r is Ok,
{
    if delete_dir_info.get_ino() != pi.get_ino() {
        return Err(Error::EINVAL);
    }
    let pages = delete_dir_info.get_all_pages()?;
    let keys = pages.keys();
    proof {
        delete_dir_info.lemma_wf();
    }
    let mut unmap_vec: Vec<DirPageWrapper<Clean, ToUnmap>> = Vec::new();
    let mut i: usize = 0;
    while i < keys.len()
        invariant
            sbi.wf(),
            sbi.dir_info_ok(*delete_dir_info),
            keys@ == delete_dir_info.page_seq(),
            delete_dir_info.page_set() == delete_dir_info.page_seq().to_set(),
            i <= keys@.len(),
            unmap_vec@.len() == i,
            dir_page_nos(unmap_vec@) == keys@.take(i as int),
            forall|j: int| 0 <= j < i ==> #[trigger] dir_page_readable(sbi.dev@, keys@[j] as int),
            *sbi == *old(sbi),
            delete_dir_info.spec_ino() == pi.spec_ino() && old(sbi).page_allocator is Some && (forall|p: PageNum|
                #[trigger] delete_dir_info.page_set().contains(p) ==> dir_page_readable(old(sbi).dev@, p as int)
                    && !old(sbi).page_is_free(p)) ==> forall|p: PageNum|
                #[trigger] delete_dir_info.page_set().contains(p) ==> dir_page_readable(sbi.dev@, p as int),
        decreases keys@.len() - i,
    {
        let page_no = keys[i];
        proof {
            assert(delete_dir_info.page_seq().to_set().contains(page_no));
            assert(sbi.page_ok(page_no));
        }
        let p = DirPageWrapper::mark_to_unmap(&sbi.dev, page_no)?;
        let ghost before = unmap_vec@;
        unmap_vec.push(p);
        proof {
            assert forall|j: int| 0 <= j < i + 1 implies #[trigger] dir_page_nos(unmap_vec@)[j] == keys@.take(i + 1)[j] by {
                if j < i {
                    assert(unmap_vec@[j] == before[j]);
                    assert(dir_page_nos(before)[j] == keys@.take(i as int)[j]);
                }
            }
            assert(dir_page_nos(unmap_vec@) =~= keys@.take(i + 1));
        }
        i = i + 1;
    }
    proof {
        assert(keys@.take(i as int) =~= keys@);
        assert forall|j: int| 0 <= j < unmap_vec@.len() implies sbi.page_ok(#[trigger] unmap_vec@[j].spec_page_no()) by {
            assert(dir_page_nos(unmap_vec@)[j] == keys@[j]);
            assert(delete_dir_info.page_seq().to_set().contains(keys@[j]));
        }
        assert(dir_page_nos(unmap_vec@).to_set() =~= delete_dir_info.page_set());
        let pns = dir_page_nos(unmap_vec@);
        crate::sorted::lemma_sorted_distinct(keys@);
        assert forall|j: int| 0 <= j < pns.len() implies delete_dir_info.page_set().contains(#[trigger] pns[j]) by {
            assert(delete_dir_info.page_seq().to_set().contains(keys@[j]));
        }
    }
    free_dir_pages(sbi, unmap_vec)
}

/// Removes directory `name` from directory `parent`, whose index is
/// `parent_info`: the directory named, `victim`, whose index is
/// `victim_info`, must have no entry.  Its entry is killed, the parent
/// loses a link (its change time becoming `now`), the victim's pages are
/// taken apart and returned to the allocator, its inode is zeroed, its
/// entry freed, and the entry's page freed when it holds no entry any
/// more.
pub fn hayleyfs_rmdir(
    sbi: &mut SbInfo,
    parent: InodeNum,
    parent_info: &mut HayleyFsDirInodeInfo,
    name: &[u8],
    victim: InodeNum,
    victim_info: &HayleyFsDirInodeInfo,
    now: Timespec,
) -> (r: Result<(InodeWrapper<Clean, Complete, DirInode>, InodeWrapper<Clean, DecLink, DirInode>, DentryWrapper<Clean, Free>), Error>)
    requires
        old(sbi).wf(),
        old(sbi).dir_info_ok(*old(parent_info)),
        old(sbi).dir_info_ok(*victim_info),
        old(parent_info).spec_ino() == parent,
        victim_info.spec_ino() == victim,
        name@.len() <= MAX_FILENAME_LEN,
    ensures
        final(sbi).wf(),
        final(sbi).dir_info_ok(*final(parent_info)),
        final(parent_info).spec_ino() == parent,
        final(sbi).unchanged_but_pages(*old(sbi)),
        (match r {
            Ok((pi, ppi, pd)) => {
                let found = lookup_spec(old(parent_info).dentry_map(), name@);
                let loc = pd.spec_loc();
                let old_p = old(sbi).dev@.inodes[parent as int];
                &&& init_inode_of_type(old(sbi).dev@, parent, InodeType::DIR)
                &&& init_inode_of_type(old(sbi).dev@, victim, InodeType::DIR)
                &&& victim != parent
                &&& victim_info.dentry_map().dom().is_empty()
                &&& found is Some
                &&& found->0.loc == loc
                &&& old(sbi).dev@.dentry(loc).ino != 0
                &&& pi.spec_ino() == victim
                &&& ppi.spec_ino() == parent
                &&& final(parent_info).dentry_map() == old(parent_info).dentry_map().remove(found->0.name)
                &&& final(sbi).dev@.dentry(loc).ino == 0
                &&& name_is_empty(final(sbi).dev@.dentry(loc).name)
                &&& forall|l: DentryLoc| #[trigger] old(sbi).dev@.valid_loc(l) && l != loc ==> final(sbi).dev@.dentry(l)
                    == old(sbi).dev@.dentry(l)
                &&& old_p.link_count > 0
                &&& final(sbi).dev@.inodes == old(sbi).dev@.inodes.update(
                    parent as int,
                    HayleyFsInode { link_count: (old_p.link_count - 1) as u16, ctime: now, ..old_p },
                ).update(victim as int, zero_inode_spec())
                &&& final(sbi).dev@.data == old(sbi).dev@.data
                &&& pages_released(*old(sbi), *final(sbi), rmdir_freed(*old(sbi), *final(sbi), *victim_info, loc.page_no))
                &&& (old(sbi).alloc_agrees() ==> final(sbi).alloc_agrees())
            },
            Err(e) => {
                &&& (lookup_spec(old(parent_info).dentry_map(), name@) is None && init_inode_of_type(
                    old(sbi).dev@,
                    parent,
                    InodeType::DIR,
                ) ==> e == Error::ENOENT && *final(sbi) == *old(sbi))
                &&& (!init_inode_of_type(old(sbi).dev@, parent, InodeType::DIR) ==> *final(sbi) == *old(sbi)
                    && e == not_dir_error(parent))
                &&& (init_inode_of_type(old(sbi).dev@, parent, InodeType::DIR) && lookup_spec(
                    old(parent_info).dentry_map(),
                    name@,
                ) is Some ==> {
                    &&& (!init_inode_of_type(old(sbi).dev@, victim, InodeType::DIR) ==> *final(sbi) == *old(sbi)
                        && e == not_dir_error(victim))
                    &&& (init_inode_of_type(old(sbi).dev@, victim, InodeType::DIR) && !victim_info.dentry_map().dom().is_empty()
                        ==> *final(sbi) == *old(sbi) && e == Error::ENOTEMPTY)
                    &&& (init_inode_of_type(old(sbi).dev@, victim, InodeType::DIR) && victim_info.dentry_map().dom().is_empty()
                        && victim == parent ==> *final(sbi) == *old(sbi) && e == Error::EINVAL)
                })
            },
        }),
        ({
            let found = lookup_spec(old(parent_info).dentry_map(), name@);
            &&& init_inode_of_type(old(sbi).dev@, parent, InodeType::DIR)
            &&& found is Some
            &&& old(sbi).dev@.dentry(found->0.loc).ino != 0
            &&& init_inode_of_type(old(sbi).dev@, victim, InodeType::DIR)
            &&& victim_info.dentry_map().dom().is_empty()
            &&& victim != parent
            &&& old(sbi).page_allocator is Some
            &&& old(sbi).alloc_agrees()
            &&& forall|p: PageNum| #[trigger] victim_info.page_set().contains(p) ==> dir_page_readable(old(sbi).dev@, p as int)
        }) ==> r is Ok,
{
    let ghost s0 = *sbi;
    let _parent_inode = InodeWrapper::get_init_dir_inode_by_ino(&sbi.dev, parent)?;
    let dentry_info = parent_info.lookup_dentry(name);
    proof {
        let m = parent_info.dentry_map();
        match dentry_info {
            Some(d) => {
                let k0 = choose|k: FileName| k.bytes@ == spec_name_bytes(name@) && #[trigger] m.contains_key(k) && d == m[k];
                let k = choose|k: FileName| k.bytes@ == spec_name_bytes(name@) && #[trigger] m.contains_key(k);
                lemma_name_eq(k, k0);
                assert(parent_info.page_set().contains(d.loc.page_no));
                assert(d.name == k0);
            },
            None => {},
        }
    }
    match dentry_info {
        Some(dentry_info) => {
            let pi = InodeWrapper::get_init_dir_inode_by_ino(&sbi.dev, victim)?;
            if victim_info.has_dentries() {
                return Err(Error::ENOTEMPTY);
            }
            if victim == parent {
                return Err(Error::EINVAL);
            }
            proof {
                assert(lookup_spec(old(parent_info).dentry_map(), name@) == Some(dentry_info));
            }
            let pd = DentryWrapper::get_init_dentry(&sbi.dev, dentry_info)?;
            parent_info.delete_dentry(dentry_info)?;
            let pd = pd.clear_ino(&mut sbi.dev).flush().fence();
            proof {
                assert(sbi.dev@.inodes == s0.dev@.inodes);
                assert(sbi.dev@.descs == s0.dev@.descs);
            }
            let parent_pi = InodeWrapper::get_init_dir_inode_by_ino(&sbi.dev, parent)?;
            let parent_pi = parent_pi.dec_link_count(&mut sbi.dev, now, &pd)?.flush().fence();
            let ghost s1 = *sbi;
            let pi = pi.set_unmap_page_state();
            proof {
                assert(sbi.same_pools(s0));
                assert forall|p: PageNum| #[trigger] victim_info.page_set().contains(p) implies sbi.page_ok(p) by {
                    assert(s0.page_ok(p));
                }
                if s0.alloc_agrees() {
                    assert forall|p: PageNum| #[trigger] victim_info.page_set().contains(p) && dir_page_readable(s0.dev@, p as int)
                        implies dir_page_readable(s1.dev@, p as int) && !s1.page_is_free(p) by {
                        assert(s1.dev@.desc(p as int) == s0.dev@.desc(p as int));
                        assert(!s0.free_pages().contains(p));
                    }
                }
            }
            let _pages = runtime_rmdir_delete_pages(sbi, victim_info, &pi)?;
            let ghost s2 = *sbi;
            let pi = pi.dealloc_dir(&mut sbi.dev).flush();
            let pd = pd.dealloc_dentry(&mut sbi.dev).flush();
            let pi = pi.fence();
            let pd = pd.fence();
            let ghost s3 = *sbi;
            proof {
                assert(sbi.same_pools(s0));
                assert(sbi.page_ok(pd.spec_loc().page_no)) by {
                    assert(s0.page_ok(pd.spec_loc().page_no));
                }
                let p = pd.spec_loc().page_no;
                if s0.alloc_agrees() && dir_page_readable(s3.dev@, p as int) {
                    assert(s3.dev@.descs == s2.dev@.descs);
                    victim_info.lemma_wf();
                    let idx = p - DATA_PAGE_START;
                    assert(0 <= idx < s1.dev@.descs.len());
                    if among(victim_info.page_seq(), idx) {
                        assert(s2.dev@.descs[idx].page_type == PageType::NONE);
                    }
                    assert(s2.dev@.descs[idx] == s1.dev@.descs[idx]);
                    assert(!s0.free_pages().contains(p));
                    if victim_info.page_set().contains(p) {
                        assert(victim_info.page_seq().to_set().contains(p));
                        let j = choose|j: int| 0 <= j < victim_info.page_seq().len() && victim_info.page_seq()[j] == p;
                        assert(among(victim_info.page_seq(), idx));
                    }
                    assert(!s3.page_is_free(p));
                }
            }
            free_emptied_dir_page(sbi, &pd)?;
            proof {
                assert(sbi.same_pools(s0));
                assert forall|p: PageNum| #[trigger] parent_info.page_set().contains(p) implies sbi.page_ok(p) by {
                    assert(s0.page_ok(p));
                }
                assert(s1.dev@.descs == s0.dev@.descs);
                assert(s3.dev@.descs == s2.dev@.descs);
                lemma_rmdir_pages(s0, s1, s2, s3, *sbi, *victim_info, pd.spec_loc().page_no);
                if s0.alloc_agrees() {
                    lemma_release_agrees(s0, *sbi, rmdir_freed(s0, *sbi, *victim_info, pd.spec_loc().page_no));
                }
            }
            Ok((pi, parent_pi, pd))
        },
        None => Err(Error::ENOENT),
    }
}

/// Creates symbolic link `name` to `symname` in directory `parent`, whose
/// index is `parent_info`: a free entry gets the name and the smallest free
/// inode number, whose inode becomes a symbolic link of one link with mode
/// `mode`, owner `uid`/`gid`, all times `now` and the size of `symname`; a
/// page taken from the allocator holds `symname` from its start.
pub fn hayleyfs_symlink(
    sbi: &mut SbInfo,
    parent: InodeNum,
    parent_info: &mut HayleyFsDirInodeInfo,
    name: &[u8],
    symname: &[u8],
    mode: u16,
    uid: u32,
    gid: u32,
    now: Timespec,
) -> (r: Result<
    (InodeWrapper<Clean, Complete, RegInode>, DentryWrapper<Clean, Complete>, DataPageWrapper<Clean, Written>),
    Error,
>)
    requires
        old(sbi).wf(),
        old(sbi).dir_info_ok(*old(parent_info)),
        old(parent_info).spec_ino() == parent,
        symname@.len() <= HAYLEYFS_PAGESIZE,
    ensures
        final(sbi).wf(),
        final(sbi).dir_info_ok(*final(parent_info)),
        old(sbi).alloc_agrees() ==> final(sbi).alloc_agrees(),
        (match r {
            Ok((pi, pd, page)) => {
                let ino = pi.spec_ino();
                let p = page.spec_page_no();
                &&& entry_added(*old(sbi), *final(sbi), *old(parent_info), *final(parent_info), parent, pd.spec_loc(), name@, ino)
                &&& 0 < ino < NUM_INODES
                &&& inode_free(old(sbi).dev@.inodes[ino as int])
                &&& old(sbi).inode_allocator.free_inos().contains(ino)
                &&& forall|q: InodeNum| #[trigger] old(sbi).inode_allocator.free_inos().contains(q) ==> ino <= q
                &&& final(sbi).inode_allocator.free_inos() == old(sbi).inode_allocator.free_inos().remove(ino)
                &&& final(sbi).dev@.inodes == old(sbi).dev@.inodes.update(
                    ino as int,
                    HayleyFsInode {
                        size: symname@.len() as u64,
                        ..new_file_inode(ino, mode, uid, gid, now, InodeType::SYMLINK)
                    },
                )
                &&& old(sbi).page_is_free(p)
                &&& !final(sbi).page_is_free(p)
                &&& final(sbi).dev@.desc(p as int) == (PageDescriptor { page_type: PageType::DATA, ino, offset: 0 })
                    || final(sbi).dev@.desc(p as int) == (PageDescriptor {
                    page_type: PageType::DATA,
                    ino,
                    ..old(sbi).dev@.desc(p as int)
                })
                &&& final(sbi).dev@.page(p as int) == crate::pm::splice(old(sbi).dev@.page(p as int), 0, symname@)
                &&& same_indexes(*old(sbi), *final(sbi))
                &&& final(sbi).inodes_in_use == old(sbi).inodes_in_use.wrapping_add(1)
                &&& ({
                    let q = pd.spec_loc().page_no;
                    let dd = final(sbi).dev@.desc(p as int);
                    ||| {
                        &&& final(sbi).free_pages() == old(sbi).free_pages().remove(p)
                        &&& final(sbi).blocks_in_use == old(sbi).blocks_in_use.wrapping_add(1)
                        &&& final(sbi).dev@.descs == old(sbi).dev@.descs.update(p - DATA_PAGE_START, dd)
                        &&& final(parent_info).page_set() == old(parent_info).page_set()
                    }
                    ||| {
                        &&& q != p
                        &&& old(sbi).page_is_free(q)
                        &&& final(sbi).free_pages() == old(sbi).free_pages().remove(q).remove(p)
                        &&& final(sbi).blocks_in_use == old(sbi).blocks_in_use.wrapping_add(1).wrapping_add(1)
                        &&& final(sbi).dev@.descs == old(sbi).dev@.descs.update(
                            q - DATA_PAGE_START,
                            PageDescriptor { page_type: PageType::DIR, ino: parent, ..old(sbi).dev@.desc(q as int) },
                        ).update(p - DATA_PAGE_START, dd)
                        &&& final(parent_info).page_set() == old(parent_info).page_set().insert(q)
                    }
                })
            },
            Err(e) => {
                &&& final(parent_info).spec_ino() == old(parent_info).spec_ino()
                &&& final(parent_info).dentry_map() == old(parent_info).dentry_map()
                &&& (!init_inode_of_type(old(sbi).dev@, parent, InodeType::DIR) ==> {
                    &&& *final(sbi) == *old(sbi)
                    &&& e == not_dir_error(parent)
                })
                &&& (e == Error::ENAMETOOLONG ==> name@.len() > MAX_FILENAME_LEN)
                &&& (init_inode_of_type(old(sbi).dev@, parent, InodeType::DIR) && name@.len() > MAX_FILENAME_LEN ==> {
                    &&& *final(sbi) == *old(sbi)
                    &&& e == Error::ENAMETOOLONG
                })
                &&& (e == Error::EINVAL || e == Error::EPERM || e == Error::ENOTDIR || e == Error::ENOSPC || e
                    == Error::ENAMETOOLONG || e == Error::EISDIR)
            },
        }),
        has_entry_room(*old(sbi), *old(parent_info), parent) && (exists|q: PageNum|
            #[trigger] old(parent_info).page_set().contains(q) && dir_page_has_free(old(sbi).dev@, q as int))
            && name@.len() <= MAX_FILENAME_LEN && inos_agree(*old(sbi)) && !old(
            sbi,
        ).inode_allocator.free_inos().is_empty() && old(sbi).page_allocator is Some && !old(sbi).out_of_pages()
            && free_pages_clean(*old(sbi)) ==> r is Ok,
{
    let ghost s0 = *sbi;
    let _parent_inode = InodeWrapper::get_init_dir_inode_by_ino(&sbi.dev, parent)?;
    if name.len() > MAX_FILENAME_LEN {
        return Err(Error::ENAMETOOLONG);
    }
    let pd = get_free_dentry(sbi, parent, parent_info)?;
    let ghost s1 = *sbi;
    let ghost loc = pd.spec_loc();
    let pd = pd.set_name(&mut sbi.dev, name)?.flush().fence();
    proof {
        if s0.alloc_agrees() {
            assert(sbi.dev@.inodes == s1.dev@.inodes);
            assert(sbi.dev@.descs == s1.dev@.descs);
            SbInfo::lemma_agrees_kept(s1, *sbi);
        }
    }
    let ghost s2 = *sbi;
    proof {
        assert(s2.dev@.inodes == s0.dev@.inodes);
    }
    let ino = match sbi.inode_allocator.alloc_ino() {
        Ok(i) => i,
        Err(e) => {
            proof {
                if s0.alloc_agrees() {
                    SbInfo::lemma_agrees_kept(s2, *sbi);
                }
            }
            return Err(e);
        },
    };
    proof {
        if s0.alloc_agrees() {
            SbInfo::lemma_agrees_kept(s2, *sbi);
        }
    }
    let pi = InodeWrapper::get_free_reg_inode_by_ino(&sbi.dev, ino)?;
    let pi = pi.allocate_symlink_inode(&mut sbi.dev, mode, uid, gid, now)?.flush().fence();
    sbi.inc_inodes_in_use();
    let ghost s3 = *sbi;
    proof {
        if s0.alloc_agrees() {
            assert(s3.dev@.descs == s2.dev@.descs);
            assert forall|i: InodeNum| #[trigger] s3.inode_allocator.free_inos().contains(i) implies s2.inode_allocator.free_inos().contains(i)
                && s3.dev@.inodes[i as int] == s2.dev@.inodes[i as int] by {
                assert(i != ino);
            }
            SbInfo::lemma_agrees_kept(s2, s3);
        }
    }
    let page = match DataPageWrapper::alloc_data_page(sbi, 0) {
        Ok(w) => w.flush().fence(),
        Err(e) => {
            proof {
                if e == Error::EISDIR && free_pages_clean(s0) && s1 == s0 {
                    let q = choose|q: PageNum| #[trigger] s3.page_is_free(q) && s3.dev@.desc(q as int).page_type
                        == PageType::DIR;
                    assert(s0.free_pages().contains(q));
                    assert(s3.dev@.desc(q as int) == s0.dev@.desc(q as int));
                }
            }
            return Err(e);
        },
    };
    sbi.inc_blocks_in_use();
    let ghost p = page.spec_page_no();
    let ghost s4 = *sbi;
    let page = page.set_data_page_backpointer(&mut sbi.dev, &pi).flush().fence();
    let ghost s5 = *sbi;
    let name_len = symname.len() as u64;
    let (bytes_written, page) = page.write_to_page(&mut sbi.dev, symname, 0, name_len)?;
    let page = page.fence();
    let ghost s6 = *sbi;
    let (_size, pi) = pi.set_size(&mut sbi.dev, bytes_written, 0, &page);
    let (pd, pi) = pd.set_file_ino(&mut sbi.dev, pi);
    let pd = pd.flush().fence();
    proof {
        assert(sbi.same_pools(s0));
        assert forall|q: PageNum| #[trigger] parent_info.page_set().contains(q) implies sbi.page_ok(q) by {
            assert(s1.page_ok(q));
        }
    }
    pd.index(&sbi.dev, parent_info)?;
    proof {
        assert(dentry_free(s1.dev@.dentry(loc)));
        assert(name_over(s1.dev@.dentry(loc).name, name@) =~= spec_name_bytes(name@));
        assert(symname@.subrange(0, name_len as int) =~= symname@);
        assert(sbi.dev@.inodes =~= s0.dev@.inodes.update(
            ino as int,
            HayleyFsInode { size: symname@.len() as u64, ..new_file_inode(ino, mode, uid, gid, now, InodeType::SYMLINK) },
        ));
        assert forall|l: DentryLoc| #[trigger] s0.dev@.valid_loc(l) && l != loc implies sbi.dev@.dentry(l) == s0.dev@.dentry(l) by {
            assert(s1.dev@.dentry(l) == s0.dev@.dentry(l));
        }
        assert(s1.page_is_free(p) ==> s0.page_is_free(p));
        assert(p != loc.page_no);
        if s0.alloc_agrees() {
            assert forall|q: PageNum| #[trigger] sbi.free_pages().contains(q) implies desc_free(sbi.dev@.desc(q as int)) || (
            s0.free_pages().contains(q) && sbi.dev@.desc(q as int) == s0.dev@.desc(q as int)) by {
                assert(s0.free_pages().contains(q));
                assert(s0.dev@.has_page(q as int));
            }
            SbInfo::lemma_agrees_kept(s0, *sbi);
        }
    }
    Ok((pi, pd, page))
}

/// Points entry `new_dentry_info` at the inode of entry `old_dentry_info`
/// through a back pointer, then clears the old entry's inode number.  Both
/// entries must be live.
fn rename_overwrite_dentry_standard(
    sbi: &mut SbInfo,
    old_dentry_info: &DentryInfo,
    new_dentry_info: &DentryInfo,
    dst_parent_inode: &InodeWrapper<Clean, Start, DirInode>,
) -> (r: Result<(DentryWrapper<Clean, ClearIno>, DentryWrapper<Clean, InitRenamePointer>), Error>)
    requires
        old(sbi).wf(),
        old(sbi).dev@.valid_loc(old_dentry_info.loc),
        old(sbi).dev@.valid_loc(new_dentry_info.loc),
        old_dentry_info.loc != new_dentry_info.loc,
    ensures
        final(sbi).wf(),
        *final(sbi) == (SbInfo { dev: final(sbi).dev, ..*old(sbi) }),
        (match r {
            Ok((src, dst)) => {
                let v0 = old(sbi).dev@;
                let s = old_dentry_info.loc;
                let d = new_dentry_info.loc;
                &&& src.spec_loc() == s
                &&& dst.spec_loc() == d
                &&& v0.dentry(s).ino != 0
                &&& v0.dentry(d).ino != 0
                &&& final(sbi).dev@ == with_dentry(
                    with_dentry(v0, d, HayleyFsDentry { ino: v0.dentry(s).ino, rename_ptr: Some(s), ..v0.dentry(d) }),
                    s,
                    HayleyFsDentry { ino: 0, ..v0.dentry(s) },
                )
            },
            Err(e) => e == Error::EPERM && *final(sbi) == *old(sbi) && (old(sbi).dev@.dentry(old_dentry_info.loc).ino
                == 0 || old(sbi).dev@.dentry(new_dentry_info.loc).ino == 0),
        }),
{
    let ghost v0 = sbi.dev@;
    let src_dentry = DentryWrapper::get_init_dentry(&sbi.dev, *old_dentry_info)?;
    let dst_dentry = DentryWrapper::get_init_dentry(&sbi.dev, *new_dentry_info)?;
    let (dst_dentry, src_dentry) = dst_dentry.set_rename_pointer(&mut sbi.dev, src_dentry);
    let dst_dentry = dst_dentry.flush().fence();
    let (dst_dentry, src_dentry) = dst_dentry.init_rename_pointer(&mut sbi.dev, src_dentry, dst_parent_inode);
    let dst_dentry = dst_dentry.flush().fence();
    let src_dentry = src_dentry.clear_ino(&mut sbi.dev).flush().fence();
    proof {
        let s = old_dentry_info.loc;
        let d = new_dentry_info.loc;
        let target = with_dentry(
            with_dentry(v0, d, HayleyFsDentry { ino: v0.dentry(s).ino, rename_ptr: Some(s), ..v0.dentry(d) }),
            s,
            HayleyFsDentry { ino: 0, ..v0.dentry(s) },
        );
        assert(sbi.dev@.dirs =~= target.dirs) by {
            assert forall|i: int| 0 <= i < sbi.dev@.dirs.len() implies #[trigger] sbi.dev@.dirs[i] =~= target.dirs[i] by {}
        }
        assert(sbi.dev@ == target);
    }
    Ok((src_dentry, dst_dentry))
}

/// Ends a rename over file `new_ino`, whose pages `new_info` lists: the
/// file loses the link the overwritten entry gave it (its change time
/// becoming `now`) and is freed with its pages when no link is left; the
/// new entry drops its back pointer; the old entry is freed, and its page
/// too when it holds no entry any more.
fn rename_overwrite_inode(
    sbi: &mut SbInfo,
    new_ino: InodeNum,
    new_info: &HayleyFsRegInodeInfo,
    dst_dentry: DentryWrapper<Clean, InitRenamePointer>,
    src_dentry: DentryWrapper<Clean, ClearIno>,
    now: Timespec,
) -> (r: Result<(DentryWrapper<Clean, Free>, DentryWrapper<Clean, Complete>), Error>)
    requires
        old(sbi).wf(),
        old(sbi).reg_info_ok(*new_info),
        old(sbi).dev@.valid_loc(src_dentry.spec_loc()),
        old(sbi).dev@.valid_loc(dst_dentry.spec_loc()),
        old(sbi).page_ok(src_dentry.spec_loc().page_no),
        src_dentry.spec_loc() != dst_dentry.spec_loc(),
    ensures
        final(sbi).wf(),
        final(sbi).unchanged_but_pages(*old(sbi)),
        final(sbi).same_pools(*old(sbi)),
        final(sbi).dev@.descs.len() == old(sbi).dev@.descs.len(),
        (match r {
            Ok((src, dst)) => {
                let v0 = old(sbi).dev@;
                let v1 = final(sbi).dev@;
                let links = v0.inodes[new_ino as int].link_count;
                &&& src.spec_loc() == src_dentry.spec_loc()
                &&& dst.spec_loc() == dst_dentry.spec_loc()
                &&& init_inode_of_type(v0, new_ino, InodeType::REG)
                &&& links > 0
                &&& v1.dentry(dst.spec_loc()) == (HayleyFsDentry { rename_ptr: None, ..v0.dentry(dst.spec_loc()) })
                &&& v1.dentry(src.spec_loc()).ino == v0.dentry(src.spec_loc()).ino
                &&& name_is_empty(v1.dentry(src.spec_loc()).name)
                &&& forall|l: DentryLoc| #[trigger] v0.valid_loc(l) && l != src.spec_loc() && l != dst.spec_loc()
                    ==> v1.dentry(l) == v0.dentry(l)
                &&& v1.inodes == v0.inodes.update(
                    new_ino as int,
                    if links > 1 {
                        HayleyFsInode { link_count: (links - 1) as u16, ctime: now, ..v0.inodes[new_ino as int] }
                    } else {
                        zero_inode_spec()
                    },
                )
                &&& v1.data == v0.data
                &&& pages_released(*old(sbi), *final(sbi), unlink_freed(*old(sbi), *final(sbi), *new_info, links, src.spec_loc().page_no))
            },
            Err(_) => true,
        }),
        ({
            let pns = info_page_nos(*new_info);
            &&& init_inode_of_type(old(sbi).dev@, new_ino, InodeType::REG)
            &&& old(sbi).page_allocator is Some
            &&& old(sbi).alloc_agrees()
            &&& (old(sbi).dev@.inodes[new_ino as int].link_count > 1 || (pns.no_duplicates() && forall|j: int|
                0 <= j < pns.len() ==> data_page_readable(old(sbi).dev@, #[trigger] pns[j] as int)))
        }) ==> r is Ok,
{
    let ghost s0 = *sbi;
    let ghost loc = src_dentry.spec_loc();
    let new_pi = InodeWrapper::get_init_reg_inode_by_ino(&sbi.dev, new_ino)?;
    let new_pi = new_pi.dec_link_count(&mut sbi.dev, now, &src_dentry)?.flush();
    let dst_dentry = dst_dentry.clear_rename_pointer(&mut sbi.dev, &src_dentry).flush();
    let new_pi = new_pi.fence();
    let dst_dentry = dst_dentry.fence();
    let src_dentry = src_dentry.dealloc_dentry(&mut sbi.dev).flush().fence();
    let ghost s1 = *sbi;
    proof {
        assert(s1.dev@.descs == s0.dev@.descs);
        if s0.alloc_agrees() && dir_page_readable(s1.dev@, loc.page_no as int) {
            assert(!s0.free_pages().contains(loc.page_no));
        }
    }
    free_emptied_dir_page(sbi, &src_dentry)?;
    let ghost s2 = *sbi;
    proof {
        assert(sbi.same_pools(s0));
        assert forall|k: u64| #[trigger] new_info.view().contains_key(k) implies sbi.page_ok(new_info.view()[k].page_no) by {
            assert(s0.page_ok(new_info.view()[k].page_no));
        }
        let pns = info_page_nos(*new_info);
        if s0.alloc_agrees() && (forall|j: int| 0 <= j < pns.len() ==> data_page_readable(s0.dev@, #[trigger] pns[j] as int)) {
            assert forall|j: int| 0 <= j < pns.len() implies data_page_readable(s2.dev@, #[trigger] pns[j] as int)
                && !s2.page_is_free(pns[j]) by {
                assert(data_page_readable(s0.dev@, pns[j] as int));
                assert(!s0.free_pages().contains(pns[j]));
                if dir_page_readable(s1.dev@, loc.page_no as int) {
                    assert(pns[j] != loc.page_no);
                }
            }
        }
        assert(s0.page_allocator is Some ==> s2.page_allocator is Some);
    }
    let new_pi = runtime_finish_unlink(sbi, new_pi, new_info)?;
    proof {
        assert(sbi.same_pools(s0));
        let links = s0.dev@.inodes[new_ino as int].link_count;
        assert(s1.dev@.descs == s0.dev@.descs);
        assert(s2.dev@.inodes[new_ino as int].link_count == links - 1);
        lemma_unlink_pages(s0, s1, s2, *sbi, *new_info, links, src_dentry.spec_loc().page_no);
    }
    Ok((src_dentry, dst_dentry))
}

/// The type of inode `ino`.
fn check_inode_type(dev: &crate::pm::PmDevice, ino: InodeNum) -> (r: Result<InodeType, Error>)
    requires
        dev.wf(),
    ensures
        (match r {
            Ok(t) => 0 < ino < NUM_INODES && t == dev@.inodes[ino as int].inode_type,
            Err(e) => e == Error::EINVAL && (ino == 0 || ino >= NUM_INODES),
        }),
{
    let i = crate::inode::get_inode_by_ino(dev, ino)?;
    Ok(i.get_type())
}

/// What a rename over an existing entry did to the entries: entry `dst`
/// now names the inode entry `src` named, with no back pointer; entry
/// `src` is killed and freed; every other entry is as before.
pub open spec fn entries_renamed(v0: PmView, v1: PmView, src: DentryLoc, dst: DentryLoc) -> bool {
    &&& src != dst
    &&& v0.valid_loc(src)
    &&& v0.valid_loc(dst)
    &&& v0.dentry(src).ino != 0
    &&& v0.dentry(dst).ino != 0
    &&& v1.dentry(dst) == (HayleyFsDentry { ino: v0.dentry(src).ino, rename_ptr: None, ..v0.dentry(dst) })
    &&& v1.dentry(src).ino == 0
    &&& name_is_empty(v1.dentry(src).name)
    &&& forall|l: DentryLoc| #[trigger] v0.valid_loc(l) && l != src && l != dst ==> v1.dentry(l) == v0.dentry(l)
}

/// Renames entry `old_dentry_info` over the live entry `new_dentry_info`,
/// which names regular file `new_ino` (whose pages `new_info` lists): the
/// new entry takes over the old entry's inode, the file loses a link and is
/// freed with its pages when none is left, the old entry is freed.
fn rename_over_file(
    sbi: &mut SbInfo,
    old_dentry_info: &DentryInfo,
    new_dentry_info: &DentryInfo,
    new_ino: InodeNum,
    new_info: &HayleyFsRegInodeInfo,
    dst_parent_inode: &InodeWrapper<Clean, Start, DirInode>,
    now: Timespec,
) -> (r: Result<(DentryWrapper<Clean, Free>, DentryWrapper<Clean, Complete>), Error>)
    requires
        old(sbi).wf(),
        old(sbi).reg_info_ok(*new_info),
        old(sbi).dev@.valid_loc(old_dentry_info.loc),
        old(sbi).dev@.valid_loc(new_dentry_info.loc),
        old(sbi).page_ok(old_dentry_info.loc.page_no),
        old_dentry_info.loc != new_dentry_info.loc,
    ensures
        final(sbi).wf(),
        final(sbi).unchanged_but_pages(*old(sbi)),
        final(sbi).same_pools(*old(sbi)),
        final(sbi).dev@.descs.len() == old(sbi).dev@.descs.len(),
        (match r {
            Ok((src, dst)) => {
                let v0 = old(sbi).dev@;
                let links = v0.inodes[new_ino as int].link_count;
                &&& src.spec_loc() == old_dentry_info.loc
                &&& dst.spec_loc() == new_dentry_info.loc
                &&& entries_renamed(v0, final(sbi).dev@, old_dentry_info.loc, new_dentry_info.loc)
                &&& init_inode_of_type(v0, new_ino, InodeType::REG)
                &&& links > 0
                &&& final(sbi).dev@.inodes == v0.inodes.update(
                    new_ino as int,
                    if links > 1 {
                        HayleyFsInode { link_count: (links - 1) as u16, ctime: now, ..v0.inodes[new_ino as int] }
                    } else {
                        zero_inode_spec()
                    },
                )
                &&& final(sbi).dev@.data == v0.data
                &&& pages_released(*old(sbi), *final(sbi), unlink_freed(*old(sbi), *final(sbi), *new_info, links, old_dentry_info.loc.page_no))
            },
            Err(_) => true,
        }),
        ({
            let pns = info_page_nos(*new_info);
            &&& old(sbi).dev@.dentry(old_dentry_info.loc).ino != 0
            &&& old(sbi).dev@.dentry(new_dentry_info.loc).ino != 0
            &&& init_inode_of_type(old(sbi).dev@, new_ino, InodeType::REG)
            &&& old(sbi).page_allocator is Some
            &&& old(sbi).alloc_agrees()
            &&& (old(sbi).dev@.inodes[new_ino as int].link_count > 1 || (pns.no_duplicates() && forall|j: int|
                0 <= j < pns.len() ==> data_page_readable(old(sbi).dev@, #[trigger] pns[j] as int)))
        }) ==> r is Ok,
{
    let ghost s0 = *sbi;
    let (src_dentry, dst_dentry) = rename_overwrite_dentry_standard(sbi, old_dentry_info, new_dentry_info, dst_parent_inode)?;
    let ghost s1 = *sbi;
    proof {
        assert(s1.dev@.inodes == s0.dev@.inodes);
        assert(s1.dev@.descs == s0.dev@.descs);
        if s0.alloc_agrees() {
            SbInfo::lemma_agrees_kept(s0, s1);
        }
        assert(sbi.page_ok(old_dentry_info.loc.page_no));
        assert forall|k: u64| #[trigger] new_info.view().contains_key(k) implies sbi.page_ok(new_info.view()[k].page_no) by {
            assert(s0.page_ok(new_info.view()[k].page_no));
        }
    }
    let r = rename_overwrite_inode(sbi, new_ino, new_info, dst_dentry, src_dentry, now);
    proof {
        assert(sbi.same_pools(s0));
        if r is Ok {
            let v0 = s0.dev@;
            let s = old_dentry_info.loc;
            let d = new_dentry_info.loc;
            assert(s1.dev@.dentry(d) == (HayleyFsDentry { ino: v0.dentry(s).ino, rename_ptr: Some(s), ..v0.dentry(d) }));
            assert(s1.dev@.dentry(s) == (HayleyFsDentry { ino: 0, ..v0.dentry(s) }));
            assert forall|l: DentryLoc| #[trigger] v0.valid_loc(l) && l != s && l != d implies sbi.dev@.dentry(l) == v0.dentry(l) by {
                assert(s1.dev@.dentry(l) == v0.dentry(l));
                assert(s1.dev@.valid_loc(l));
            }
            assert(s1.dev@.inodes == v0.inodes);
            assert(s1.dev@.descs == v0.descs);
            assert(s1.dev@.data == v0.data);
            assert(unlink_freed(s1, *sbi, *new_info, v0.inodes[new_ino as int].link_count, s.page_no)
                == unlink_freed(s0, *sbi, *new_info, v0.inodes[new_ino as int].link_count, s.page_no));
        }
    }
    r
}

/// The index entry for a live entry after a rename into slot `dst`.
pub open spec fn renamed_info(v1: PmView, dst: DentryLoc) -> DentryInfo {
    DentryInfo { ino: v1.dentry(dst).ino, loc: dst, name: v1.dentry(dst).name }
}

/// The error a rename into directory `parent` gives, where `found` is the
/// entry the new name names there: a directory that is not live gives
/// `not_dir_error`; an inode number `src` out of range `EINVAL`, a free
/// inode `src` `ENOENT`; a new name naming nothing `EPERM`; a new name
/// naming a directory `dst` with entries `ENOTEMPTY`.
pub open spec fn rename_error(
    v: PmView,
    parent: InodeNum,
    found: Option<DentryInfo>,
    src: InodeNum,
    dst: InodeNum,
    dst_dir_info: HayleyFsDirInodeInfo,
    e: Error,
) -> bool {
    if !init_inode_of_type(v, parent, InodeType::DIR) {
        e == not_dir_error(parent)
    } else if src == 0 || src >= NUM_INODES {
        e == Error::EINVAL
    } else if v.inodes[src as int].inode_type == InodeType::NONE {
        e == Error::ENOENT
    } else if found is None {
        e == Error::EPERM
    } else if init_inode_of_type(v, dst, InodeType::DIR) && !dst_dir_info.dentry_map().dom().is_empty() {
        e == Error::ENOTEMPTY
    } else {
        true
    }
}

/// A rename into directory `parent`, where `found` is the entry the new
/// name names there, is refused before anything is changed: the directory
/// is not live, `src` is out of range or free, the new name names nothing,
/// or it names a directory `dst` with entries.
pub open spec fn rename_refused(
    v: PmView,
    parent: InodeNum,
    found: Option<DentryInfo>,
    src: InodeNum,
    dst: InodeNum,
    dst_dir_info: HayleyFsDirInodeInfo,
) -> bool {
    ||| !init_inode_of_type(v, parent, InodeType::DIR)
    ||| !(0 < src < NUM_INODES && v.inodes[src as int].inode_type != InodeType::NONE)
    ||| found is None
    ||| (init_inode_of_type(v, dst, InodeType::DIR) && !dst_dir_info.dentry_map().dom().is_empty())
}

/// A rename of the live entry at `src_loc` (naming inode `src`) over the
/// entry `found` of directory `parent` can be carried out: the directory is
/// live, `src` is an inode in use, `found` is a live entry in another slot,
/// the page allocator is present and agrees with the device, and the
/// overwritten inode `dst` is a file whose pages (listed by
/// `dst_file_info`) are readable data pages when its last link goes, or,
/// where `dirs_allowed`, an empty directory other than `parent` whose pages
/// (listed by `dst_dir_info`) are readable directory pages.
pub open spec fn rename_ok(
    s: SbInfo,
    parent: InodeNum,
    src_loc: DentryLoc,
    found: Option<DentryInfo>,
    src: InodeNum,
    dst: InodeNum,
    dst_file_info: HayleyFsRegInodeInfo,
    dst_dir_info: HayleyFsDirInodeInfo,
    dirs_allowed: bool,
) -> bool {
    let v = s.dev@;
    let pns = info_page_nos(dst_file_info);
    &&& init_inode_of_type(v, parent, InodeType::DIR)
    &&& 0 < src < NUM_INODES
    &&& v.inodes[src as int].inode_type != InodeType::NONE
    &&& found is Some
    &&& found->0.loc != src_loc
    &&& v.dentry(src_loc).ino != 0
    &&& v.dentry(found->0.loc).ino != 0
    &&& s.page_allocator is Some
    &&& s.alloc_agrees()
    &&& ({
        ||| {
            &&& init_inode_of_type(v, dst, InodeType::REG)
            &&& (v.inodes[dst as int].link_count > 1 || (pns.no_duplicates() && forall|j: int|
                0 <= j < pns.len() ==> data_page_readable(v, #[trigger] pns[j] as int)))
        }
        ||| {
            &&& dirs_allowed
            &&& init_inode_of_type(v, dst, InodeType::DIR)
            &&& dst_dir_info.dentry_map().dom().is_empty()
            &&& dst != parent
            &&& forall|p: PageNum| #[trigger] dst_dir_info.page_set().contains(p) ==> dir_page_readable(v, p as int)
        }
    })
}

/// Renames the entry `old_dentry_info` of directory `parent` over entry
/// `new_name` of the same directory.  Only a rename over an existing entry
/// is done: over a file (`dst_ino`, whose pages `dst_file_info` lists) or
/// over an empty directory (`dst_ino`, whose index is `dst_dir_info`).
fn single_dir_rename(
    sbi: &mut SbInfo,
    old_dentry_info: DentryInfo,
    new_name: &[u8],
    src_ino: InodeNum,
    dst_ino: InodeNum,
    dst_file_info: &HayleyFsRegInodeInfo,
    dst_dir_info: &HayleyFsDirInodeInfo,
    parent: InodeNum,
    parent_info: &mut HayleyFsDirInodeInfo,
    now: Timespec,
) -> (r: Result<(DentryWrapper<Clean, Free>, DentryWrapper<Clean, Complete>), Error>)
    requires
        old(sbi).wf(),
        old(sbi).dir_info_ok(*old(parent_info)),
        old(sbi).reg_info_ok(*dst_file_info),
        old(sbi).dir_info_ok(*dst_dir_info),
        old(parent_info).spec_ino() == parent,
        dst_dir_info.spec_ino() == dst_ino,
        old(parent_info).dentry_map().contains_key(old_dentry_info.name),
        old(parent_info).dentry_map()[old_dentry_info.name] == old_dentry_info,
        new_name@.len() <= MAX_FILENAME_LEN,
    ensures
        final(sbi).wf(),
        final(sbi).dir_info_ok(*final(parent_info)),
        final(parent_info).spec_ino() == parent,
        final(sbi).same_pools(*old(sbi)),
        final(sbi).dev@.descs.len() == old(sbi).dev@.descs.len(),
        final(sbi).unchanged_but_pages(*old(sbi)),
        (match r {
            Ok((src, dst)) => {
                let v0 = old(sbi).dev@;
                let v1 = final(sbi).dev@;
                let found = lookup_spec(old(parent_info).dentry_map(), new_name@);
                &&& init_inode_of_type(v0, parent, InodeType::DIR)
                &&& found is Some
                &&& src.spec_loc() == old_dentry_info.loc
                &&& dst.spec_loc() == found->0.loc
                &&& entries_renamed(v0, v1, src.spec_loc(), dst.spec_loc())
                &&& final(parent_info).dentry_map() == old(parent_info).dentry_map().insert(
                    v1.dentry(dst.spec_loc()).name,
                    renamed_info(v1, dst.spec_loc()),
                ).remove(old_dentry_info.name)
                &&& v1.data == v0.data
                &&& (old(sbi).alloc_agrees() ==> final(sbi).alloc_agrees())
                &&& (v0.inodes[dst_ino as int].inode_type == InodeType::DIR ==> {
                    let old_p = v0.inodes[parent as int];
                    &&& pages_released(*old(sbi), *final(sbi), rmdir_freed(*old(sbi), *final(sbi), *dst_dir_info, src.spec_loc().page_no))
                    &&& dst_dir_info.dentry_map().dom().is_empty()
                    &&& v1.inodes == v0.inodes.update(
                        parent as int,
                        HayleyFsInode { link_count: (old_p.link_count - 1) as u16, ctime: now, ..old_p },
                    ).update(dst_ino as int, zero_inode_spec())
                })
                &&& (v0.inodes[dst_ino as int].inode_type != InodeType::DIR ==> {
                    let links = v0.inodes[dst_ino as int].link_count;
                    &&& pages_released(
                        *old(sbi),
                        *final(sbi),
                        unlink_freed(*old(sbi), *final(sbi), *dst_file_info, links, src.spec_loc().page_no),
                    )
                    &&& init_inode_of_type(v0, dst_ino, InodeType::REG)
                    &&& v1.inodes == v0.inodes.update(
                        dst_ino as int,
                        if links > 1 {
                            HayleyFsInode { link_count: (links - 1) as u16, ctime: now, ..v0.inodes[dst_ino as int] }
                        } else {
                            zero_inode_spec()
                        },
                    )
                })
            },
            Err(e) => *final(parent_info) == *old(parent_info) && rename_error(
                old(sbi).dev@,
                parent,
                lookup_spec(old(parent_info).dentry_map(), new_name@),
                src_ino,
                dst_ino,
                *dst_dir_info,
                e,
            ) && (!init_inode_of_type(old(sbi).dev@, parent, InodeType::DIR) || lookup_spec(
                old(parent_info).dentry_map(),
                new_name@,
            ) is None || !(0 < src_ino < NUM_INODES && old(sbi).dev@.inodes[src_ino as int].inode_type != InodeType::NONE)
                || (init_inode_of_type(old(sbi).dev@, dst_ino, InodeType::DIR) && !dst_dir_info.dentry_map().dom().is_empty())
                ==> *final(sbi) == *old(sbi)),
        }),
        rename_ok(
            *old(sbi),
            parent,
            old_dentry_info.loc,
            lookup_spec(old(parent_info).dentry_map(), new_name@),
            src_ino,
            dst_ino,
            *dst_file_info,
            *dst_dir_info,
            true,
        ) ==> r is Ok,
{
    let ghost s0 = *sbi;
    let ghost i0 = *parent_info;
    let parent_inode = InodeWrapper::get_init_dir_inode_by_ino(&sbi.dev, parent)?;
    let new_dentry_info = parent_info.lookup_dentry(new_name);
    proof {
        let m = parent_info.dentry_map();
        match new_dentry_info {
            Some(d) => {
                let k0 = choose|k: FileName| k.bytes@ == spec_name_bytes(new_name@) && #[trigger] m.contains_key(k) && d == m[k];
                let k = choose|k: FileName| k.bytes@ == spec_name_bytes(new_name@) && #[trigger] m.contains_key(k);
                lemma_name_eq(k, k0);
                assert(parent_info.page_set().contains(d.loc.page_no));
            },
            None => {},
        }
        assert(parent_info.page_set().contains(old_dentry_info.loc.page_no));
    }
    let inode_type = check_inode_type(&sbi.dev, src_ino)?;
    if inode_type == InodeType::NONE {
        return Err(Error::ENOENT);
    }
    let new_dentry_info = match new_dentry_info {
        Some(d) => d,
        None => {
            return Err(Error::EPERM);
        },
    };
    proof {
        assert(lookup_spec(i0.dentry_map(), new_name@) == Some(new_dentry_info));
    }
    let new_inode_type = check_inode_type(&sbi.dev, dst_ino)?;
    if new_inode_type == InodeType::DIR {
        let _dst_dir = InodeWrapper::get_init_dir_inode_by_ino(&sbi.dev, dst_ino)?;
        if dst_dir_info.has_dentries() {
            return Err(Error::ENOTEMPTY);
        }
    }
    if old_dentry_info.loc == new_dentry_info.loc {
        return Err(Error::EINVAL);
    }
    let old_name = old_dentry_info.name;
    if new_inode_type == InodeType::REG || new_inode_type == InodeType::SYMLINK {
        let (src_dentry, dst_dentry) = rename_over_file(
            sbi,
            &old_dentry_info,
            &new_dentry_info,
            dst_ino,
            dst_file_info,
            &parent_inode,
            now,
        )?;
        proof {
            assert forall|q: PageNum| #[trigger] parent_info.page_set().contains(q) implies sbi.page_ok(q) by {
                assert(s0.page_ok(q));
            }
            if s0.alloc_agrees() {
                lemma_release_agrees(
                    s0,
                    *sbi,
                    unlink_freed(s0, *sbi, *dst_file_info, s0.dev@.inodes[dst_ino as int].link_count, old_dentry_info.loc.page_no),
                );
            }
        }
        parent_info.atomic_add_and_delete_dentry(&sbi.dev, &dst_dentry, &old_name)?;
        Ok((src_dentry, dst_dentry))
    } else if new_inode_type == InodeType::DIR {
        let (src_dentry, dst_dentry) = rename_overwrite_dentry_standard(sbi, &old_dentry_info, &new_dentry_info, &parent_inode)?;
        let ghost s1 = *sbi;
        proof {
            assert(s1.dev@.inodes == s0.dev@.inodes);
        }
        let parent_inode = parent_inode.dec_link_count(&mut sbi.dev, now, &src_dentry)?.flush();
        let dst_dentry = dst_dentry.clear_rename_pointer(&mut sbi.dev, &src_dentry).flush();
        let _parent_inode = parent_inode.fence();
        let dst_dentry = dst_dentry.fence();
        let new_pi = InodeWrapper::get_init_dir_inode_by_ino(&sbi.dev, dst_ino)?;
        let new_pi = new_pi.set_unmap_page_state();
        let ghost s2 = *sbi;
        proof {
            assert(sbi.same_pools(s0));
            assert forall|p: PageNum| #[trigger] dst_dir_info.page_set().contains(p) implies sbi.page_ok(p) by {
                assert(s0.page_ok(p));
            }
            assert(s2.dev@.descs == s0.dev@.descs);
            if s0.alloc_agrees() {
                assert forall|p: PageNum| #[trigger] dst_dir_info.page_set().contains(p) && dir_page_readable(s0.dev@, p as int)
                    implies dir_page_readable(s2.dev@, p as int) && !s2.page_is_free(p) by {
                    assert(s2.dev@.desc(p as int) == s0.dev@.desc(p as int));
                    assert(!s0.free_pages().contains(p));
                }
            }
        }
        let _pages = runtime_rmdir_delete_pages(sbi, dst_dir_info, &new_pi)?;
        let ghost s3 = *sbi;
        let _new_pi = new_pi.dealloc_dir(&mut sbi.dev).flush().fence();
        let src_dentry = src_dentry.dealloc_dentry(&mut sbi.dev).flush().fence();
        let ghost s4 = *sbi;
        proof {
            assert(sbi.same_pools(s0));
            assert(sbi.page_ok(old_dentry_info.loc.page_no)) by {
                assert(s0.page_ok(old_dentry_info.loc.page_no));
            }
            let p = old_dentry_info.loc.page_no;
            if s0.alloc_agrees() && dir_page_readable(s4.dev@, p as int) {
                assert(s4.dev@.descs == s3.dev@.descs);
                dst_dir_info.lemma_wf();
                let idx = p - DATA_PAGE_START;
                assert(0 <= idx < s2.dev@.descs.len());
                if among(dst_dir_info.page_seq(), idx) {
                    assert(s3.dev@.descs[idx].page_type == PageType::NONE);
                }
                assert(s3.dev@.descs[idx] == s2.dev@.descs[idx]);
                assert(!s0.free_pages().contains(p));
                if dst_dir_info.page_set().contains(p) {
                    assert(dst_dir_info.page_seq().to_set().contains(p));
                    let j = choose|j: int| 0 <= j < dst_dir_info.page_seq().len() && dst_dir_info.page_seq()[j] == p;
                    assert(among(dst_dir_info.page_seq(), idx));
                }
                assert(!s4.page_is_free(p));
            }
        }
        free_emptied_dir_page(sbi, &src_dentry)?;
        proof {
            assert(sbi.same_pools(s0));
            assert forall|q: PageNum| #[trigger] parent_info.page_set().contains(q) implies sbi.page_ok(q) by {
                assert(s0.page_ok(q));
            }
        }
        parent_info.atomic_add_and_delete_dentry(&sbi.dev, &dst_dentry, &old_name)?;
        proof {
            assert(s2.dev@.descs == s0.dev@.descs);
            assert(s4.dev@.descs == s3.dev@.descs);
            lemma_rmdir_pages(s0, s2, s3, s4, *sbi, *dst_dir_info, old_dentry_info.loc.page_no);
            if s0.alloc_agrees() {
                lemma_release_agrees(s0, *sbi, rmdir_freed(s0, *sbi, *dst_dir_info, old_dentry_info.loc.page_no));
            }
            let v0 = s0.dev@;
            let s = old_dentry_info.loc;
            let d = new_dentry_info.loc;
            assert forall|l: DentryLoc| #[trigger] v0.valid_loc(l) && l != s && l != d implies sbi.dev@.dentry(l) == v0.dentry(l) by {
                assert(s1.dev@.dentry(l) == v0.dentry(l));
                assert(s3.dev@.dentry(l) == s2.dev@.dentry(l));
            }
            assert(sbi.dev@.inodes =~= v0.inodes.update(
                parent as int,
                HayleyFsInode { link_count: (v0.inodes[parent as int].link_count - 1) as u16, ctime: now, ..v0.inodes[parent as int] },
            ).update(dst_ino as int, zero_inode_spec()));
        }
        Ok((src_dentry, dst_dentry))
    } else {
        Err(Error::EINVAL)
    }
}

/// Renames the entry `old_dentry_info` of directory `old_parent` over entry
/// `new_name` of directory `new_parent`, a file: the new entry takes over
/// the inode, the file named before (`dst_ino`, whose pages
/// `dst_file_info` lists) loses a link and is freed with its pages when
/// none is left, and the old entry is freed.  The new entry is recorded in
/// the new directory's index and the old name dropped from the old one's.
/// A rename to a new name, or over a directory, is refused.
fn crossdir_rename(
    sbi: &mut SbInfo,
    old_dentry_info: DentryInfo,
    new_name: &[u8],
    src_ino: InodeNum,
    dst_ino: InodeNum,
    dst_file_info: &HayleyFsRegInodeInfo,
    dst_dir_info: &HayleyFsDirInodeInfo,
    old_parent_info: &mut HayleyFsDirInodeInfo,
    new_parent: InodeNum,
    new_parent_info: &mut HayleyFsDirInodeInfo,
    now: Timespec,
) -> (r: Result<(DentryWrapper<Clean, Free>, DentryWrapper<Clean, Complete>), Error>)
    requires
        old(sbi).wf(),
        old(sbi).dir_info_ok(*old(old_parent_info)),
        old(sbi).dir_info_ok(*old(new_parent_info)),
        old(sbi).reg_info_ok(*dst_file_info),
        old(sbi).dir_info_ok(*dst_dir_info),
        old(new_parent_info).spec_ino() == new_parent,
        dst_dir_info.spec_ino() == dst_ino,
        old(old_parent_info).dentry_map().contains_key(old_dentry_info.name),
        old(old_parent_info).dentry_map()[old_dentry_info.name] == old_dentry_info,
        new_name@.len() <= MAX_FILENAME_LEN,
    ensures
        final(sbi).wf(),
        final(sbi).dir_info_ok(*final(old_parent_info)),
        final(sbi).dir_info_ok(*final(new_parent_info)),
        final(old_parent_info).spec_ino() == old(old_parent_info).spec_ino(),
        final(new_parent_info).spec_ino() == new_parent,
        final(sbi).same_pools(*old(sbi)),
        final(sbi).dev@.descs.len() == old(sbi).dev@.descs.len(),
        final(sbi).unchanged_but_pages(*old(sbi)),
        (match r {
            Ok((src, dst)) => {
                let v0 = old(sbi).dev@;
                let v1 = final(sbi).dev@;
                let found = lookup_spec(old(new_parent_info).dentry_map(), new_name@);
                let links = v0.inodes[dst_ino as int].link_count;
                &&& init_inode_of_type(v0, new_parent, InodeType::DIR)
                &&& found is Some
                &&& src.spec_loc() == old_dentry_info.loc
                &&& dst.spec_loc() == found->0.loc
                &&& entries_renamed(v0, v1, src.spec_loc(), dst.spec_loc())
                &&& final(new_parent_info).dentry_map() == old(new_parent_info).dentry_map().insert(
                    v1.dentry(dst.spec_loc()).name,
                    renamed_info(v1, dst.spec_loc()),
                )
                &&& final(old_parent_info).dentry_map() == old(old_parent_info).dentry_map().remove(old_dentry_info.name)
                &&& init_inode_of_type(v0, dst_ino, InodeType::REG)
                &&& v1.inodes == v0.inodes.update(
                    dst_ino as int,
                    if links > 1 {
                        HayleyFsInode { link_count: (links - 1) as u16, ctime: now, ..v0.inodes[dst_ino as int] }
                    } else {
                        zero_inode_spec()
                    },
                )
                &&& v1.data == v0.data
                &&& (old(sbi).alloc_agrees() ==> final(sbi).alloc_agrees())
                &&& pages_released(*old(sbi), *final(sbi), unlink_freed(*old(sbi), *final(sbi), *dst_file_info, links, src.spec_loc().page_no))
            },
            Err(e) => {
                let v0 = old(sbi).dev@;
                let found = lookup_spec(old(new_parent_info).dentry_map(), new_name@);
                &&& *final(old_parent_info) == *old(old_parent_info)
                &&& *final(new_parent_info) == *old(new_parent_info)
                &&& rename_error(v0, new_parent, found, src_ino, dst_ino, *dst_dir_info, e)
                &&& (init_inode_of_type(v0, new_parent, InodeType::DIR) && found is Some && 0 < src_ino < NUM_INODES
                    && v0.inodes[src_ino as int].inode_type != InodeType::NONE && init_inode_of_type(v0, dst_ino, InodeType::DIR)
                    && dst_dir_info.dentry_map().dom().is_empty() ==> e == Error::EPERM)
                &&& (!init_inode_of_type(v0, new_parent, InodeType::DIR) || found is None || !(0 < src_ino < NUM_INODES
                    && v0.inodes[src_ino as int].inode_type != InodeType::NONE) || init_inode_of_type(v0, dst_ino, InodeType::DIR)
                    ==> *final(sbi) == *old(sbi))
            },
        }),
        rename_ok(
            *old(sbi),
            new_parent,
            old_dentry_info.loc,
            lookup_spec(old(new_parent_info).dentry_map(), new_name@),
            src_ino,
            dst_ino,
            *dst_file_info,
            *dst_dir_info,
            false,
        ) ==> r is Ok,
{
    let ghost s0 = *sbi;
    let new_parent_inode = InodeWrapper::get_init_dir_inode_by_ino(&sbi.dev, new_parent)?;
    let new_dentry_info = new_parent_info.lookup_dentry(new_name);
    proof {
        let m = new_parent_info.dentry_map();
        match new_dentry_info {
            Some(d) => {
                let k0 = choose|k: FileName| k.bytes@ == spec_name_bytes(new_name@) && #[trigger] m.contains_key(k) && d == m[k];
                let k = choose|k: FileName| k.bytes@ == spec_name_bytes(new_name@) && #[trigger] m.contains_key(k);
                lemma_name_eq(k, k0);
                assert(new_parent_info.page_set().contains(d.loc.page_no));
            },
            None => {},
        }
        assert(old_parent_info.page_set().contains(old_dentry_info.loc.page_no));
    }
    let inode_type = check_inode_type(&sbi.dev, src_ino)?;
    if inode_type == InodeType::NONE {
        return Err(Error::ENOENT);
    }
    let new_dentry_info = match new_dentry_info {
        Some(d) => d,
        None => {
            return Err(Error::EPERM);
        },
    };
    proof {
        assert(lookup_spec(old(new_parent_info).dentry_map(), new_name@) == Some(new_dentry_info));
    }
    let new_inode_type = check_inode_type(&sbi.dev, dst_ino)?;
    if new_inode_type == InodeType::REG || new_inode_type == InodeType::SYMLINK {
        if old_dentry_info.loc == new_dentry_info.loc {
            return Err(Error::EINVAL);
        }
        let (src_dentry, dst_dentry) = rename_over_file(
            sbi,
            &old_dentry_info,
            &new_dentry_info,
            dst_ino,
            dst_file_info,
            &new_parent_inode,
            now,
        )?;
        proof {
            assert forall|q: PageNum| #[trigger] old_parent_info.page_set().contains(q) implies sbi.page_ok(q) by {
                assert(s0.page_ok(q));
            }
            assert forall|q: PageNum| #[trigger] new_parent_info.page_set().contains(q) implies sbi.page_ok(q) by {
                assert(s0.page_ok(q));
            }
            if s0.alloc_agrees() {
                lemma_release_agrees(
                    s0,
                    *sbi,
                    unlink_freed(s0, *sbi, *dst_file_info, s0.dev@.inodes[dst_ino as int].link_count, old_dentry_info.loc.page_no),
                );
            }
        }
        let info = dst_dentry.get_dentry_info(&sbi.dev);
        new_parent_info.insert_dentry(info)?;
        old_parent_info.delete_dentry(old_dentry_info)?;
        Ok((src_dentry, dst_dentry))
    } else if new_inode_type == InodeType::DIR {
        let _dst_dir = InodeWrapper::get_init_dir_inode_by_ino(&sbi.dev, dst_ino)?;
        if dst_dir_info.has_dentries() {
            return Err(Error::ENOTEMPTY);
        }
        Err(Error::EPERM)
    } else {
        Err(Error::EINVAL)
    }
}

/// Renames entry `old_name` of directory `old_parent`, whose index is
/// `old_info`, over entry `new_name` of directory `new_parent`, whose index
/// is `new_info` when it is another directory (and `None` when it is the
/// same one).  `src_ino` is the inode the old name names and `dst_ino` the
/// one the new name names, with their indexes `dst_file_info` and
/// `dst_dir_info`.
pub fn hayleyfs_rename(
    sbi: &mut SbInfo,
    old_parent: InodeNum,
    old_info: &mut HayleyFsDirInodeInfo,
    old_name: &[u8],
    new_parent: InodeNum,
    new_info: &mut Option<HayleyFsDirInodeInfo>,
    new_name: &[u8],
    src_ino: InodeNum,
    dst_ino: InodeNum,
    dst_file_info: &HayleyFsRegInodeInfo,
    dst_dir_info: &HayleyFsDirInodeInfo,
    now: Timespec,
) -> (r: Result<(DentryWrapper<Clean, Free>, DentryWrapper<Clean, Complete>), Error>)
    requires
        old(sbi).wf(),
        old(sbi).dir_info_ok(*old(old_info)),
        *old(new_info) matches Some(ni) ==> old(sbi).dir_info_ok(ni) && ni.spec_ino() == new_parent,
        old(sbi).reg_info_ok(*dst_file_info),
        old(sbi).dir_info_ok(*dst_dir_info),
        old(old_info).spec_ino() == old_parent,
        dst_dir_info.spec_ino() == dst_ino,
        old_name@.len() <= MAX_FILENAME_LEN,
        new_name@.len() <= MAX_FILENAME_LEN,
    ensures
        final(sbi).wf(),
        final(sbi).dir_info_ok(*final(old_info)),
        final(old_info).spec_ino() == old_parent,
        (*final(new_info) is Some) == (*old(new_info) is Some),
        *final(new_info) matches Some(ni) ==> final(sbi).dir_info_ok(ni) && ni.spec_ino() == new_parent,
        final(sbi).unchanged_but_pages(*old(sbi)),
        (match r {
            Ok((src, dst)) => {
                let v0 = old(sbi).dev@;
                let v1 = final(sbi).dev@;
                let found = lookup_spec(old(old_info).dentry_map(), old_name@);
                &&& init_inode_of_type(v0, old_parent, InodeType::DIR)
                &&& found is Some
                &&& src.spec_loc() == found->0.loc
                &&& entries_renamed(v0, v1, src.spec_loc(), dst.spec_loc())
                &&& v1.data == v0.data
                &&& (old(sbi).alloc_agrees() ==> final(sbi).alloc_agrees())
                &&& (v0.inodes[dst_ino as int].inode_type == InodeType::DIR ==> {
                    let old_p = v0.inodes[old_parent as int];
                    &&& old_parent == new_parent
                    &&& dst_dir_info.dentry_map().dom().is_empty()
                    &&& v1.inodes == v0.inodes.update(
                        old_parent as int,
                        HayleyFsInode { link_count: (old_p.link_count - 1) as u16, ctime: now, ..old_p },
                    ).update(dst_ino as int, zero_inode_spec())
                    &&& pages_released(*old(sbi), *final(sbi), rmdir_freed(*old(sbi), *final(sbi), *dst_dir_info, src.spec_loc().page_no))
                })
                &&& (v0.inodes[dst_ino as int].inode_type != InodeType::DIR ==> {
                    let links = v0.inodes[dst_ino as int].link_count;
                    &&& init_inode_of_type(v0, dst_ino, InodeType::REG)
                    &&& v1.inodes == v0.inodes.update(
                        dst_ino as int,
                        if links > 1 {
                            HayleyFsInode { link_count: (links - 1) as u16, ctime: now, ..v0.inodes[dst_ino as int] }
                        } else {
                            zero_inode_spec()
                        },
                    )
                    &&& pages_released(
                        *old(sbi),
                        *final(sbi),
                        unlink_freed(*old(sbi), *final(sbi), *dst_file_info, links, src.spec_loc().page_no),
                    )
                })
                &&& (old_parent == new_parent ==> {
                    &&& lookup_spec(old(old_info).dentry_map(), new_name@) matches Some(d) && d.loc == dst.spec_loc()
                    &&& final(old_info).dentry_map() == old(old_info).dentry_map().insert(
                        v1.dentry(dst.spec_loc()).name,
                        renamed_info(v1, dst.spec_loc()),
                    ).remove(found->0.name)
                })
                &&& (old_parent != new_parent ==> {
                    &&& *old(new_info) matches Some(ni) && lookup_spec(ni.dentry_map(), new_name@) matches Some(d)
                        && d.loc == dst.spec_loc()
                    &&& *final(new_info) matches Some(ni) && ni.dentry_map() == old(new_info)->0.dentry_map().insert(
                        v1.dentry(dst.spec_loc()).name,
                        renamed_info(v1, dst.spec_loc()),
                    )
                    &&& final(old_info).dentry_map() == old(old_info).dentry_map().remove(found->0.name)
                })
            },
            Err(e) => {
                &&& *final(old_info) == *old(old_info)
                &&& *final(new_info) == *old(new_info)
                &&& (lookup_spec(old(old_info).dentry_map(), old_name@) is None && init_inode_of_type(
                    old(sbi).dev@,
                    old_parent,
                    InodeType::DIR,
                ) ==> e == Error::ENOENT && *final(sbi) == *old(sbi))
                &&& (!init_inode_of_type(old(sbi).dev@, old_parent, InodeType::DIR) ==> *final(sbi) == *old(sbi)
                    && e == not_dir_error(old_parent))
                &&& (init_inode_of_type(old(sbi).dev@, old_parent, InodeType::DIR) && lookup_spec(
                    old(old_info).dentry_map(),
                    old_name@,
                ) is Some ==> {
                    &&& (old_parent != new_parent && *old(new_info) is None ==> *final(sbi) == *old(sbi) && e == Error::EINVAL)
                    &&& (old_parent == new_parent ==> rename_error(
                        old(sbi).dev@,
                        old_parent,
                        lookup_spec(old(old_info).dentry_map(), new_name@),
                        src_ino,
                        dst_ino,
                        *dst_dir_info,
                        e,
                    ))
                    &&& (old_parent == new_parent && rename_refused(
                        old(sbi).dev@,
                        old_parent,
                        lookup_spec(old(old_info).dentry_map(), new_name@),
                        src_ino,
                        dst_ino,
                        *dst_dir_info,
                    ) ==> *final(sbi) == *old(sbi))
                    &&& (old_parent != new_parent && *old(new_info) is Some && (rename_refused(
                        old(sbi).dev@,
                        new_parent,
                        lookup_spec(old(new_info)->0.dentry_map(), new_name@),
                        src_ino,
                        dst_ino,
                        *dst_dir_info,
                    ) || init_inode_of_type(old(sbi).dev@, dst_ino, InodeType::DIR)) ==> *final(sbi) == *old(sbi))
                    &&& (old_parent != new_parent && *old(new_info) is Some ==> rename_error(
                        old(sbi).dev@,
                        new_parent,
                        lookup_spec(old(new_info)->0.dentry_map(), new_name@),
                        src_ino,
                        dst_ino,
                        *dst_dir_info,
                        e,
                    ))
                })
            },
        }),
        (lookup_spec(old(old_info).dentry_map(), old_name@) matches Some(d) && ({
            ||| old_parent == new_parent && rename_ok(
                *old(sbi),
                old_parent,
                d.loc,
                lookup_spec(old(old_info).dentry_map(), new_name@),
                src_ino,
                dst_ino,
                *dst_file_info,
                *dst_dir_info,
                true,
            )
            ||| old_parent != new_parent && init_inode_of_type(old(sbi).dev@, old_parent, InodeType::DIR) && (*old(
                new_info,
            ) matches Some(ni) && rename_ok(
                *old(sbi),
                new_parent,
                d.loc,
                lookup_spec(ni.dentry_map(), new_name@),
                src_ino,
                dst_ino,
                *dst_file_info,
                *dst_dir_info,
                false,
            ))
        })) ==> r is Ok,
{
    let _parent_inode = InodeWrapper::get_init_dir_inode_by_ino(&sbi.dev, old_parent)?;
    let old_dentry_info = old_info.lookup_dentry(old_name);
    proof {
        let m = old_info.dentry_map();
        match old_dentry_info {
            Some(d) => {
                let k0 = choose|k: FileName| k.bytes@ == spec_name_bytes(old_name@) && #[trigger] m.contains_key(k) && d == m[k];
                let k = choose|k: FileName| k.bytes@ == spec_name_bytes(old_name@) && #[trigger] m.contains_key(k);
                lemma_name_eq(k, k0);
            },
            None => {},
        }
    }
    match old_dentry_info {
        None => Err(Error::ENOENT),
        Some(old_dentry_info) => {
            if old_parent == new_parent {
                let ghost s0 = *sbi;
                let r = single_dir_rename(
                    sbi,
                    old_dentry_info,
                    new_name,
                    src_ino,
                    dst_ino,
                    dst_file_info,
                    dst_dir_info,
                    old_parent,
                    old_info,
                    now,
                );
                proof {
                    if new_info.is_some() {
                        let ni = new_info->0;
                        assert forall|q: PageNum| #[trigger] ni.page_set().contains(q) implies sbi.page_ok(q) by {
                            assert(s0.page_ok(q));
                        }
                    }
                }
                r
            } else {
                match new_info.take() {
                    None => Err(Error::EINVAL),
                    Some(mut ni) => {
                        let r = crossdir_rename(
                            sbi,
                            old_dentry_info,
                            new_name,
                            src_ino,
                            dst_ino,
                            dst_file_info,
                            dst_dir_info,
                            old_info,
                            new_parent,
                            &mut ni,
                            now,
                        );
                        *new_info = Some(ni);
                        r
                    },
                }
            }
        },
    }
}

/// After a name is removed from a directory (by unlinking it, removing it
/// as a directory, or renaming it away), looking the name up in the
/// directory's index finds nothing.
pub proof fn lemma_lookup_after_remove(m0: Map<FileName, DentryInfo>, m1: Map<FileName, DentryInfo>, name: Seq<u8>)
    requires
        lookup_spec(m0, name) is Some,
        m1 == m0.remove(lookup_spec(m0, name)->0.name),
        forall|k: FileName| #[trigger] m0.contains_key(k) ==> m0[k].name == k,
    ensures
        lookup_spec(m1, name) is None,
{
    let k0 = choose|k: FileName| k.bytes@ == spec_name_bytes(name) && #[trigger] m0.contains_key(k);
    assert(m0[k0].name == k0);
    if exists|k: FileName| k.bytes@ == spec_name_bytes(name) && #[trigger] m1.contains_key(k) {
        let k = choose|k: FileName| k.bytes@ == spec_name_bytes(name) && #[trigger] m1.contains_key(k);
        lemma_name_eq(k, k0);
    }
}

/// The index `m` of a directory agrees with the device `v`: the entry filed
/// under each name names an inode and lives in a slot that holds that name
/// and that inode number.
pub open spec fn index_matches(v: PmView, m: Map<FileName, DentryInfo>) -> bool {
    forall|k: FileName| #[trigger] m.contains_key(k) ==> {
        &&& m[k].ino != 0
        &&& v.dentry(m[k].loc).name == k
        &&& v.dentry(m[k].loc).ino == m[k].ino
    }
}

/// After a rename within one directory whose index agrees with the device,
/// looking the new name up finds the entry that now names the renamed
/// inode, and looking the old name up finds nothing.
pub proof fn lemma_lookup_after_rename(
    v0: PmView,
    v1: PmView,
    m0: Map<FileName, DentryInfo>,
    m1: Map<FileName, DentryInfo>,
    old_name: Seq<u8>,
    new_name: Seq<u8>,
    src: DentryLoc,
    dst: DentryLoc,
)
    requires
        forall|k: FileName| #[trigger] m0.contains_key(k) ==> m0[k].name == k,
        index_matches(v0, m0),
        lookup_spec(m0, old_name) matches Some(d) && d.loc == src,
        lookup_spec(m0, new_name) matches Some(d) && d.loc == dst,
        entries_renamed(v0, v1, src, dst),
        m1 == m0.insert(v1.dentry(dst).name, renamed_info(v1, dst)).remove(lookup_spec(m0, old_name)->0.name),
    ensures
        lookup_spec(m1, new_name) == Some(DentryInfo { ino: v0.dentry(src).ino, loc: dst, name: v1.dentry(dst).name }),
        lookup_spec(m1, old_name) is None,
{
    let ko = choose|k: FileName| k.bytes@ == spec_name_bytes(old_name) && #[trigger] m0.contains_key(k);
    let kd = choose|k: FileName| k.bytes@ == spec_name_bytes(new_name) && #[trigger] m0.contains_key(k);
    assert(m0[kd].name == kd);
    assert(m0[ko].name == ko);
    assert(v1.dentry(dst).name == kd);
    assert(ko != kd);
    assert(m1.contains_key(kd));
    let k = choose|k: FileName| k.bytes@ == spec_name_bytes(new_name) && #[trigger] m1.contains_key(k);
    lemma_name_eq(k, kd);
    if exists|k: FileName| k.bytes@ == spec_name_bytes(old_name) && #[trigger] m1.contains_key(k) {
        let k2 = choose|k: FileName| k.bytes@ == spec_name_bytes(old_name) && #[trigger] m1.contains_key(k);
        if k2 == kd {
            lemma_name_eq(ko, kd);
        } else {
            assert(m0.contains_key(k2));
            lemma_name_eq(k2, ko);
        }
    }
}

/// After a rename from one directory into another, each index agreeing
/// with the device, looking the new name up in the new directory finds the
/// entry that now names the renamed inode, and looking the old name up in
/// the old directory finds nothing.
pub proof fn lemma_lookup_after_crossdir_rename(
    v0: PmView,
    v1: PmView,
    m0: Map<FileName, DentryInfo>,
    m1: Map<FileName, DentryInfo>,
    n0: Map<FileName, DentryInfo>,
    n1: Map<FileName, DentryInfo>,
    old_name: Seq<u8>,
    new_name: Seq<u8>,
    src: DentryLoc,
    dst: DentryLoc,
)
    requires
        forall|k: FileName| #[trigger] m0.contains_key(k) ==> m0[k].name == k,
        forall|k: FileName| #[trigger] n0.contains_key(k) ==> n0[k].name == k,
        index_matches(v0, n0),
        lookup_spec(m0, old_name) matches Some(d) && d.loc == src,
        lookup_spec(n0, new_name) matches Some(d) && d.loc == dst,
        entries_renamed(v0, v1, src, dst),
        m1 == m0.remove(lookup_spec(m0, old_name)->0.name),
        n1 == n0.insert(v1.dentry(dst).name, renamed_info(v1, dst)),
    ensures
        lookup_spec(n1, new_name) == Some(DentryInfo { ino: v0.dentry(src).ino, loc: dst, name: v1.dentry(dst).name }),
        lookup_spec(m1, old_name) is None,
{
    lemma_lookup_after_remove(m0, m1, old_name);
    let kd = choose|k: FileName| k.bytes@ == spec_name_bytes(new_name) && #[trigger] n0.contains_key(k);
    assert(n0[kd].name == kd);
    assert(v1.dentry(dst).name == kd);
    assert(n1.contains_key(kd));
    let k = choose|k: FileName| k.bytes@ == spec_name_bytes(new_name) && #[trigger] n1.contains_key(k);
    lemma_name_eq(k, kd);
}

/// Adding an entry (by creating a file, a directory or a symbolic link, or
/// by linking) keeps the directory's index in agreement with the device.
pub proof fn lemma_index_after_add(
    s0: SbInfo,
    s1: SbInfo,
    i0: HayleyFsDirInodeInfo,
    i1: HayleyFsDirInodeInfo,
    parent: InodeNum,
    loc: DentryLoc,
    name: Seq<u8>,
    ino: InodeNum,
)
    requires
        s0.dir_info_ok(i0),
        index_matches(s0.dev@, i0.dentry_map()),
        entry_added(s0, s1, i0, i1, parent, loc, name, ino),
        ino != 0,
    ensures
        index_matches(s1.dev@, i1.dentry_map()),
{
    let m0 = i0.dentry_map();
    let m1 = i1.dentry_map();
    let kn = s1.dev@.dentry(loc).name;
    assert forall|k: FileName| #[trigger] m1.contains_key(k) implies {
        &&& m1[k].ino != 0
        &&& s1.dev@.dentry(m1[k].loc).name == k
        &&& s1.dev@.dentry(m1[k].loc).ino == m1[k].ino
    } by {
        if k != kn {
            assert(m0.contains_key(k));
            assert(s0.page_ok(m0[k].loc.page_no));
            assert(s0.dev@.valid_loc(m0[k].loc));
            assert(m0[k].loc != loc);
        }
    }
}

/// Removing an entry (by unlinking it or removing it as a directory) keeps
/// the directory's index in agreement with the device.
pub proof fn lemma_index_after_remove(
    s0: SbInfo,
    s1: SbInfo,
    m0: Map<FileName, DentryInfo>,
    m1: Map<FileName, DentryInfo>,
    k0: FileName,
)
    requires
        index_matches(s0.dev@, m0),
        forall|k: FileName| #[trigger] m0.contains_key(k) ==> s0.dev@.valid_loc(m0[k].loc),
        m0.contains_key(k0),
        m1 == m0.remove(k0),
        forall|l: DentryLoc| #[trigger] s0.dev@.valid_loc(l) && l != m0[k0].loc ==> s1.dev@.dentry(l) == s0.dev@.dentry(l),
    ensures
        index_matches(s1.dev@, m1),
{
    assert forall|k: FileName| #[trigger] m1.contains_key(k) implies {
        &&& m1[k].ino != 0
        &&& s1.dev@.dentry(m1[k].loc).name == k
        &&& s1.dev@.dentry(m1[k].loc).ino == m1[k].ino
    } by {
        assert(m0.contains_key(k));
        assert(s0.dev@.valid_loc(m0[k].loc));
        assert(m0[k].loc != m0[k0].loc);
    }
}

/// A rename within one directory keeps the directory's index in agreement
/// with the device.
pub proof fn lemma_index_after_rename(
    s0: SbInfo,
    s1: SbInfo,
    i0: HayleyFsDirInodeInfo,
    m1: Map<FileName, DentryInfo>,
    old_name: Seq<u8>,
    new_name: Seq<u8>,
    src: DentryLoc,
    dst: DentryLoc,
)
    requires
        s0.dir_info_ok(i0),
        index_matches(s0.dev@, i0.dentry_map()),
        lookup_spec(i0.dentry_map(), old_name) matches Some(d) && d.loc == src,
        lookup_spec(i0.dentry_map(), new_name) matches Some(d) && d.loc == dst,
        entries_renamed(s0.dev@, s1.dev@, src, dst),
        m1 == i0.dentry_map().insert(s1.dev@.dentry(dst).name, renamed_info(s1.dev@, dst)).remove(
            lookup_spec(i0.dentry_map(), old_name)->0.name,
        ),
    ensures
        index_matches(s1.dev@, m1),
{
    let m0 = i0.dentry_map();
    let ko = choose|k: FileName| k.bytes@ == spec_name_bytes(old_name) && #[trigger] m0.contains_key(k);
    let kd = choose|k: FileName| k.bytes@ == spec_name_bytes(new_name) && #[trigger] m0.contains_key(k);
    assert(m0[kd].name == kd);
    assert(m0[ko].name == ko);
    assert(s1.dev@.dentry(dst).name == kd);
    assert forall|k: FileName| #[trigger] m1.contains_key(k) implies {
        &&& m1[k].ino != 0
        &&& s1.dev@.dentry(m1[k].loc).name == k
        &&& s1.dev@.dentry(m1[k].loc).ino == m1[k].ino
    } by {
        if k != kd {
            assert(m0.contains_key(k));
            assert(s0.page_ok(m0[k].loc.page_no));
            assert(s0.dev@.valid_loc(m0[k].loc));
            assert(m0[k].loc != src);
            assert(m0[k].loc != dst);
        }
    }
}

/// Moving the entries recorded for a directory into its index (as a lookup
/// does) keeps the index in agreement with the device when the recorded
/// entries agree with it too.
pub proof fn lemma_index_after_merge(v: PmView, m: Map<FileName, DentryInfo>, t: Map<FileName, DentryInfo>)
    requires
        index_matches(v, m),
        index_matches(v, t),
    ensures
        index_matches(v, m.union_prefer_right(t)),
{
    let u = m.union_prefer_right(t);
    assert forall|k: FileName| #[trigger] u.contains_key(k) implies {
        &&& u[k].ino != 0
        &&& v.dentry(u[k].loc).name == k
        &&& v.dentry(u[k].loc).ino == u[k].ino
    } by {
        if t.contains_key(k) {
            assert(u[k] == t[k]);
        } else {
            assert(u[k] == m[k]);
        }
    }
}

/// Removing a name that was just added to a directory in which it was not
/// (by unlinking it after creating or linking it) gives the directory back
/// the index it had before.
pub proof fn lemma_remove_undoes_add(
    m0: Map<FileName, DentryInfo>,
    m1: Map<FileName, DentryInfo>,
    m2: Map<FileName, DentryInfo>,
    name: Seq<u8>,
    key: FileName,
    info: DentryInfo,
)
    requires
        lookup_spec(m0, name) is None,
        key.bytes@ == spec_name_bytes(name),
        info.name == key,
        m1 == m0.insert(key, info),
        lookup_spec(m1, name) is Some,
        m2 == m1.remove(lookup_spec(m1, name)->0.name),
    ensures
        m2 == m0,
{
    assert(m1.contains_key(key));
    let k = choose|k: FileName| k.bytes@ == spec_name_bytes(name) && #[trigger] m1.contains_key(k);
    lemma_name_eq(k, key);
    assert(!m0.contains_key(key));
    assert(m2 =~= m0);
}

} // verus!
