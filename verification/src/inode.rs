//! Typed handles on persistent inodes.
//!
//! An `InodeWrapper` names one inode slot on the device.  Its type
//! parameters record whether the last change to the inode is durable
//! (`Dirty`, `InFlight`, `Clean`), which operation last changed it, and
//! whether it is a file or a directory.  Each operation consumes a handle
//! in the state it requires and returns a handle in the state it leaves.
use crate::defs::{Error, InodeNum, InodeType, DATA_PAGE_START, MAX_LINKS, NUM_INODES, S_IFDIR};
use crate::page::{data_page_readable, DataPageWrapper};
use crate::volatile::HayleyFsRegInodeInfo;
use crate::pm::{
    inode_free, inode_initialized, zero_inode_spec, HayleyFsInode, PmDevice, PmView, Timespec,
};
use crate::dentry::DentryWrapper;
use crate::typestate::{Alloc, AddLink, AddPage, Clean, ClearIno, Complete, Dealloc, DecLink, DeletableDentry, DirInode, Dirty, Free, IncLink, IncSize, InFlight, Init, InitRenamePointer, Initialized, RegInode, Renamed, Renaming, SetRenamePointer, Start, ToUnmap, Writeable, Written};
use core::marker::PhantomData;
use vstd::prelude::*;

verus! {

pub struct InodeWrapper<State, Op, Type> {
    state: PhantomData<State>,
    op: PhantomData<Op>,
    inode_type: PhantomData<Type>,
    ino: InodeNum,
    vfs_inode: bool,
}

/// The device with inode `ino` replaced by `i`.
pub open spec fn with_inode(v: PmView, ino: InodeNum, i: HayleyFsInode) -> PmView {
    PmView { inodes: v.inodes.update(ino as int, i), ..v }
}

impl<State, Op, Type> InodeWrapper<State, Op, Type> {
    /// The inode number the handle names.
    pub closed spec fn spec_ino(&self) -> InodeNum {
        self.ino
    }

    /// Whether the handle came with an in-memory VFS inode.
    pub closed spec fn has_vfs_inode(&self) -> bool {
        self.vfs_inode
    }

    pub fn get_ino(&self) -> (r: InodeNum)
        ensures
            r == self.spec_ino(),
    {
        self.ino
    }

    /// Wraps the inode of an in-memory VFS inode numbered `ino`.
    pub fn wrap_inode(ino: InodeNum) -> (r: Self)
        ensures
            r.spec_ino() == ino,
            r.has_vfs_inode(),
    {
        InodeWrapper {
            state: PhantomData,
            op: PhantomData,
            inode_type: PhantomData,
            ino,
            vfs_inode: true,
        }
    }

    /// Moves the handle to another state.
    pub(crate) fn new<NewState, NewOp>(i: InodeWrapper<State, Op, Type>) -> (r: InodeWrapper<
        NewState,
        NewOp,
        Type,
    >)
        ensures
            r.spec_ino() == i.spec_ino(),
            r.has_vfs_inode() == i.has_vfs_inode(),
    {
        InodeWrapper {
            state: PhantomData,
            op: PhantomData,
            inode_type: PhantomData,
            ino: i.ino,
            vfs_inode: i.vfs_inode,
        }
    }

    pub fn get_size(&self, dev: &PmDevice) -> (r: u64)
        requires
            dev.wf(),
            self.spec_ino() < NUM_INODES,
        ensures
            r == dev@.inodes[self.spec_ino() as int].size,
    {
        dev.inode(self.ino).get_size()
    }

    pub fn get_type(&self, dev: &PmDevice) -> (r: InodeType)
        requires
            dev.wf(),
            self.spec_ino() < NUM_INODES,
        ensures
            r == dev@.inodes[self.spec_ino() as int].inode_type,
    {
        dev.inode(self.ino).get_type()
    }

    /// The whole persistent inode.
    pub fn get_inode(&self, dev: &PmDevice) -> (r: HayleyFsInode)
        requires
            dev.wf(),
            self.spec_ino() < NUM_INODES,
        ensures
            r == dev@.inodes[self.spec_ino() as int],
    {
        dev.inode(self.ino)
    }
}

impl<Type> InodeWrapper<Clean, Start, Type> {
    pub fn update_atime(self, dev: &mut PmDevice, atime: Timespec)
        requires
            old(dev).wf(),
            self.spec_ino() < NUM_INODES,
        ensures
            final(dev).wf(),
            final(dev)@ == with_inode(
                old(dev)@,
                self.spec_ino(),
                HayleyFsInode { atime, ..old(dev)@.inodes[self.spec_ino() as int] },
            ),
    {
        let mut i = dev.inode(self.ino);
        i.atime = atime;
        dev.set_inode(self.ino, i);
    }

    /// Adds a link to the inode and stamps its change time with `now`.
    /// Fails when the count is at its maximum, or when the handle has no
    /// VFS inode (after the count has been raised).
    pub fn inc_link_count(self, dev: &mut PmDevice, now: Timespec) -> (r: Result<
        InodeWrapper<Dirty, IncLink, Type>,
        Error,
    >)
        requires
            old(dev).wf(),
            self.spec_ino() < NUM_INODES,
        ensures
            final(dev).wf(),
            ({
                let old_i = old(dev)@.inodes[self.spec_ino() as int];
                match r {
                    Ok(w) => {
                        &&& old_i.link_count < MAX_LINKS
                        &&& self.has_vfs_inode()
                        &&& w.spec_ino() == self.spec_ino()
                        &&& w.has_vfs_inode()
                        &&& final(dev)@ == with_inode(
                            old(dev)@,
                            self.spec_ino(),
                            HayleyFsInode {
                                link_count: (old_i.link_count + 1) as u16,
                                ctime: now,
                                ..old_i
                            },
                        )
                    },
                    Err(e) => (e == Error::EMLINK && old_i.link_count == MAX_LINKS && final(dev)@
                        == old(dev)@) || (e == Error::EINVAL && old_i.link_count < MAX_LINKS
                        && !self.has_vfs_inode() && final(dev)@ == with_inode(
                        old(dev)@,
                        self.spec_ino(),
                        HayleyFsInode { link_count: (old_i.link_count + 1) as u16, ..old_i },
                    )),
                }
            }),
    {
        let mut i = dev.inode(self.ino);
        if i.link_count == MAX_LINKS {
            Err(Error::EMLINK)
        } else {
            i.link_count = i.link_count + 1;
            dev.set_inode(self.ino, i);
            if self.vfs_inode {
                i.ctime = now;
                dev.set_inode(self.ino, i);
                proof {
                    assert(final(dev)@.inodes =~= old(dev)@.inodes.update(self.ino as int, i));
                }
                Ok(Self::new(self))
            } else {
                Err(Error::EINVAL)
            }
        }
    }

    /// Removes a link from the inode, given the entry that named it with its
    /// inode number cleared, and stamps its change time with `now`.
    pub fn dec_link_count(self, dev: &mut PmDevice, now: Timespec, _dentry: &DentryWrapper<
        Clean,
        ClearIno,
    >) -> (r: Result<InodeWrapper<Dirty, DecLink, Type>, Error>)
        requires
            old(dev).wf(),
            self.spec_ino() < NUM_INODES,
        ensures
            final(dev).wf(),
            ({
                let old_i = old(dev)@.inodes[self.spec_ino() as int];
                match r {
                    Ok(w) => {
                        &&& old_i.link_count > 0
                        &&& self.has_vfs_inode()
                        &&& w.spec_ino() == self.spec_ino()
                        &&& w.has_vfs_inode()
                        &&& final(dev)@ == with_inode(
                            old(dev)@,
                            self.spec_ino(),
                            HayleyFsInode {
                                link_count: (old_i.link_count - 1) as u16,
                                ctime: now,
                                ..old_i
                            },
                        )
                    },
                    Err(e) => (e == Error::ENOENT && old_i.link_count == 0 && final(dev)@ == old(
                        dev,
                    )@) || (e == Error::EINVAL && old_i.link_count > 0 && !self.has_vfs_inode()
                        && final(dev)@ == with_inode(
                        old(dev)@,
                        self.spec_ino(),
                        HayleyFsInode { link_count: (old_i.link_count - 1) as u16, ..old_i },
                    )),
                }
            }),
    {
        let mut i = dev.inode(self.ino);
        if i.link_count == 0 {
            Err(Error::ENOENT)
        } else {
            i.link_count = i.link_count - 1;
            dev.set_inode(self.ino, i);
            if self.vfs_inode {
                i.ctime = now;
                dev.set_inode(self.ino, i);
                proof {
                    assert(final(dev)@.inodes =~= old(dev)@.inodes.update(self.ino as int, i));
                }
                Ok(Self::new(self))
            } else {
                Err(Error::EINVAL)
            }
        }
    }

    /// Records that `bytes_written` bytes were written at `current_offset`:
    /// stamps the change and modification times and grows the size to the
    /// end of the write if it was smaller.  Returns the new size.
    pub fn inc_size(
        self,
        dev: &mut PmDevice,
        bytes_written: u64,
        current_offset: u64,
        now: Timespec,
        _page: DataPageWrapper<Clean, Written>,
    ) -> (r: (u64, InodeWrapper<Clean, IncSize, Type>))
        requires
            old(dev).wf(),
            self.spec_ino() < NUM_INODES,
            self.has_vfs_inode(),
            bytes_written + current_offset <= u64::MAX,
        ensures
            final(dev).wf(),
            ({
                let old_i = old(dev)@.inodes[self.spec_ino() as int];
                let total = (bytes_written + current_offset) as u64;
                let size = if old_i.size < total { total } else { old_i.size };
                &&& r.0 == size
                &&& r.1.spec_ino() == self.spec_ino()
                &&& r.1.has_vfs_inode()
                &&& final(dev)@ == with_inode(
                    old(dev)@,
                    self.spec_ino(),
                    HayleyFsInode { ctime: now, mtime: now, size, ..old_i },
                )
            }),
    {
        let total_size = bytes_written + current_offset;
        let mut i = dev.inode(self.ino);
        i.ctime = now;
        i.mtime = now;
        if i.size < total_size {
            i.size = total_size;
        }
        dev.set_inode(self.ino, i);
        (i.size, Self::new(self))
    }

}

impl<Op, Type> InodeWrapper<Clean, Op, Type> {
    /// Sets the size of an inode whose contents were just written, without
    /// touching its times.
    pub fn set_size(
        self,
        dev: &mut PmDevice,
        bytes_written: u64,
        current_offset: u64,
        _page: &DataPageWrapper<Clean, Written>,
    ) -> (r: (u64, InodeWrapper<Clean, Op, Type>))
        requires
            old(dev).wf(),
            self.spec_ino() < NUM_INODES,
            bytes_written + current_offset <= u64::MAX,
        ensures
            final(dev).wf(),
            ({
                let old_i = old(dev)@.inodes[self.spec_ino() as int];
                let total = (bytes_written + current_offset) as u64;
                let size = if old_i.size < total { total } else { old_i.size };
                &&& r.0 == size
                &&& r.1.spec_ino() == self.spec_ino()
                &&& r.1.has_vfs_inode() == self.has_vfs_inode()
                &&& final(dev)@ == with_inode(old(dev)@, self.spec_ino(), HayleyFsInode { size, ..old_i })
            }),
    {
        let total_size = bytes_written + current_offset;
        let mut i = dev.inode(self.ino);
        if i.size < total_size {
            i.size = total_size;
        }
        dev.set_inode(self.ino, i);
        (i.size, Self::new(self))
    }
}

impl InodeWrapper<Clean, DecLink, RegInode> {
    /// Ends an unlink that left the file links.  When no link is left,
    /// hands back the inode to free and handles on the file's pages, in
    /// increasing offset order; a page that is not a live data page is
    /// refused.
    pub fn try_complete_unlink(self, dev: &PmDevice, info: &HayleyFsRegInodeInfo) -> (r: Result<
        Result<InodeWrapper<Clean, Complete, RegInode>, (InodeWrapper<Clean, Dealloc, RegInode>, Vec<DataPageWrapper<Clean, ToUnmap>>)>,
        Error,
    >)
        requires
            dev.wf(),
            self.spec_ino() < NUM_INODES,
            info.wf(),
            forall|k: u64| #[trigger] info.view().contains_key(k) ==> info.view()[k].page_no >= DATA_PAGE_START,
        ensures
            ({
                let links = dev@.inodes[self.spec_ino() as int].link_count;
                let pages = info.page_seq();
                match r {
                    Ok(Ok(w)) => links > 0 && w.spec_ino() == self.spec_ino() && w.has_vfs_inode() == self.has_vfs_inode(),
                    Ok(Err((w, v))) => {
                        &&& links == 0
                        &&& w.spec_ino() == self.spec_ino()
                        &&& w.has_vfs_inode() == self.has_vfs_inode()
                        &&& v@.len() == pages.len()
                        &&& forall|i: int|
                            #![trigger v@[i]]
                            0 <= i < pages.len() ==> v@[i].spec_page_no() == pages[i].page_no
                        &&& forall|i: int|
                            0 <= i < pages.len() ==> #[trigger] data_page_readable(dev@, pages[i].page_no as int)
                    },
                    Err(e) => links == 0 && exists|i: int|
                        0 <= i < pages.len() && !data_page_readable(dev@, #[trigger] pages[i].page_no as int),
                }
            }),
    {
        let links = dev.inode(self.ino).get_link_count();
        if links > 0 {
            let w: InodeWrapper<Clean, Complete, RegInode> = Self::new(self);
            proof {
                assert(dev@.inodes[self.spec_ino() as int].link_count > 0);
            }
            Ok(Ok(w))
        } else {
            let pages = info.get_all_pages()?;
            let vals = pages.values();
            proof {
                info.lemma_pages();
                assert forall|i: int| 0 <= i < vals@.len() implies #[trigger] vals@[i].page_no >= DATA_PAGE_START by {
                    assert(info.view()[info.offset_seq()[i]] == info.page_seq()[i]);
                    assert(info.view().contains_key(info.offset_seq()[i])) by {
                        assert(info.offset_seq().to_set().contains(info.offset_seq()[i]));
                    }
                }
            }
            let mut unmap_vec: Vec<DataPageWrapper<Clean, ToUnmap>> = Vec::new();
            let mut i: usize = 0;
            while i < vals.len()
                invariant
                    dev.wf(),
                    self.spec_ino() < NUM_INODES,
                    dev@.inodes[self.spec_ino() as int].link_count == 0,
                    vals@ == info.page_seq(),
                    forall|j: int| 0 <= j < vals@.len() ==> #[trigger] vals@[j].page_no >= DATA_PAGE_START,
                    i <= vals@.len(),
                    unmap_vec@.len() == i,
                    forall|j: int| 0 <= j < i ==> #[trigger] unmap_vec@[j].spec_page_no() == vals@[j].page_no
                        && data_page_readable(dev@, vals@[j].page_no as int),
                decreases vals@.len() - i,
            {
                let pinfo = vals[i];
                let p = match DataPageWrapper::mark_to_unmap(dev, pinfo) {
                    Ok(p) => p,
                    Err(e) => {
                        proof {
                            assert(!data_page_readable(dev@, info.page_seq()[i as int].page_no as int));
                        }
                        return Err(e);
                    },
                };
                let ghost before = unmap_vec@;
                proof {
                    assert(p.spec_page_no() == pinfo.page_no);
                    assert(pinfo == vals@[i as int]);
                }
                unmap_vec.push(p);
                i = i + 1;
                proof {
                    assert forall|j: int| 0 <= j < i implies #[trigger] unmap_vec@[j].spec_page_no() == vals@[j].page_no
                        && data_page_readable(dev@, vals@[j].page_no as int) by {
                        if j < i - 1 {
                            assert(unmap_vec@[j] == before[j]);
                            assert(before[j].spec_page_no() == vals@[j].page_no);
                        } else {
                            assert(unmap_vec@[j] == p);
                        }
                    }
                }
            }
            proof {
                assert forall|j: int|
                    #![trigger unmap_vec@[j]]
                    0 <= j < info.page_seq().len() implies unmap_vec@[j].spec_page_no()
                    == info.page_seq()[j].page_no && data_page_readable(dev@, info.page_seq()[j].page_no as int) by {
                    assert(vals@[j] == info.page_seq()[j]);
                }
            }
            let w: InodeWrapper<Clean, Dealloc, RegInode> = Self::new(self);
            let r: Result<
                Result<InodeWrapper<Clean, Complete, RegInode>, (InodeWrapper<Clean, Dealloc, RegInode>, Vec<DataPageWrapper<Clean, ToUnmap>>)>,
                Error,
            > = Ok(Err((w, unmap_vec)));
            proof {
                assert(r matches Ok(Err((w2, v2))) && v2@ == unmap_vec@);
                assert forall|i: int| 0 <= i < info.page_seq().len() implies #[trigger] data_page_readable(dev@, info.page_seq()[i].page_no as int) by {
                    assert(unmap_vec@[i].spec_page_no() == info.page_seq()[i].page_no);
                }
                assert(r matches Ok(Err((w2, v2))) && forall|i: int|
                            #![trigger v2@[i]]
                            0 <= i < info.page_seq().len() ==> v2@[i].spec_page_no() == info.page_seq()[i].page_no
                                && data_page_readable(dev@, info.page_seq()[i].page_no as int));
                assert(dev@.inodes[self.spec_ino() as int].link_count == 0);
                assert(w.spec_ino() == self.spec_ino());
                assert(w.has_vfs_inode() == self.has_vfs_inode());
            }
            r
        }
    }
}

impl InodeWrapper<Clean, Dealloc, RegInode> {
    /// Clears every field of an inode whose last link and pages are gone.
    pub fn dealloc(self, dev: &mut PmDevice, _freed_pages: Vec<DataPageWrapper<Clean, Free>>) -> (r:
        InodeWrapper<Dirty, Complete, RegInode>)
        requires
            old(dev).wf(),
            self.spec_ino() < NUM_INODES,
            old(dev)@.inodes[self.spec_ino() as int].link_count == 0,
        ensures
            final(dev).wf(),
            final(dev)@ == with_inode(old(dev)@, self.spec_ino(), zero_inode_spec()),
            r.spec_ino() == self.spec_ino(),
            r.has_vfs_inode() == self.has_vfs_inode(),
    {
        dev.set_inode(self.ino, HayleyFsInode::zeroed());
        Self::new(self)
    }
}

impl InodeWrapper<Clean, Start, DirInode> {
    /// Moves a directory whose entries are all gone on to having its pages
    /// taken apart and being freed.
    pub fn set_unmap_page_state(self) -> (r: InodeWrapper<Clean, Dealloc, DirInode>)
        ensures
            r.spec_ino() == self.spec_ino(),
            r.has_vfs_inode() == self.has_vfs_inode(),
    {
        Self::new(self)
    }
}

impl InodeWrapper<Clean, Dealloc, DirInode> {
    /// Clears every field of a directory inode that has been emptied.
    pub fn dealloc_dir(self, dev: &mut PmDevice) -> (r: InodeWrapper<Dirty, Complete, DirInode>)
        requires
            old(dev).wf(),
            self.spec_ino() < NUM_INODES,
        ensures
            final(dev).wf(),
            final(dev)@ == with_inode(old(dev)@, self.spec_ino(), zero_inode_spec()),
            r.spec_ino() == self.spec_ino(),
            r.has_vfs_inode() == self.has_vfs_inode(),
    {
        dev.set_inode(self.ino, HayleyFsInode::zeroed());
        Self::new(self)
    }
}

/// Looks up the slot of inode `ino`, refusing inode 0 and numbers past the
/// table.
pub fn get_inode_by_ino(dev: &PmDevice, ino: InodeNum) -> (r: Result<HayleyFsInode, Error>)
    requires
        dev.wf(),
    ensures
        (match r {
            Ok(i) => 0 < ino < NUM_INODES && i == dev@.inodes[ino as int],
            Err(e) => e == Error::EINVAL && (ino >= NUM_INODES || ino == 0),
        }),
{
    if ino >= NUM_INODES || ino == 0 {
        return Err(Error::EINVAL);
    }
    Ok(dev.inode(ino))
}

/// The inode is a live inode of the given type.
pub open spec fn init_inode_of_type(v: PmView, ino: InodeNum, t: InodeType) -> bool {
    &&& 0 < ino < NUM_INODES
    &&& v.inodes[ino as int].inode_type == t
    &&& inode_initialized(v.inodes[ino as int])
}

/// A handle on live inode `ino` of type `t`; refuses out-of-range numbers,
/// inodes of another type and uninitialized inodes.
fn get_init_inode_by_ino<Type>(dev: &PmDevice, ino: InodeNum, t: InodeType) -> (r: Result<
    InodeWrapper<Clean, Start, Type>,
    Error,
>)
    requires
        dev.wf(),
    ensures
        (match r {
            Ok(w) => init_inode_of_type(dev@, ino, t) && w.spec_ino() == ino && w.has_vfs_inode(),
            Err(e) => !init_inode_of_type(dev@, ino, t) && (if ino >= NUM_INODES || ino == 0 {
                e == Error::EINVAL
            } else {
                e == Error::EPERM
            }),
        }),
{
    let raw_inode = get_inode_by_ino(dev, ino)?;
    if raw_inode.get_type() != t {
        return Err(Error::EPERM);
    }
    if raw_inode.is_initialized() {
        Ok(InodeWrapper::wrap_inode(ino))
    } else {
        Err(Error::EPERM)
    }
}

impl InodeWrapper<Clean, Start, RegInode> {
    /// A handle on live regular file `ino`.
    pub fn get_init_reg_inode_by_ino(dev: &PmDevice, ino: InodeNum) -> (r: Result<Self, Error>)
        requires
            dev.wf(),
        ensures
            (match r {
                Ok(w) => init_inode_of_type(dev@, ino, InodeType::REG) && w.spec_ino() == ino
                    && w.has_vfs_inode(),
                Err(e) => !init_inode_of_type(dev@, ino, InodeType::REG) && (if ino >= NUM_INODES
                    || ino == 0 {
                    e == Error::EINVAL
                } else {
                    e == Error::EPERM
                }),
            }),
    {
        get_init_inode_by_ino(dev, ino, InodeType::REG)
    }

    /// A handle on live symbolic link `ino`.
    pub fn get_init_symlink_inode_by_ino(dev: &PmDevice, ino: InodeNum) -> (r: Result<Self, Error>)
        requires
            dev.wf(),
        ensures
            (match r {
                Ok(w) => init_inode_of_type(dev@, ino, InodeType::SYMLINK) && w.spec_ino() == ino
                    && w.has_vfs_inode(),
                Err(e) => !init_inode_of_type(dev@, ino, InodeType::SYMLINK) && (if ino
                    >= NUM_INODES || ino == 0 {
                    e == Error::EINVAL
                } else {
                    e == Error::EPERM
                }),
            }),
    {
        get_init_inode_by_ino(dev, ino, InodeType::SYMLINK)
    }
}

impl InodeWrapper<Clean, Start, DirInode> {
    /// A handle on live directory `ino`.
    pub fn get_init_dir_inode_by_ino(dev: &PmDevice, ino: InodeNum) -> (r: Result<Self, Error>)
        requires
            dev.wf(),
        ensures
            (match r {
                Ok(w) => init_inode_of_type(dev@, ino, InodeType::DIR) && w.spec_ino() == ino
                    && w.has_vfs_inode(),
                Err(e) => !init_inode_of_type(dev@, ino, InodeType::DIR) && (if ino >= NUM_INODES
                    || ino == 0 {
                    e == Error::EINVAL
                } else {
                    e == Error::EPERM
                }),
            }),
    {
        get_init_inode_by_ino(dev, ino, InodeType::DIR)
    }
}

/// A handle on free inode slot `ino`; refuses out-of-range numbers and
/// slots that are not entirely zero.
fn get_free_inode_by_ino<Type>(dev: &PmDevice, ino: InodeNum) -> (r: Result<
    InodeWrapper<Clean, Free, Type>,
    Error,
>)
    requires
        dev.wf(),
    ensures
        (match r {
            Ok(w) => 0 < ino < NUM_INODES && inode_free(dev@.inodes[ino as int]) && w.spec_ino()
                == ino && !w.has_vfs_inode(),
            Err(e) => if ino >= NUM_INODES || ino == 0 {
                e == Error::EINVAL
            } else {
                e == Error::EPERM && !inode_free(dev@.inodes[ino as int])
            },
        }),
{
    let raw_inode = get_inode_by_ino(dev, ino)?;
    if raw_inode.is_free() {
        Ok(InodeWrapper {
            state: PhantomData,
            op: PhantomData,
            inode_type: PhantomData,
            ino,
            vfs_inode: false,
        })
    } else {
        Err(Error::EPERM)
    }
}

/// A new inode is owned by the caller and stamped with the time given: a
/// new directory has owner `uid`, group `gid`, mode `mode` with the
/// directory bit set, two links and all three times `now`; a new file or
/// link has owner `uid`, group `gid`, mode `mode`, one link and all three
/// times `now`; both start empty.
pub proof fn lemma_new_inode_fields(ino: InodeNum, mode: u16, uid: u32, gid: u32, now: Timespec, t: InodeType)
    ensures
        new_dir_inode(ino, mode, uid, gid, now).uid == uid,
        new_dir_inode(ino, mode, uid, gid, now).gid == gid,
        new_dir_inode(ino, mode, uid, gid, now).mode == mode | S_IFDIR,
        new_dir_inode(ino, mode, uid, gid, now).link_count == 2,
        new_dir_inode(ino, mode, uid, gid, now).inode_type == InodeType::DIR,
        new_dir_inode(ino, mode, uid, gid, now).atime == now,
        new_dir_inode(ino, mode, uid, gid, now).ctime == now,
        new_dir_inode(ino, mode, uid, gid, now).mtime == now,
        new_dir_inode(ino, mode, uid, gid, now).size == 0,
        new_dir_inode(ino, mode, uid, gid, now).blocks == 0,
        new_dir_inode(ino, mode, uid, gid, now).ino == ino,
        new_file_inode(ino, mode, uid, gid, now, t).uid == uid,
        new_file_inode(ino, mode, uid, gid, now, t).gid == gid,
        new_file_inode(ino, mode, uid, gid, now, t).mode == mode,
        new_file_inode(ino, mode, uid, gid, now, t).link_count == 1,
        new_file_inode(ino, mode, uid, gid, now, t).inode_type == t,
        new_file_inode(ino, mode, uid, gid, now, t).atime == now,
        new_file_inode(ino, mode, uid, gid, now, t).ctime == now,
        new_file_inode(ino, mode, uid, gid, now, t).mtime == now,
        new_file_inode(ino, mode, uid, gid, now, t).size == 0,
        new_file_inode(ino, mode, uid, gid, now, t).blocks == 0,
        new_file_inode(ino, mode, uid, gid, now, t).ino == ino,
{
}

/// A new regular file inode.
pub open spec fn new_file_inode(ino: InodeNum, mode: u16, uid: u32, gid: u32, now: Timespec, t: InodeType) -> HayleyFsInode {
    HayleyFsInode {
        inode_type: t,
        link_count: 1,
        mode,
        uid,
        gid,
        ctime: now,
        atime: now,
        mtime: now,
        blocks: 0,
        size: 0,
        ino,
    }
}

/// A new directory inode.
pub open spec fn new_dir_inode(ino: InodeNum, mode: u16, uid: u32, gid: u32, now: Timespec) -> HayleyFsInode {
    HayleyFsInode {
        inode_type: InodeType::DIR,
        link_count: 2,
        mode: mode | S_IFDIR,
        uid,
        gid,
        ctime: now,
        atime: now,
        mtime: now,
        blocks: 0,
        size: 0,
        ino,
    }
}

impl InodeWrapper<Clean, Free, RegInode> {
    /// A handle on free inode slot `ino`, to become a file.
    pub fn get_free_reg_inode_by_ino(dev: &PmDevice, ino: InodeNum) -> (r: Result<Self, Error>)
        requires
            dev.wf(),
        ensures
            (match r {
                Ok(w) => 0 < ino < NUM_INODES && inode_free(dev@.inodes[ino as int]) && w.spec_ino()
                    == ino && !w.has_vfs_inode(),
                Err(e) => if ino >= NUM_INODES || ino == 0 {
                    e == Error::EINVAL
                } else {
                    e == Error::EPERM && !inode_free(dev@.inodes[ino as int])
                },
            }),
    {
        get_free_inode_by_ino(dev, ino)
    }

    /// Fills the slot with a new file of one link, owned by `uid`/`gid`,
    /// with all times `now`.
    pub fn allocate_file_inode(self, dev: &mut PmDevice, mode: u16, uid: u32, gid: u32, now: Timespec) -> (r:
        Result<InodeWrapper<Dirty, Alloc, RegInode>, Error>)
        requires
            old(dev).wf(),
            self.spec_ino() < NUM_INODES,
        ensures
            final(dev).wf(),
            r matches Ok(w) && w.spec_ino() == self.spec_ino() && w.has_vfs_inode() == self.has_vfs_inode(),
            final(dev)@ == with_inode(
                old(dev)@,
                self.spec_ino(),
                new_file_inode(self.spec_ino(), mode, uid, gid, now, InodeType::REG),
            ),
            final(dev)@.inodes[self.spec_ino() as int].uid == uid,
            final(dev)@.inodes[self.spec_ino() as int].gid == gid,
            final(dev)@.inodes[self.spec_ino() as int].mode == mode,
            final(dev)@.inodes[self.spec_ino() as int].link_count == 1,
    {
        let i = HayleyFsInode {
            inode_type: InodeType::REG,
            link_count: 1,
            mode,
            uid,
            gid,
            ctime: now,
            atime: now,
            mtime: now,
            blocks: 0,
            size: 0,
            ino: self.ino,
        };
        dev.set_inode(self.ino, i);
        Ok(Self::new(self))
    }

    /// Fills the slot with a new symbolic link of one link.
    pub fn allocate_symlink_inode(self, dev: &mut PmDevice, mode: u16, uid: u32, gid: u32, now: Timespec) -> (r:
        Result<InodeWrapper<Dirty, Alloc, RegInode>, Error>)
        requires
            old(dev).wf(),
            self.spec_ino() < NUM_INODES,
        ensures
            final(dev).wf(),
            r matches Ok(w) && w.spec_ino() == self.spec_ino() && w.has_vfs_inode() == self.has_vfs_inode(),
            final(dev)@ == with_inode(
                old(dev)@,
                self.spec_ino(),
                new_file_inode(self.spec_ino(), mode, uid, gid, now, InodeType::SYMLINK),
            ),
            final(dev)@.inodes[self.spec_ino() as int].uid == uid,
            final(dev)@.inodes[self.spec_ino() as int].gid == gid,
            final(dev)@.inodes[self.spec_ino() as int].mode == mode,
            final(dev)@.inodes[self.spec_ino() as int].link_count == 1,
    {
        let i = HayleyFsInode {
            inode_type: InodeType::SYMLINK,
            link_count: 1,
            mode,
            uid,
            gid,
            ctime: now,
            atime: now,
            mtime: now,
            blocks: 0,
            size: 0,
            ino: self.ino,
        };
        dev.set_inode(self.ino, i);
        Ok(Self::new(self))
    }
}

impl InodeWrapper<Clean, Free, DirInode> {
    /// A handle on free inode slot `ino`, to become a directory.
    pub fn get_free_dir_inode_by_ino(dev: &PmDevice, ino: InodeNum) -> (r: Result<Self, Error>)
        requires
            dev.wf(),
        ensures
            (match r {
                Ok(w) => 0 < ino < NUM_INODES && inode_free(dev@.inodes[ino as int]) && w.spec_ino()
                    == ino && !w.has_vfs_inode(),
                Err(e) => if ino >= NUM_INODES || ino == 0 {
                    e == Error::EINVAL
                } else {
                    e == Error::EPERM && !inode_free(dev@.inodes[ino as int])
                },
            }),
    {
        get_free_inode_by_ino(dev, ino)
    }

    /// Fills the slot with a new directory of two links.
    pub fn allocate_dir_inode(self, dev: &mut PmDevice, mode: u16, uid: u32, gid: u32, now: Timespec) -> (r:
        Result<InodeWrapper<Dirty, Alloc, DirInode>, Error>)
        requires
            old(dev).wf(),
            self.spec_ino() < NUM_INODES,
        ensures
            final(dev).wf(),
            r matches Ok(w) && w.spec_ino() == self.spec_ino() && w.has_vfs_inode() == self.has_vfs_inode(),
            final(dev)@ == with_inode(
                old(dev)@,
                self.spec_ino(),
                new_dir_inode(self.spec_ino(), mode, uid, gid, now),
            ),
            final(dev)@.inodes[self.spec_ino() as int].uid == uid,
            final(dev)@.inodes[self.spec_ino() as int].gid == gid,
            final(dev)@.inodes[self.spec_ino() as int].mode == mode | S_IFDIR,
            final(dev)@.inodes[self.spec_ino() as int].link_count == 2,
    {
        let i = HayleyFsInode {
            inode_type: InodeType::DIR,
            link_count: 2,
            mode: mode | S_IFDIR,
            uid,
            gid,
            ctime: now,
            atime: now,
            mtime: now,
            blocks: 0,
            size: 0,
            ino: self.ino,
        };
        dev.set_inode(self.ino, i);
        Ok(Self::new(self))
    }
}

impl<Op, Type> InodeWrapper<Dirty, Op, Type> {
    /// Writes the inode back from the cache.
    pub fn flush(self) -> (r: InodeWrapper<InFlight, Op, Type>)
        ensures
            r.spec_ino() == self.spec_ino(),
            r.has_vfs_inode() == self.has_vfs_inode(),
    {
        Self::new(self)
    }
}

impl<Op, Type> InodeWrapper<InFlight, Op, Type> {
    /// Orders the flush before later stores.
    pub fn fence(self) -> (r: InodeWrapper<Clean, Op, Type>)
        ensures
            r.spec_ino() == self.spec_ino(),
            r.has_vfs_inode() == self.has_vfs_inode(),
    {
        Self::new(self)
    }
}

} // verus!
