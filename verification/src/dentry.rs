//! Typed handles on persistent directory entries.
//!
//! An entry is allocated by giving it a name, made live by setting its
//! inode number, killed by clearing the inode number and freed by clearing
//! its name.  A rename points the new entry back at the old one, copies
//! the inode number across, clears the old entry and then drops the back
//! pointer.
use crate::defs::{Error, FileName, InodeNum, DATA_PAGE_START, DENTRIES_PER_PAGE, MAX_FILENAME_LEN};
use crate::inode::InodeWrapper;
use crate::page::{dir_page_readable, DirPageWrapper};
use crate::pm::{dentry_free, DentryLoc, HayleyFsDentry, PmDevice, PmView};
use crate::typestate::{Alloc, AddLink, AddPage, Clean, ClearIno, Complete, Dealloc, DecLink, DeletableDentry, DirInode, Dirty, Free, IncLink, IncSize, InFlight, Init, InitRenamePointer, Initialized, RegInode, Renamed, Renaming, SetRenamePointer, Start, ToUnmap, Writeable, Written};
use crate::volatile::{DentryInfo, HayleyFsDirInodeInfo};
use core::marker::PhantomData;
use vstd::prelude::*;

verus! {

/// The device with the entry at `loc` replaced by `d`.
pub open spec fn with_dentry(v: PmView, loc: DentryLoc, d: HayleyFsDentry) -> PmView {
    PmView {
        dirs: v.dirs.update(
            loc.page_no - DATA_PAGE_START,
            v.dirs[loc.page_no - DATA_PAGE_START].update(loc.slot as int, d),
        ),
        ..v
    }
}

/// `old` with the first `len` bytes replaced by those of `name`.
pub open spec fn name_over(old: FileName, name: Seq<u8>) -> Seq<u8> {
    Seq::new(MAX_FILENAME_LEN as nat, |i: int| if i < name.len() { name[i] } else { old.bytes@[i] })
}

/// Writing a name over a stored one puts the name's bytes, unchanged, at
/// its start and leaves the bytes after it as they were.
pub proof fn lemma_name_over_kept(old: FileName, name: Seq<u8>)
    requires
        name.len() <= MAX_FILENAME_LEN,
    ensures
        name_over(old, name).len() == MAX_FILENAME_LEN,
        forall|i: int| 0 <= i < name.len() ==> #[trigger] name_over(old, name)[i] == name[i],
        forall|i: int| name.len() <= i < MAX_FILENAME_LEN ==> #[trigger] name_over(old, name)[i] == old.bytes@[i],
{
}

/// Every entry of page `page_no` is free.
pub open spec fn dir_page_all_free(v: PmView, page_no: int) -> bool {
    forall|s: int| 0 <= s < DENTRIES_PER_PAGE ==> #[trigger] dentry_free(v.dir(page_no)[s])
}

pub struct DentryWrapper<State, Op> {
    state: PhantomData<State>,
    op: PhantomData<Op>,
    loc: DentryLoc,
}

impl<State, Op> DentryWrapper<State, Op> {
    pub closed spec fn spec_loc(&self) -> DentryLoc {
        self.loc
    }

    pub fn get_loc(&self) -> (r: DentryLoc)
        ensures
            r == self.spec_loc(),
    {
        self.loc
    }

    fn to<NewState, NewOp>(self) -> (r: DentryWrapper<NewState, NewOp>)
        ensures
            r.spec_loc() == self.spec_loc(),
    {
        DentryWrapper { state: PhantomData, op: PhantomData, loc: self.loc }
    }

    /// The stored name.
    pub fn get_name(&self, dev: &PmDevice) -> (r: FileName)
        requires
            dev.wf(),
            dev@.valid_loc(self.spec_loc()),
        ensures
            r == dev@.dentry(self.spec_loc()).name,
    {
        dev.dentry_at(dev.page_index(self.loc.page_no), self.loc.slot).name
    }

    /// The index entry for this entry.
    pub fn get_dentry_info(&self, dev: &PmDevice) -> (r: DentryInfo)
        requires
            dev.wf(),
            dev@.valid_loc(self.spec_loc()),
        ensures
            r == (DentryInfo {
                ino: dev@.dentry(self.spec_loc()).ino,
                loc: self.spec_loc(),
                name: dev@.dentry(self.spec_loc()).name,
            }),
    {
        let d = dev.dentry_at(dev.page_index(self.loc.page_no), self.loc.slot);
        DentryInfo::new(d.ino, self.loc, d.name)
    }
}

/// Replaces the entry at `loc`.
fn store(dev: &mut PmDevice, loc: DentryLoc, d: HayleyFsDentry)
    requires
        old(dev).wf(),
        old(dev)@.valid_loc(loc),
    ensures
        final(dev).wf(),
        final(dev)@ == with_dentry(old(dev)@, loc, d),
{
    let idx = dev.page_index(loc.page_no);
    dev.set_dentry(idx, loc.slot, d);
}

/// Reads the entry at `loc`.
fn load(dev: &PmDevice, loc: DentryLoc) -> (r: HayleyFsDentry)
    requires
        dev.wf(),
        dev@.valid_loc(loc),
    ensures
        r == dev@.dentry(loc),
{
    dev.dentry_at(dev.page_index(loc.page_no), loc.slot)
}

impl DentryWrapper<Clean, Free> {
    /// A handle on the entry at `loc`, which is free.
    pub(crate) fn wrap_free_dentry(loc: DentryLoc) -> (r: Self)
        ensures
            r.spec_loc() == loc,
    {
        DentryWrapper { state: PhantomData, op: PhantomData, loc }
    }

    /// Copies `name` into the entry; names longer than the name field are
    /// refused.
    pub fn set_name(self, dev: &mut PmDevice, name: &[u8]) -> (r: Result<DentryWrapper<Dirty, Alloc>, Error>)
        requires
            old(dev).wf(),
            old(dev)@.valid_loc(self.spec_loc()),
        ensures
            final(dev).wf(),
            (match r {
                Ok(w) => {
                    let d = old(dev)@.dentry(self.spec_loc());
                    &&& name@.len() <= MAX_FILENAME_LEN
                    &&& w.spec_loc() == self.spec_loc()
                    &&& final(dev)@.dentry(self.spec_loc()).name.bytes@ == name_over(d.name, name@)
                    &&& forall|i: int| 0 <= i < name@.len() ==> #[trigger] final(dev)@.dentry(self.spec_loc()).name.bytes@[i] == name@[i]
                    &&& final(dev)@ == with_dentry(
                        old(dev)@,
                        self.spec_loc(),
                        HayleyFsDentry { name: final(dev)@.dentry(self.spec_loc()).name, ..d },
                    )
                },
                Err(e) => e == Error::ENAMETOOLONG && name@.len() > MAX_FILENAME_LEN && final(dev)@
                    == old(dev)@,
            }),
    {
        if name.len() > MAX_FILENAME_LEN {
            return Err(Error::ENAMETOOLONG);
        }
        let mut d = load(dev, self.loc);
        let ghost od = d;
        let ghost old_name = d.name;
        let mut i: usize = 0;
        while i < name.len()
            invariant
                name@.len() <= MAX_FILENAME_LEN,
                i <= name@.len(),
                d.name.bytes@.len() == MAX_FILENAME_LEN,
                d.ino == od.ino,
                d.rename_ptr == od.rename_ptr,
                forall|j: int| 0 <= j < i ==> #[trigger] d.name.bytes@[j] == name@[j],
                forall|j: int| i <= j < MAX_FILENAME_LEN ==> #[trigger] d.name.bytes@[j] == old_name.bytes@[j],
            decreases name@.len() - i,
        {
            d.name.bytes[i] = name[i];
            i = i + 1;
        }
        proof {
            assert(d.name.bytes@ =~= name_over(old_name, name@));
            assert(d == HayleyFsDentry { name: d.name, ..od });
        }
        store(dev, self.loc, d);
        proof {
            assert(final(dev)@.dentry(self.loc) == d);
        }
        Ok(self.to())
    }
}

impl DentryWrapper<Clean, Alloc> {
    /// Makes the entry name file `inode`, which has just been created or
    /// just gained a link.
    pub fn set_file_ino<State: AddLink>(self, dev: &mut PmDevice, inode: InodeWrapper<Clean, State, RegInode>) -> (r: (
        DentryWrapper<Dirty, Complete>,
        InodeWrapper<Clean, Complete, RegInode>,
    ))
        requires
            old(dev).wf(),
            old(dev)@.valid_loc(self.spec_loc()),
        ensures
            final(dev).wf(),
            r.0.spec_loc() == self.spec_loc(),
            r.1.spec_ino() == inode.spec_ino(),
            r.1.has_vfs_inode() == inode.has_vfs_inode(),
            final(dev)@ == with_dentry(
                old(dev)@,
                self.spec_loc(),
                HayleyFsDentry { ino: inode.spec_ino(), ..old(dev)@.dentry(self.spec_loc()) },
            ),
    {
        let mut d = load(dev, self.loc);
        d.ino = inode.get_ino();
        store(dev, self.loc, d);
        (self.to(), InodeWrapper::new(inode))
    }

    /// Makes the entry name new directory `new_inode`, whose parent has
    /// just gained a link.
    pub fn set_dir_ino(
        self,
        dev: &mut PmDevice,
        new_inode: InodeWrapper<Clean, Alloc, DirInode>,
        parent_inode: InodeWrapper<Clean, IncLink, DirInode>,
    ) -> (r: (
        DentryWrapper<Dirty, Complete>,
        InodeWrapper<Clean, Complete, DirInode>,
        InodeWrapper<Clean, Complete, DirInode>,
    ))
        requires
            old(dev).wf(),
            old(dev)@.valid_loc(self.spec_loc()),
        ensures
            final(dev).wf(),
            r.0.spec_loc() == self.spec_loc(),
            r.1.spec_ino() == new_inode.spec_ino(),
            r.2.spec_ino() == parent_inode.spec_ino(),
            r.1.has_vfs_inode() == new_inode.has_vfs_inode(),
            r.2.has_vfs_inode() == parent_inode.has_vfs_inode(),
            final(dev)@ == with_dentry(
                old(dev)@,
                self.spec_loc(),
                HayleyFsDentry { ino: new_inode.spec_ino(), ..old(dev)@.dentry(self.spec_loc()) },
            ),
    {
        let mut d = load(dev, self.loc);
        d.ino = new_inode.get_ino();
        store(dev, self.loc, d);
        (self.to(), InodeWrapper::new(new_inode), InodeWrapper::new(parent_inode))
    }
}

impl<Op> DentryWrapper<Clean, Op> {
    /// The inode number the entry holds.
    pub fn get_ino(&self, dev: &PmDevice) -> (r: InodeNum)
        requires
            dev.wf(),
            dev@.valid_loc(self.spec_loc()),
        ensures
            r == dev@.dentry(self.spec_loc()).ino,
    {
        load(dev, self.loc).ino
    }
}

impl DentryWrapper<Clean, Start> {
    /// A handle on the live entry the index entry `info` points at.
    pub fn get_init_dentry(dev: &PmDevice, info: DentryInfo) -> (r: Result<Self, Error>)
        requires
            dev.wf(),
            dev@.valid_loc(info.loc),
        ensures
            (match r {
                Ok(w) => w.spec_loc() == info.loc && dev@.dentry(info.loc).ino != 0,
                Err(e) => e == Error::EPERM && dev@.dentry(info.loc).ino == 0,
            }),
    {
        let d = load(dev, info.get_loc());
        if d.ino == 0 {
            return Err(Error::EPERM);
        }
        Ok(DentryWrapper { state: PhantomData, op: PhantomData, loc: info.loc })
    }

    /// Points this entry, about to take over from `src`, back at `src`.
    pub fn set_rename_pointer(self, dev: &mut PmDevice, src: DentryWrapper<Clean, Start>) -> (r: (
        DentryWrapper<Dirty, SetRenamePointer>,
        DentryWrapper<Clean, Renaming>,
    ))
        requires
            old(dev).wf(),
            old(dev)@.valid_loc(self.spec_loc()),
        ensures
            final(dev).wf(),
            r.0.spec_loc() == self.spec_loc(),
            r.1.spec_loc() == src.spec_loc(),
            final(dev)@ == with_dentry(
                old(dev)@,
                self.spec_loc(),
                HayleyFsDentry { rename_ptr: Some(src.spec_loc()), ..old(dev)@.dentry(self.spec_loc()) },
            ),
    {
        let mut d = load(dev, self.loc);
        d.rename_ptr = Some(src.loc);
        store(dev, self.loc, d);
        (self.to(), src.to())
    }
}

impl DentryWrapper<Clean, SetRenamePointer> {
    /// Copies the inode number of `src` into this entry; the directory the
    /// entry lives in is `_parent`, which is live.
    pub fn init_rename_pointer(self, dev: &mut PmDevice, src: DentryWrapper<Clean, Renaming>, _parent: &InodeWrapper<
        Clean,
        Start,
        DirInode,
    >) -> (r: (DentryWrapper<Dirty, InitRenamePointer>, DentryWrapper<Clean, Renamed>))
        requires
            old(dev).wf(),
            old(dev)@.valid_loc(self.spec_loc()),
            old(dev)@.valid_loc(src.spec_loc()),
        ensures
            final(dev).wf(),
            r.0.spec_loc() == self.spec_loc(),
            r.1.spec_loc() == src.spec_loc(),
            final(dev)@ == with_dentry(
                old(dev)@,
                self.spec_loc(),
                HayleyFsDentry { ino: old(dev)@.dentry(src.spec_loc()).ino, ..old(dev)@.dentry(self.spec_loc()) },
            ),
    {
        let s = load(dev, src.loc);
        let mut d = load(dev, self.loc);
        d.ino = s.ino;
        store(dev, self.loc, d);
        (self.to(), src.to())
    }
}

impl DentryWrapper<Clean, InitRenamePointer> {
    /// Drops the back pointer once the old entry `_src` no longer names
    /// the inode.
    pub fn clear_rename_pointer(self, dev: &mut PmDevice, _src: &DentryWrapper<Clean, ClearIno>) -> (r:
        DentryWrapper<Dirty, Complete>)
        requires
            old(dev).wf(),
            old(dev)@.valid_loc(self.spec_loc()),
        ensures
            final(dev).wf(),
            r.spec_loc() == self.spec_loc(),
            final(dev)@ == with_dentry(
                old(dev)@,
                self.spec_loc(),
                HayleyFsDentry { rename_ptr: None, ..old(dev)@.dentry(self.spec_loc()) },
            ),
    {
        let mut d = load(dev, self.loc);
        d.rename_ptr = None;
        store(dev, self.loc, d);
        self.to()
    }
}

impl<Op: DeletableDentry> DentryWrapper<Clean, Op> {
    /// Clears the entry's inode number, so that it no longer names a file.
    pub fn clear_ino(self, dev: &mut PmDevice) -> (r: DentryWrapper<Dirty, ClearIno>)
        requires
            old(dev).wf(),
            old(dev)@.valid_loc(self.spec_loc()),
        ensures
            final(dev).wf(),
            r.spec_loc() == self.spec_loc(),
            final(dev)@ == with_dentry(
                old(dev)@,
                self.spec_loc(),
                HayleyFsDentry { ino: 0, ..old(dev)@.dentry(self.spec_loc()) },
            ),
    {
        let mut d = load(dev, self.loc);
        d.ino = 0;
        store(dev, self.loc, d);
        self.to()
    }
}

impl DentryWrapper<Clean, ClearIno> {
    /// Clears the entry's name, freeing the slot.
    pub fn dealloc_dentry(self, dev: &mut PmDevice) -> (r: DentryWrapper<Dirty, Free>)
        requires
            old(dev).wf(),
            old(dev)@.valid_loc(self.spec_loc()),
        ensures
            final(dev).wf(),
            r.spec_loc() == self.spec_loc(),
            final(dev)@ == with_dentry(
                old(dev)@,
                self.spec_loc(),
                HayleyFsDentry { name: final(dev)@.dentry(self.spec_loc()).name, ..old(dev)@.dentry(self.spec_loc()) },
            ),
            crate::pm::name_is_empty(final(dev)@.dentry(self.spec_loc()).name),
    {
        let mut d = load(dev, self.loc);
        d.name = FileName::empty();
        store(dev, self.loc, d);
        self.to()
    }
}

impl DentryWrapper<Clean, Free> {
    /// A handle on the entry's page for freeing, when every entry of the
    /// page is now free.
    pub fn try_dealloc_parent_page(&self, dev: &PmDevice) -> (r: Result<DirPageWrapper<Clean, ToUnmap>, Error>)
        requires
            dev.wf(),
            dev@.valid_loc(self.spec_loc()),
        ensures
            (match r {
                Ok(p) => p.spec_page_no() == self.spec_loc().page_no && dir_page_all_free(
                    dev@,
                    self.spec_loc().page_no as int,
                ) && dir_page_readable(dev@, self.spec_loc().page_no as int),
                Err(_) => !dir_page_all_free(dev@, self.spec_loc().page_no as int) || !dir_page_readable(
                    dev@,
                    self.spec_loc().page_no as int,
                ),
            }),
    {
        let idx = dev.page_index(self.loc.page_no);
        let mut s: usize = 0;
        while s < DENTRIES_PER_PAGE
            invariant
                dev.wf(),
                dev@.valid_loc(self.spec_loc()),
                idx == self.spec_loc().page_no - DATA_PAGE_START,
                s <= DENTRIES_PER_PAGE,
                forall|j: int| 0 <= j < s ==> #[trigger] dentry_free(dev@.dir(self.spec_loc().page_no as int)[j]),
            decreases DENTRIES_PER_PAGE - s,
        {
            if !dev.dentry_at(idx, s).is_free() {
                proof {
                    assert(!dentry_free(dev@.dir(self.spec_loc().page_no as int)[s as int]));
                }
                return Err(Error::ENOTEMPTY);
            }
            s = s + 1;
        }
        DirPageWrapper::mark_to_unmap(dev, self.loc.page_no)
    }
}

impl DentryWrapper<Clean, Complete> {
    /// Records the live entry in its directory's index.
    pub fn index(&self, dev: &PmDevice, parent_inode_info: &mut HayleyFsDirInodeInfo) -> (r: Result<(), Error>)
        requires
            dev.wf(),
            dev@.valid_loc(self.spec_loc()),
            old(parent_inode_info).wf(),
        ensures
            final(parent_inode_info).wf(),
            r is Ok,
            final(parent_inode_info).spec_ino() == old(parent_inode_info).spec_ino(),
            final(parent_inode_info).page_set() == old(parent_inode_info).page_set(),
            final(parent_inode_info).page_seq() == old(parent_inode_info).page_seq(),
            ({
                let d = dev@.dentry(self.spec_loc());
                final(parent_inode_info).dentry_map() == old(parent_inode_info).dentry_map().insert(
                    d.name,
                    DentryInfo { ino: d.ino, loc: self.spec_loc(), name: d.name },
                )
            }),
    {
        let info = self.get_dentry_info(dev);
        parent_inode_info.insert_dentry(info)
    }
}

impl<Op> DentryWrapper<Dirty, Op> {
    pub fn flush(self) -> (r: DentryWrapper<InFlight, Op>)
        ensures
            r.spec_loc() == self.spec_loc(),
    {
        self.to()
    }
}

impl<Op> DentryWrapper<InFlight, Op> {
    pub fn fence(self) -> (r: DentryWrapper<Clean, Op>)
        ensures
            r.spec_loc() == self.spec_loc(),
    {
        self.to()
    }
}

} // verus!
