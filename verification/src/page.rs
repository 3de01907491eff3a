//! Typed handles on directory pages and data pages.
use crate::dentry::DentryWrapper;
use crate::defs::{
    page_byte_offset, Error, InodeNum, PageNum, PageType, DATA_PAGE_START, DENTRIES_PER_PAGE,
    HAYLEYFS_PAGESIZE,
};
use crate::fs::SbInfo;
use crate::inode::InodeWrapper;
use crate::pm::{dentry_free, desc_initialized, DentryLoc, PageDescriptor, PmDevice, PmView};
use crate::typestate::{Alloc, AddLink, AddPage, Clean, ClearIno, Complete, Dealloc, DecLink, DeletableDentry, DirInode, Dirty, Free, IncLink, IncSize, InFlight, Init, InitRenamePointer, Initialized, RegInode, Renamed, Renaming, SetRenamePointer, Start, ToUnmap, Writeable, Written};
use crate::volatile::{DataPageInfo, DentryInfo, DirPageInfo};
use core::marker::PhantomData;
use vstd::prelude::*;

verus! {

/// The device with the descriptor of page `page_no` replaced by `d`.
pub open spec fn with_desc(v: PmView, page_no: int, d: PageDescriptor) -> PmView {
    PmView { descs: v.descs.update(page_no - DATA_PAGE_START, d), ..v }
}

/// Page `page_no` is a live directory page.
pub open spec fn dir_page_readable(v: PmView, page_no: int) -> bool {
    v.desc(page_no).page_type == PageType::DIR && v.desc(page_no).ino != 0
}

/// Page `page_no` has a free entry.
pub open spec fn dir_page_has_free(v: PmView, page_no: int) -> bool {
    exists|s: int| 0 <= s < DENTRIES_PER_PAGE && #[trigger] dentry_free(v.dir(page_no)[s])
}

/// The first free entry of page `page_no` is in slot `s`.
pub open spec fn first_free_slot(v: PmView, page_no: int, s: int) -> bool {
    &&& 0 <= s < DENTRIES_PER_PAGE
    &&& dentry_free(v.dir(page_no)[s])
    &&& forall|j: int| 0 <= j < s ==> !dentry_free(#[trigger] v.dir(page_no)[j])
}

/// The index entries of the live entries among the first `n` slots of page
/// `page_no`, in slot order.
pub open spec fn live_infos(v: PmView, page_no: PageNum, n: int) -> Seq<DentryInfo>
    decreases n,
{
    if n <= 0 {
        Seq::empty()
    } else {
        let prev = live_infos(v, page_no, n - 1);
        let d = v.dir(page_no as int)[n - 1];
        if d.ino != 0 {
            prev.push(DentryInfo { ino: d.ino, loc: DentryLoc { page_no, slot: (n - 1) as usize }, name: d.name })
        } else {
            prev
        }
    }
}

/// Index of page `page_no` in the descriptor table, for a page that may
/// hold directory entries.
pub fn page_no_to_dir_header(dev: &PmDevice, page_no: PageNum) -> (r: Result<usize, Error>)
    requires
        dev.wf(),
        dev@.has_page(page_no as int),
    ensures
        (match r {
            Ok(idx) => idx == page_no - DATA_PAGE_START && (dev@.desc(page_no as int).page_type
                == PageType::DIR || dev@.desc(page_no as int).page_type == PageType::NONE),
            Err(e) => e == Error::ENOTDIR && dev@.desc(page_no as int).page_type == PageType::DATA,
        }),
{
    let idx = dev.page_index(page_no);
    let d = dev.desc_at(idx);
    if d.page_type == PageType::DIR || d.page_type == PageType::NONE {
        Ok(idx)
    } else {
        Err(Error::ENOTDIR)
    }
}

/// Index of page `page_no` in the descriptor table, for a page that may
/// hold file data.
pub fn page_no_to_data_header(dev: &PmDevice, page_no: PageNum) -> (r: Result<usize, Error>)
    requires
        dev.wf(),
        page_no >= DATA_PAGE_START,
    ensures
        (match r {
            Ok(idx) => dev@.has_page(page_no as int) && idx == page_no - DATA_PAGE_START && (dev@.desc(
                page_no as int,
            ).page_type == PageType::DATA || dev@.desc(page_no as int).page_type == PageType::NONE),
            Err(e) => if !dev@.has_page(page_no as int) {
                e == Error::ENOSPC
            } else {
                e == Error::EISDIR && dev@.desc(page_no as int).page_type == PageType::DIR
            },
        }),
{
    let q = page_no - DATA_PAGE_START;
    if q >= dev.num_pages() {
        return Err(Error::ENOSPC);
    }
    let idx = dev.page_index(page_no);
    let d = dev.desc_at(idx);
    if d.page_type == PageType::DATA || d.page_type == PageType::NONE {
        Ok(idx)
    } else {
        Err(Error::EISDIR)
    }
}

pub struct DirPageWrapper<State, Op> {
    state: PhantomData<State>,
    op: PhantomData<Op>,
    page_no: PageNum,
}

impl<State, Op> DirPageWrapper<State, Op> {
    pub closed spec fn spec_page_no(&self) -> PageNum {
        self.page_no
    }

    pub fn get_page_no(&self) -> (r: PageNum)
        ensures
            r == self.spec_page_no(),
    {
        self.page_no
    }

    fn to<NewState, NewOp>(self) -> (r: DirPageWrapper<NewState, NewOp>)
        ensures
            r.spec_page_no() == self.spec_page_no(),
    {
        DirPageWrapper { state: PhantomData, op: PhantomData, page_no: self.page_no }
    }
}

impl DirPageWrapper<Clean, Start> {
    /// A handle on live directory page `page_no`.
    pub fn from_page_no(dev: &PmDevice, page_no: PageNum) -> (r: Result<Self, Error>)
        requires
            dev.wf(),
            dev@.has_page(page_no as int),
        ensures
            (match r {
                Ok(w) => dir_page_readable(dev@, page_no as int) && w.spec_page_no() == page_no,
                Err(e) => !dir_page_readable(dev@, page_no as int) && (if dev@.desc(
                    page_no as int,
                ).page_type == PageType::DATA {
                    e == Error::ENOTDIR
                } else {
                    e == Error::EPERM
                }),
            }),
    {
        let idx = page_no_to_dir_header(dev, page_no)?;
        if !dev.desc_at(idx).is_initialized() {
            Err(Error::EPERM)
        } else {
            Ok(DirPageWrapper { state: PhantomData, op: PhantomData, page_no })
        }
    }

    /// A handle on the live directory page `info` names.
    pub fn from_dir_page_info(dev: &PmDevice, info: &DirPageInfo) -> (r: Result<Self, Error>)
        requires
            dev.wf(),
            dev@.has_page(info.page_no as int),
        ensures
            (match r {
                Ok(w) => dir_page_readable(dev@, info.page_no as int) && w.spec_page_no() == info.page_no,
                Err(e) => !dir_page_readable(dev@, info.page_no as int) && (e == Error::ENOTDIR || e == Error::EPERM),
            }),
    {
        Self::from_page_no(dev, info.get_page_no())
    }
}

impl DirPageWrapper<Dirty, Alloc> {
    /// Allocates a page and marks it a directory page.
    pub fn alloc_dir_page(sbi: &mut SbInfo) -> (r: Result<Self, Error>)
        requires
            old(sbi).wf(),
        ensures
            final(sbi).wf(),
            final(sbi).unchanged_but_pages(*old(sbi)),
            (match r {
                Ok(w) => {
                    &&& old(sbi).page_is_free(w.spec_page_no())
                    &&& final(sbi).page_ok(w.spec_page_no())
                    &&& final(sbi).free_pages() == old(sbi).free_pages().remove(w.spec_page_no())
                    &&& (old(sbi).dev@.desc(w.spec_page_no() as int).page_type == PageType::DIR
                        || old(sbi).dev@.desc(w.spec_page_no() as int).page_type == PageType::NONE)
                    &&& final(sbi).dev@ == with_desc(
                        old(sbi).dev@,
                        w.spec_page_no() as int,
                        PageDescriptor { page_type: PageType::DIR, ..old(sbi).dev@.desc(w.spec_page_no() as int) },
                    )
                },
                Err(e) => {
                    &&& final(sbi).dev@ == old(sbi).dev@
                    &&& ((e == Error::EINVAL && old(sbi).page_allocator is None) || (e == Error::ENOSPC
                        && old(sbi).out_of_pages()) || (e == Error::ENOTDIR && exists|p: PageNum|
                        #[trigger] old(sbi).page_is_free(p) && old(sbi).dev@.desc(p as int).page_type
                            == PageType::DATA))
                },
            }),
            old(sbi).alloc_agrees() ==> final(sbi).alloc_agrees(),
    {
        let ghost s0 = *sbi;
        let page_no = sbi.alloc_page()?;
        proof {
            if s0.alloc_agrees() {
                SbInfo::lemma_agrees_kept(s0, *sbi);
            }
        }
        let idx = page_no_to_dir_header(&sbi.dev, page_no)?;
        let mut d = sbi.dev.desc_at(idx);
        d.page_type = PageType::DIR;
        sbi.dev.set_desc(idx, d);
        proof {
            if s0.alloc_agrees() {
                SbInfo::lemma_agrees_kept(s0, *sbi);
            }
        }
        Ok(DirPageWrapper { state: PhantomData, op: PhantomData, page_no })
    }
}

impl DirPageWrapper<Clean, Alloc> {
    /// Points the page back at directory `inode`, which is live.
    pub fn set_dir_page_backpointer<InoState: Initialized>(
        self,
        dev: &mut PmDevice,
        inode: InodeWrapper<Clean, InoState, DirInode>,
    ) -> (r: DirPageWrapper<Dirty, Init>)
        requires
            old(dev).wf(),
            old(dev)@.has_page(self.spec_page_no() as int),
        ensures
            final(dev).wf(),
            r.spec_page_no() == self.spec_page_no(),
            final(dev)@ == with_desc(
                old(dev)@,
                self.spec_page_no() as int,
                PageDescriptor { ino: inode.spec_ino(), ..old(dev)@.desc(self.spec_page_no() as int) },
            ),
    {
        let idx = dev.page_index(self.page_no);
        let mut d = dev.desc_at(idx);
        d.ino = inode.get_ino();
        dev.set_desc(idx, d);
        self.to()
    }
}

impl<Op: Initialized> DirPageWrapper<Clean, Op> {
    /// The index entries of the page's live entries, in slot order.
    pub fn get_live_dentry_info(&self, dev: &PmDevice) -> (r: Result<Vec<DentryInfo>, Error>)
        requires
            dev.wf(),
            dev@.has_page(self.spec_page_no() as int),
        ensures
            r matches Ok(v) && v@ == live_infos(dev@, self.spec_page_no(), DENTRIES_PER_PAGE as int),
    {
        let idx = dev.page_index(self.page_no);
        let mut out: Vec<DentryInfo> = Vec::new();
        let mut s: usize = 0;
        while s < DENTRIES_PER_PAGE
            invariant
                dev.wf(),
                dev@.has_page(self.spec_page_no() as int),
                idx == self.spec_page_no() - DATA_PAGE_START,
                s <= DENTRIES_PER_PAGE,
                out@ == live_infos(dev@, self.spec_page_no(), s as int),
            decreases DENTRIES_PER_PAGE - s,
        {
            let d = dev.dentry_at(idx, s);
            if d.ino != 0 {
                out.push(DentryInfo::new(d.ino, DentryLoc { page_no: self.page_no, slot: s }, d.name));
            }
            s = s + 1;
        }
        Ok(out)
    }

    /// Whether the page has a free entry.
    pub fn has_free_space(&self, dev: &PmDevice) -> (r: Result<bool, Error>)
        requires
            dev.wf(),
            dev@.has_page(self.spec_page_no() as int),
        ensures
            r == Ok::<bool, Error>(dir_page_has_free(dev@, self.spec_page_no() as int)),
    {
        let idx = dev.page_index(self.page_no);
        let mut s: usize = 0;
        while s < DENTRIES_PER_PAGE
            invariant
                dev.wf(),
                dev@.has_page(self.spec_page_no() as int),
                idx == self.spec_page_no() - DATA_PAGE_START,
                s <= DENTRIES_PER_PAGE,
                forall|j: int| 0 <= j < s ==> !dentry_free(#[trigger] dev@.dir(self.spec_page_no() as int)[j]),
            decreases DENTRIES_PER_PAGE - s,
        {
            if dev.dentry_at(idx, s).is_free() {
                proof {
                    assert(dentry_free(dev@.dir(self.spec_page_no() as int)[s as int]));
                }
                return Ok(true);
            }
            s = s + 1;
        }
        Ok(false)
    }

    /// A handle on the page's first free entry.
    pub fn get_free_dentry(self, dev: &PmDevice) -> (r: Result<DentryWrapper<Clean, Free>, Error>)
        requires
            dev.wf(),
            dev@.has_page(self.spec_page_no() as int),
        ensures
            (match r {
                Ok(d) => d.spec_loc().page_no == self.spec_page_no() && first_free_slot(
                    dev@,
                    self.spec_page_no() as int,
                    d.spec_loc().slot as int,
                ),
                Err(e) => e == Error::ENOSPC && !dir_page_has_free(dev@, self.spec_page_no() as int),
            }),
    {
        let idx = dev.page_index(self.page_no);
        let mut s: usize = 0;
        while s < DENTRIES_PER_PAGE
            invariant
                dev.wf(),
                dev@.has_page(self.spec_page_no() as int),
                idx == self.spec_page_no() - DATA_PAGE_START,
                s <= DENTRIES_PER_PAGE,
                forall|j: int| 0 <= j < s ==> !dentry_free(#[trigger] dev@.dir(self.spec_page_no() as int)[j]),
            decreases DENTRIES_PER_PAGE - s,
        {
            if dev.dentry_at(idx, s).is_free() {
                return Ok(DentryWrapper::wrap_free_dentry(DentryLoc { page_no: self.page_no, slot: s }));
            }
            s = s + 1;
        }
        Err(Error::ENOSPC)
    }
}

impl DirPageWrapper<Clean, ToUnmap> {
    /// A handle on live directory page `page_no`, to be taken apart.
    pub fn mark_to_unmap(dev: &PmDevice, page_no: PageNum) -> (r: Result<Self, Error>)
        requires
            dev.wf(),
            dev@.has_page(page_no as int),
        ensures
            (match r {
                Ok(w) => dir_page_readable(dev@, page_no as int) && w.spec_page_no() == page_no,
                Err(e) => !dir_page_readable(dev@, page_no as int) && (e == Error::ENOTDIR || e == Error::EPERM),
            }),
    {
        let idx = page_no_to_dir_header(dev, page_no)?;
        if !dev.desc_at(idx).is_initialized() {
            Err(Error::EPERM)
        } else {
            Ok(DirPageWrapper { state: PhantomData, op: PhantomData, page_no })
        }
    }

    /// Clears the page's owner.
    pub fn unmap(self, dev: &mut PmDevice) -> (r: DirPageWrapper<Dirty, ClearIno>)
        requires
            old(dev).wf(),
            old(dev)@.has_page(self.spec_page_no() as int),
        ensures
            final(dev).wf(),
            r.spec_page_no() == self.spec_page_no(),
            final(dev)@ == with_desc(
                old(dev)@,
                self.spec_page_no() as int,
                PageDescriptor { ino: 0, ..old(dev)@.desc(self.spec_page_no() as int) },
            ),
    {
        let idx = dev.page_index(self.page_no);
        let mut d = dev.desc_at(idx);
        d.ino = 0;
        dev.set_desc(idx, d);
        self.to()
    }
}

impl DirPageWrapper<Clean, ClearIno> {
    /// Zeroes the page's descriptor.
    pub fn dealloc(self, dev: &mut PmDevice) -> (r: DirPageWrapper<Dirty, Dealloc>)
        requires
            old(dev).wf(),
            old(dev)@.has_page(self.spec_page_no() as int),
        ensures
            final(dev).wf(),
            r.spec_page_no() == self.spec_page_no(),
            final(dev)@ == with_desc(
                old(dev)@,
                self.spec_page_no() as int,
                PageDescriptor { page_type: PageType::NONE, ino: 0, offset: 0 },
            ),
    {
        let idx = dev.page_index(self.page_no);
        dev.set_desc(idx, PageDescriptor::zeroed());
        proof {
            assert(final(dev)@ == with_desc(
                old(dev)@,
                self.spec_page_no() as int,
                PageDescriptor { page_type: PageType::NONE, ino: 0, offset: 0 },
            ));
        }
        self.to()
    }
}

impl DirPageWrapper<Clean, Dealloc> {
    /// The page, returned to the allocator, may be reused.
    pub fn mark_free(self) -> (r: DirPageWrapper<Clean, Free>)
        ensures
            r.spec_page_no() == self.spec_page_no(),
    {
        self.to()
    }
}

impl DirPageWrapper<Clean, Free> {
    /// The pages, returned to the allocator, may be reused.
    pub fn mark_pages_free(pages: Vec<DirPageWrapper<Clean, Dealloc>>) -> (r: Result<Vec<Self>, Error>)
        ensures
            r matches Ok(v) && v@.len() == pages@.len() && forall|i: int|
                0 <= i < pages@.len() ==> #[trigger] v@[i].spec_page_no() == pages@[i].spec_page_no(),
    {
        let mut pages = pages;
        let ghost orig = pages@;
        let mut free_vec: Vec<DirPageWrapper<Clean, Free>> = Vec::new();
        while pages.len() > 0
            invariant
                pages@.len() + free_vec@.len() == orig.len(),
                forall|i: int| 0 <= i < pages@.len() ==> #[trigger] pages@[i] == orig[free_vec@.len() + i],
                forall|i: int| 0 <= i < free_vec@.len() ==> #[trigger] free_vec@[i].spec_page_no() == orig[i].spec_page_no(),
            decreases pages@.len(),
        {
            let ghost before = pages@;
            let p = pages.remove(0);
            proof {
                assert forall|i: int| 0 <= i < pages@.len() implies #[trigger] pages@[i] == orig[free_vec@.len() + 1 + i] by {
                    assert(pages@[i] == before[i + 1]);
                }
            }
            free_vec.push(p.mark_free());
        }
        Ok(free_vec)
    }
}

impl<Op> DirPageWrapper<Dirty, Op> {
    pub fn flush(self) -> (r: DirPageWrapper<InFlight, Op>)
        ensures
            r.spec_page_no() == self.spec_page_no(),
    {
        self.to()
    }
}

impl<Op> DirPageWrapper<InFlight, Op> {
    pub fn fence(self) -> (r: DirPageWrapper<Clean, Op>)
        ensures
            r.spec_page_no() == self.spec_page_no(),
    {
        self.to()
    }
}

/// Page `page_no` is a live data page.
pub open spec fn data_page_readable(v: PmView, page_no: int) -> bool {
    &&& v.has_page(page_no)
    &&& v.desc(page_no).page_type == PageType::DATA
    &&& v.desc(page_no).ino != 0
}

pub struct DataPageWrapper<State, Op> {
    state: PhantomData<State>,
    op: PhantomData<Op>,
    page_no: PageNum,
}

impl<State, Op> DataPageWrapper<State, Op> {
    pub closed spec fn spec_page_no(&self) -> PageNum {
        self.page_no
    }

    pub fn get_page_no(&self) -> (r: PageNum)
        ensures
            r == self.spec_page_no(),
    {
        self.page_no
    }

    /// The file offset the page holds.
    pub fn get_offset(&self, dev: &PmDevice) -> (r: u64)
        requires
            dev.wf(),
            dev@.has_page(self.spec_page_no() as int),
        ensures
            r == dev@.desc(self.spec_page_no() as int).offset,
    {
        dev.desc_at(dev.page_index(self.page_no)).offset
    }

    /// The page's owner.
    pub fn get_ino(&self, dev: &PmDevice) -> (r: InodeNum)
        requires
            dev.wf(),
            dev@.has_page(self.spec_page_no() as int),
        ensures
            r == dev@.desc(self.spec_page_no() as int).ino,
    {
        dev.desc_at(dev.page_index(self.page_no)).ino
    }

    /// Byte offset of the page on the device.
    pub fn get_page_addr(&self) -> (r: Result<u64, Error>)
        requires
            self.spec_page_no() * HAYLEYFS_PAGESIZE <= u64::MAX,
        ensures
            (match r {
                Ok(off) => off == self.spec_page_no() * HAYLEYFS_PAGESIZE,
                Err(e) => e == Error::EINVAL,
            }),
    {
        page_byte_offset(self.page_no)
    }

    fn to<NewState, NewOp>(self) -> (r: DataPageWrapper<NewState, NewOp>)
        ensures
            r.spec_page_no() == self.spec_page_no(),
    {
        DataPageWrapper { state: PhantomData, op: PhantomData, page_no: self.page_no }
    }
}

impl DataPageWrapper<Dirty, Alloc> {
    /// Allocates a page and marks it a data page holding file offset `offset`.
    pub fn alloc_data_page(sbi: &mut SbInfo, offset: u64) -> (r: Result<Self, Error>)
        requires
            old(sbi).wf(),
        ensures
            final(sbi).wf(),
            final(sbi).unchanged_but_pages(*old(sbi)),
            (match r {
                Ok(w) => {
                    &&& old(sbi).page_is_free(w.spec_page_no())
                    &&& final(sbi).page_ok(w.spec_page_no())
                    &&& old(sbi).dev@.desc(w.spec_page_no() as int).page_type != PageType::DIR
                    &&& final(sbi).free_pages() == old(sbi).free_pages().remove(w.spec_page_no())
                    &&& final(sbi).dev@ == with_desc(
                        old(sbi).dev@,
                        w.spec_page_no() as int,
                        PageDescriptor {
                            page_type: PageType::DATA,
                            offset,
                            ..old(sbi).dev@.desc(w.spec_page_no() as int)
                        },
                    )
                },
                Err(e) => {
                    &&& final(sbi).dev@ == old(sbi).dev@
                    &&& ((e == Error::EINVAL && old(sbi).page_allocator is None) || (e == Error::ENOSPC
                        && old(sbi).out_of_pages()) || (e == Error::EISDIR && exists|p: PageNum|
                        #[trigger] old(sbi).page_is_free(p) && old(sbi).dev@.desc(p as int).page_type
                            == PageType::DIR))
                },
            }),
            old(sbi).alloc_agrees() ==> final(sbi).alloc_agrees(),
    {
        let ghost s0 = *sbi;
        let page_no = sbi.alloc_page()?;
        proof {
            if s0.alloc_agrees() {
                SbInfo::lemma_agrees_kept(s0, *sbi);
            }
        }
        let idx = page_no_to_data_header(&sbi.dev, page_no)?;
        let mut d = sbi.dev.desc_at(idx);
        d.page_type = PageType::DATA;
        d.offset = offset;
        sbi.dev.set_desc(idx, d);
        proof {
            if s0.alloc_agrees() {
                SbInfo::lemma_agrees_kept(s0, *sbi);
            }
        }
        Ok(DataPageWrapper { state: PhantomData, op: PhantomData, page_no })
    }
}

impl DataPageWrapper<Clean, Writeable> {
    /// A handle on live data page `page_no`.
    pub fn from_page_no(dev: &PmDevice, page_no: PageNum) -> (r: Result<Self, Error>)
        requires
            dev.wf(),
            page_no >= DATA_PAGE_START,
        ensures
            (match r {
                Ok(w) => data_page_readable(dev@, page_no as int) && w.spec_page_no() == page_no,
                Err(e) => !data_page_readable(dev@, page_no as int),
            }),
    {
        let idx = page_no_to_data_header(dev, page_no)?;
        if !dev.desc_at(idx).is_initialized() {
            Err(Error::EPERM)
        } else {
            Ok(DataPageWrapper { state: PhantomData, op: PhantomData, page_no })
        }
    }

    /// A handle on the live data page `info` names.
    pub fn from_data_page_info(dev: &PmDevice, info: &DataPageInfo) -> (r: Result<Self, Error>)
        requires
            dev.wf(),
            info.page_no >= DATA_PAGE_START,
        ensures
            (match r {
                Ok(w) => data_page_readable(dev@, info.page_no as int) && w.spec_page_no() == info.page_no,
                Err(e) => !data_page_readable(dev@, info.page_no as int),
            }),
    {
        Self::from_page_no(dev, info.get_page_no())
    }

    /// The `len` bytes of the page from byte `offset` on.
    pub fn read_from_page(&self, dev: &PmDevice, offset: u64, len: u64) -> (r: Result<Vec<u8>, Error>)
        requires
            dev.wf(),
            dev@.has_page(self.spec_page_no() as int),
            offset + len <= HAYLEYFS_PAGESIZE,
        ensures
            r matches Ok(v) && v@ == dev@.page(self.spec_page_no() as int).subrange(
                offset as int,
                offset + len,
            ),
    {
        let idx = dev.page_index(self.page_no);
        let mut out: Vec<u8> = Vec::new();
        let mut i: u64 = 0;
        while i < len
            invariant
                dev.wf(),
                dev@.has_page(self.spec_page_no() as int),
                idx == self.spec_page_no() - DATA_PAGE_START,
                offset + len <= HAYLEYFS_PAGESIZE,
                i <= len,
                out@ == dev@.page(self.spec_page_no() as int).subrange(offset as int, offset + i),
            decreases len - i,
        {
            out.push(dev.byte_at(idx, (offset + i) as usize));
            i = i + 1;
            proof {
                assert(out@ =~= dev@.page(self.spec_page_no() as int).subrange(offset as int, offset + i));
            }
        }
        Ok(out)
    }

    /// Copies the first `len` bytes of `data` into the page from byte
    /// `offset` on.  Returns the number of bytes written.
    pub fn write_to_page(self, dev: &mut PmDevice, data: &[u8], offset: u64, len: u64) -> (r: Result<
        (u64, DataPageWrapper<InFlight, Written>),
        Error,
    >)
        requires
            old(dev).wf(),
            old(dev)@.has_page(self.spec_page_no() as int),
            len <= data@.len(),
            offset + len <= HAYLEYFS_PAGESIZE,
        ensures
            final(dev).wf(),
            r matches Ok((n, w)) && n == len && w.spec_page_no() == self.spec_page_no(),
            final(dev)@ == (PmView {
                data: old(dev)@.data.update(
                    self.spec_page_no() - DATA_PAGE_START,
                    crate::pm::splice(
                        old(dev)@.page(self.spec_page_no() as int),
                        offset as int,
                        data@.subrange(0, len as int),
                    ),
                ),
                ..old(dev)@
            }),
    {
        let idx = dev.page_index(self.page_no);
        dev.write_bytes(idx, offset as usize, data, len as usize);
        Ok((len, self.to()))
    }
}

impl DataPageWrapper<Clean, ToUnmap> {
    /// A handle on the live data page `info` names, to be taken apart.
    pub fn mark_to_unmap(dev: &PmDevice, info: DataPageInfo) -> (r: Result<Self, Error>)
        requires
            dev.wf(),
            info.page_no >= DATA_PAGE_START,
        ensures
            (match r {
                Ok(w) => data_page_readable(dev@, info.page_no as int) && w.spec_page_no() == info.page_no,
                Err(e) => !data_page_readable(dev@, info.page_no as int),
            }),
    {
        let page_no = info.get_page_no();
        let idx = page_no_to_data_header(dev, page_no)?;
        if !dev.desc_at(idx).is_initialized() {
            Err(Error::EPERM)
        } else {
            Ok(DataPageWrapper { state: PhantomData, op: PhantomData, page_no })
        }
    }

    /// Clears the page's owner.
    pub fn unmap(self, dev: &mut PmDevice) -> (r: DataPageWrapper<Dirty, ClearIno>)
        requires
            old(dev).wf(),
            old(dev)@.has_page(self.spec_page_no() as int),
        ensures
            final(dev).wf(),
            r.spec_page_no() == self.spec_page_no(),
            final(dev)@ == with_desc(
                old(dev)@,
                self.spec_page_no() as int,
                PageDescriptor { ino: 0, ..old(dev)@.desc(self.spec_page_no() as int) },
            ),
    {
        let idx = dev.page_index(self.page_no);
        let mut d = dev.desc_at(idx);
        d.ino = 0;
        dev.set_desc(idx, d);
        self.to()
    }
}

impl DataPageWrapper<Clean, ClearIno> {
    /// Zeroes the page's descriptor.
    pub fn dealloc(self, dev: &mut PmDevice) -> (r: DataPageWrapper<Dirty, Dealloc>)
        requires
            old(dev).wf(),
            old(dev)@.has_page(self.spec_page_no() as int),
        ensures
            final(dev).wf(),
            r.spec_page_no() == self.spec_page_no(),
            final(dev)@ == with_desc(
                old(dev)@,
                self.spec_page_no() as int,
                PageDescriptor { page_type: PageType::NONE, ino: 0, offset: 0 },
            ),
    {
        let idx = dev.page_index(self.page_no);
        dev.set_desc(idx, PageDescriptor::zeroed());
        proof {
            assert(final(dev)@ == with_desc(
                old(dev)@,
                self.spec_page_no() as int,
                PageDescriptor { page_type: PageType::NONE, ino: 0, offset: 0 },
            ));
        }
        self.to()
    }
}

impl DataPageWrapper<Clean, Free> {
    /// The pages, returned to the allocator, may be reused.
    pub fn mark_pages_free(pages: Vec<DataPageWrapper<Clean, Dealloc>>) -> (r: Result<Vec<Self>, Error>)
        ensures
            r matches Ok(v) && v@.len() == pages@.len() && forall|i: int|
                0 <= i < pages@.len() ==> #[trigger] v@[i].spec_page_no() == pages@[i].spec_page_no(),
    {
        let mut pages = pages;
        let ghost orig = pages@;
        let mut rev: Vec<DataPageWrapper<Clean, Free>> = Vec::new();
        while pages.len() > 0
            invariant
                pages@.len() + rev@.len() == orig.len(),
                forall|i: int| 0 <= i < pages@.len() ==> #[trigger] pages@[i] == orig[i],
                forall|i: int|
                    0 <= i < rev@.len() ==> #[trigger] rev@[i].spec_page_no() == orig[orig.len() - 1 - i].spec_page_no(),
            decreases pages@.len(),
        {
            let p = pages.pop().unwrap();
            rev.push(p.to());
        }
        let mut free_vec: Vec<DataPageWrapper<Clean, Free>> = Vec::new();
        while rev.len() > 0
            invariant
                rev@.len() + free_vec@.len() == orig.len(),
                forall|i: int|
                    0 <= i < rev@.len() ==> #[trigger] rev@[i].spec_page_no() == orig[orig.len() - 1 - i].spec_page_no(),
                forall|i: int| 0 <= i < free_vec@.len() ==> #[trigger] free_vec@[i].spec_page_no() == orig[i].spec_page_no(),
            decreases rev@.len(),
        {
            let p = rev.pop().unwrap();
            free_vec.push(p);
        }
        Ok(free_vec)
    }
}

impl DataPageWrapper<Clean, Alloc> {
    /// Points the page back at file `inode`.
    pub fn set_data_page_backpointer<InoOp: AddPage>(
        self,
        dev: &mut PmDevice,
        inode: &InodeWrapper<Clean, InoOp, RegInode>,
    ) -> (r: DataPageWrapper<Dirty, Writeable>)
        requires
            old(dev).wf(),
            old(dev)@.has_page(self.spec_page_no() as int),
        ensures
            final(dev).wf(),
            r.spec_page_no() == self.spec_page_no(),
            final(dev)@ == with_desc(
                old(dev)@,
                self.spec_page_no() as int,
                PageDescriptor { ino: inode.spec_ino(), ..old(dev)@.desc(self.spec_page_no() as int) },
            ),
    {
        let idx = dev.page_index(self.page_no);
        let mut d = dev.desc_at(idx);
        d.ino = inode.get_ino();
        dev.set_desc(idx, d);
        self.to()
    }
}

impl<Op> DataPageWrapper<Dirty, Op> {
    pub fn flush(self) -> (r: DataPageWrapper<InFlight, Op>)
        ensures
            r.spec_page_no() == self.spec_page_no(),
    {
        self.to()
    }
}

impl<Op> DataPageWrapper<InFlight, Op> {
    pub fn fence(self) -> (r: DataPageWrapper<Clean, Op>)
        ensures
            r.spec_page_no() == self.spec_page_no(),
    {
        self.to()
    }
}

} // verus!
