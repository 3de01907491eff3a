//! The persistent objects and the device that holds them.
//!
//! The device is a super block, an inode table indexed by inode number,
//! a page descriptor table with one descriptor per page from
//! `DATA_PAGE_START` on, and the pages themselves.  A page is read either
//! as `DENTRIES_PER_PAGE` directory entries or as `HAYLEYFS_PAGESIZE`
//! bytes of file data, as its descriptor says.
use crate::defs::{
    FileName, InodeNum, InodeType, PageNum, PageType, DATA_PAGE_START, DENTRIES_PER_PAGE,
    HAYLEYFS_PAGESIZE, MAX_FILENAME_LEN, NUM_INODES,
};
use vstd::prelude::*;

verus! {

/// A point in time.
#[derive(PartialEq, Eq, Structural, Clone, Copy, Debug)]
pub struct Timespec {
    pub tv_sec: i64,
    pub tv_nsec: i64,
}

impl Timespec {
    pub fn zero() -> (r: Timespec)
        ensures
            r.tv_sec == 0 && r.tv_nsec == 0,
    {
        Timespec { tv_sec: 0, tv_nsec: 0 }
    }
}

/// The persistent inode.
#[derive(Clone, Copy)]
pub struct HayleyFsInode {
    pub inode_type: InodeType,
    pub link_count: u16,
    pub mode: u16,
    pub uid: u32,
    pub gid: u32,
    pub ctime: Timespec,
    pub atime: Timespec,
    pub mtime: Timespec,
    pub blocks: u64,
    pub size: u64,
    pub ino: InodeNum,
}

/// The inode slot holds a live inode.
pub open spec fn inode_initialized(i: HayleyFsInode) -> bool {
    &&& i.inode_type != InodeType::NONE
    &&& i.link_count != 0
    &&& i.mode != 0
    &&& i.ino != 0
}

/// Every field of the inode slot is zero.
pub open spec fn inode_free(i: HayleyFsInode) -> bool {
    &&& i.inode_type == InodeType::NONE
    &&& i.link_count == 0
    &&& i.mode == 0
    &&& i.uid == 0
    &&& i.gid == 0
    &&& i.ctime == Timespec { tv_sec: 0, tv_nsec: 0 }
    &&& i.atime == Timespec { tv_sec: 0, tv_nsec: 0 }
    &&& i.mtime == Timespec { tv_sec: 0, tv_nsec: 0 }
    &&& i.blocks == 0
    &&& i.size == 0
    &&& i.ino == 0
}

pub open spec fn zero_inode_spec() -> HayleyFsInode {
    HayleyFsInode {
        inode_type: InodeType::NONE,
        link_count: 0,
        mode: 0,
        uid: 0,
        gid: 0,
        ctime: Timespec { tv_sec: 0, tv_nsec: 0 },
        atime: Timespec { tv_sec: 0, tv_nsec: 0 },
        mtime: Timespec { tv_sec: 0, tv_nsec: 0 },
        blocks: 0,
        size: 0,
        ino: 0,
    }
}

impl HayleyFsInode {
    pub fn zeroed() -> (r: HayleyFsInode)
        ensures
            r == zero_inode_spec(),
    {
        HayleyFsInode {
            inode_type: InodeType::NONE,
            link_count: 0,
            mode: 0,
            uid: 0,
            gid: 0,
            ctime: Timespec::zero(),
            atime: Timespec::zero(),
            mtime: Timespec::zero(),
            blocks: 0,
            size: 0,
            ino: 0,
        }
    }

    pub fn get_ino(&self) -> (r: InodeNum)
        ensures
            r == self.ino,
    {
        self.ino
    }

    pub fn get_link_count(&self) -> (r: u16)
        ensures
            r == self.link_count,
    {
        self.link_count
    }

    pub fn get_type(&self) -> (r: InodeType)
        ensures
            r == self.inode_type,
    {
        self.inode_type
    }

    pub fn get_size(&self) -> (r: u64)
        ensures
            r == self.size,
    {
        self.size
    }

    pub fn get_mode(&self) -> (r: u16)
        ensures
            r == self.mode,
    {
        self.mode
    }

    pub fn get_uid(&self) -> (r: u32)
        ensures
            r == self.uid,
    {
        self.uid
    }

    pub fn get_gid(&self) -> (r: u32)
        ensures
            r == self.gid,
    {
        self.gid
    }

    pub fn get_mtime(&self) -> (r: Timespec)
        ensures
            r == self.mtime,
    {
        self.mtime
    }

    pub fn get_ctime(&self) -> (r: Timespec)
        ensures
            r == self.ctime,
    {
        self.ctime
    }

    pub fn get_atime(&self) -> (r: Timespec)
        ensures
            r == self.atime,
    {
        self.atime
    }

    pub fn get_blocks(&self) -> (r: u64)
        ensures
            r == self.blocks,
    {
        self.blocks
    }

    /// Whether the slot holds a live inode.
    pub fn is_initialized(&self) -> (r: bool)
        ensures
            r == inode_initialized(*self),
    {
        self.inode_type != InodeType::NONE && self.link_count != 0 && self.mode != 0 && self.ino
            != 0
    }

    /// Whether every field of the slot is zero.
    pub fn is_free(&self) -> (r: bool)
        ensures
            r == inode_free(*self),
    {
        self.inode_type == InodeType::NONE && self.link_count == 0 && self.mode == 0 && self.uid
            == 0 && self.gid == 0 && self.ctime.tv_sec == 0 && self.ctime.tv_nsec == 0
            && self.atime.tv_sec == 0 && self.atime.tv_nsec == 0 && self.mtime.tv_sec == 0
            && self.mtime.tv_nsec == 0 && self.blocks == 0 && self.size == 0 && self.ino == 0
    }
}

/// A page descriptor: what the page holds, its owner, and for a data page
/// the file offset it holds.
#[derive(Clone, Copy)]
pub struct PageDescriptor {
    pub page_type: PageType,
    pub ino: InodeNum,
    pub offset: u64,
}

pub open spec fn desc_free(d: PageDescriptor) -> bool {
    d.page_type == PageType::NONE && d.ino == 0 && d.offset == 0
}

/// The descriptor marks its page as belonging to a file or directory.
pub open spec fn desc_initialized(d: PageDescriptor) -> bool {
    d.page_type != PageType::NONE && d.ino != 0
}

impl PageDescriptor {
    pub fn zeroed() -> (r: PageDescriptor)
        ensures
            desc_free(r),
    {
        PageDescriptor { page_type: PageType::NONE, ino: 0, offset: 0 }
    }

    pub fn is_free(&self) -> (r: bool)
        ensures
            r == desc_free(*self),
    {
        self.page_type == PageType::NONE && self.ino == 0 && self.offset == 0
    }

    pub fn get_page_type(&self) -> (r: PageType)
        ensures
            r == self.page_type,
    {
        self.page_type
    }

    pub fn get_ino(&self) -> (r: InodeNum)
        ensures
            r == self.ino,
    {
        self.ino
    }

    pub fn get_offset(&self) -> (r: u64)
        ensures
            r == self.offset,
    {
        self.offset
    }

    /// Whether the descriptor marks its page as in use by a file or directory.
    pub fn is_initialized(&self) -> (r: bool)
        ensures
            r == desc_initialized(*self),
    {
        self.page_type != PageType::NONE && self.ino != 0
    }
}

/// Where a directory entry lives: its page and its slot in that page.
#[derive(PartialEq, Eq, Structural, Clone, Copy, Debug)]
pub struct DentryLoc {
    pub page_no: PageNum,
    pub slot: usize,
}

/// A persistent directory entry.
#[derive(Clone, Copy)]
pub struct HayleyFsDentry {
    pub ino: InodeNum,
    pub name: FileName,
    pub rename_ptr: Option<DentryLoc>,
}

pub open spec fn name_is_empty(n: FileName) -> bool {
    forall|i: int| 0 <= i < MAX_FILENAME_LEN ==> n.bytes@[i] == 0
}

/// Every field of the entry is zero.
pub open spec fn dentry_free(d: HayleyFsDentry) -> bool {
    &&& d.ino == 0
    &&& d.rename_ptr is None
    &&& name_is_empty(d.name)
}

impl HayleyFsDentry {
    pub fn zeroed() -> (r: HayleyFsDentry)
        ensures
            dentry_free(r),
    {
        HayleyFsDentry { ino: 0, name: FileName::empty(), rename_ptr: None }
    }

    pub fn get_ino(&self) -> (r: InodeNum)
        ensures
            r == self.ino,
    {
        self.ino
    }

    pub fn is_rename_ptr_null(&self) -> (r: bool)
        ensures
            r == self.rename_ptr is None,
    {
        self.rename_ptr.is_none()
    }

    pub fn has_name(&self) -> (r: bool)
        ensures
            r == !name_is_empty(self.name),
    {
        self.name.has_name()
    }

    pub fn get_name(&self) -> (r: FileName)
        ensures
            r == self.name,
    {
        self.name
    }

    pub fn is_free(&self) -> (r: bool)
        ensures
            r == dentry_free(*self),
    {
        self.ino == 0 && self.is_rename_ptr_null() && !self.has_name()
    }
}

/// The contents of the device.
pub struct PmView {
    pub size: i64,
    pub inodes: Seq<HayleyFsInode>,
    pub descs: Seq<PageDescriptor>,
    pub dirs: Seq<Seq<HayleyFsDentry>>,
    pub data: Seq<Seq<u8>>,
}

impl PmView {
    /// The descriptor of page `page_no`.
    pub open spec fn desc(self, page_no: int) -> PageDescriptor {
        self.descs[page_no - DATA_PAGE_START]
    }

    /// The directory entries of page `page_no`.
    pub open spec fn dir(self, page_no: int) -> Seq<HayleyFsDentry> {
        self.dirs[page_no - DATA_PAGE_START]
    }

    /// The data bytes of page `page_no`.
    pub open spec fn page(self, page_no: int) -> Seq<u8> {
        self.data[page_no - DATA_PAGE_START]
    }

    /// Page `page_no` is on the device.
    pub open spec fn has_page(self, page_no: int) -> bool {
        DATA_PAGE_START <= page_no < DATA_PAGE_START + self.descs.len()
    }

    /// The entry at `loc`.
    pub open spec fn dentry(self, loc: DentryLoc) -> HayleyFsDentry {
        self.dir(loc.page_no as int)[loc.slot as int]
    }

    pub open spec fn valid_loc(self, loc: DentryLoc) -> bool {
        self.has_page(loc.page_no as int) && loc.slot < DENTRIES_PER_PAGE
    }
}

/// The persistent memory device.
pub struct PmDevice {
    size: i64,
    inodes: Vec<HayleyFsInode>,
    descs: Vec<PageDescriptor>,
    dirs: Vec<Vec<HayleyFsDentry>>,
    data: Vec<Vec<u8>>,
}

impl PmDevice {
    pub closed spec fn view(&self) -> PmView {
        PmView {
            size: self.size,
            inodes: self.inodes@,
            descs: self.descs@,
            dirs: Seq::new(self.dirs@.len(), |i: int| self.dirs@[i]@),
            data: Seq::new(self.data@.len(), |i: int| self.data@[i]@),
        }
    }

    /// The tables have their fixed shapes.
    pub open spec fn wf(&self) -> bool {
        &&& self@.inodes.len() == NUM_INODES
        &&& self@.dirs.len() == self@.descs.len()
        &&& self@.data.len() == self@.descs.len()
        &&& self@.descs.len() + DATA_PAGE_START <= u64::MAX
        &&& forall|i: int| 0 <= i < self@.dirs.len() ==> (#[trigger] self@.dirs[i]).len() == DENTRIES_PER_PAGE
        &&& forall|i: int| 0 <= i < self@.data.len() ==> (#[trigger] self@.data[i]).len() == HAYLEYFS_PAGESIZE
    }

    /// A zeroed device with `num_pages` pages past the reserved ones.
    pub fn new(size: i64, num_pages: u64) -> (r: PmDevice)
        requires
            num_pages + DATA_PAGE_START <= u64::MAX,
        ensures
            r.wf(),
            r@.size == size,
            r@.descs.len() == num_pages,
            forall|i: int| 0 <= i < NUM_INODES ==> #[trigger] r@.inodes[i] == zero_inode_spec(),
            forall|i: int| 0 <= i < num_pages ==> desc_free(#[trigger] r@.descs[i]),
            forall|i: int, j: int|
                0 <= i < num_pages && 0 <= j < DENTRIES_PER_PAGE ==> dentry_free(
                    #[trigger] r@.dirs[i][j],
                ),
            forall|i: int, j: int|
                0 <= i < num_pages && 0 <= j < HAYLEYFS_PAGESIZE ==> #[trigger] r@.data[i][j] == 0,
    {
        let mut inodes: Vec<HayleyFsInode> = Vec::new();
        let mut k: u64 = 0;
        while k < NUM_INODES
            invariant
                k <= NUM_INODES,
                inodes@.len() == k,
                forall|i: int| 0 <= i < k ==> #[trigger] inodes@[i] == zero_inode_spec(),
            decreases NUM_INODES - k,
        {
            inodes.push(HayleyFsInode::zeroed());
            k = k + 1;
        }
        let mut descs: Vec<PageDescriptor> = Vec::new();
        let mut dirs: Vec<Vec<HayleyFsDentry>> = Vec::new();
        let mut data: Vec<Vec<u8>> = Vec::new();
        let mut p: u64 = 0;
        while p < num_pages
            invariant
                p <= num_pages,
                descs@.len() == p,
                dirs@.len() == p,
                data@.len() == p,
                forall|i: int| 0 <= i < p ==> desc_free(#[trigger] descs@[i]),
                forall|i: int| 0 <= i < p ==> (#[trigger] dirs@[i])@.len() == DENTRIES_PER_PAGE,
                forall|i: int| 0 <= i < p ==> (#[trigger] data@[i])@.len() == HAYLEYFS_PAGESIZE,
                forall|i: int, j: int|
                    0 <= i < p && 0 <= j < DENTRIES_PER_PAGE ==> dentry_free(#[trigger] dirs@[i]@[j]),
                forall|i: int, j: int|
                    0 <= i < p && 0 <= j < HAYLEYFS_PAGESIZE ==> #[trigger] data@[i]@[j] == 0,
            decreases num_pages - p,
        {
            descs.push(PageDescriptor::zeroed());
            let mut d: Vec<HayleyFsDentry> = Vec::new();
            let mut s: usize = 0;
            while s < DENTRIES_PER_PAGE
                invariant
                    s <= DENTRIES_PER_PAGE,
                    d@.len() == s,
                    forall|j: int| 0 <= j < s ==> dentry_free(#[trigger] d@[j]),
                decreases DENTRIES_PER_PAGE - s,
            {
                d.push(HayleyFsDentry::zeroed());
                s = s + 1;
            }
            dirs.push(d);
            let mut b: Vec<u8> = Vec::new();
            let mut s: u64 = 0;
            while s < HAYLEYFS_PAGESIZE
                invariant
                    s <= HAYLEYFS_PAGESIZE,
                    b@.len() == s,
                    forall|j: int| 0 <= j < s ==> #[trigger] b@[j] == 0,
                decreases HAYLEYFS_PAGESIZE - s,
            {
                b.push(0);
                s = s + 1;
            }
            data.push(b);
            p = p + 1;
        }
        PmDevice { size, inodes, descs, dirs, data }
    }

    /// Number of pages past the reserved ones.
    pub fn num_pages(&self) -> (r: u64)
        requires
            self.wf(),
        ensures
            r == self@.descs.len(),
    {
        self.descs.len() as u64
    }

    /// Number of pages past the reserved ones, as an index bound.
    pub fn num_pages_usize(&self) -> (r: usize)
        requires
            self.wf(),
        ensures
            r == self@.descs.len(),
    {
        self.descs.len()
    }

    /// Index of page `page_no` in the descriptor table.
    pub fn page_index(&self, page_no: PageNum) -> (r: usize)
        requires
            self.wf(),
            self@.has_page(page_no as int),
        ensures
            r == page_no - DATA_PAGE_START,
    {
        let n = self.descs.len();
        let q = page_no - DATA_PAGE_START;
        assert(q < n);
        q as usize
    }

    pub fn get_size(&self) -> (r: i64)
        ensures
            r == self@.size,
    {
        self.size
    }

    pub(crate) fn set_size(&mut self, size: i64)
        ensures
            final(self)@ == (PmView { size, ..old(self)@ }),
    {
        self.size = size;
        proof {
            assert(final(self)@.dirs =~= old(self)@.dirs);
            assert(final(self)@.data =~= old(self)@.data);
        }
    }

    /// The inode in slot `ino`.
    pub fn inode(&self, ino: InodeNum) -> (r: HayleyFsInode)
        requires
            self.wf(),
            ino < NUM_INODES,
        ensures
            r == self@.inodes[ino as int],
    {
        self.inodes[ino as usize]
    }

    pub(crate) fn set_inode(&mut self, ino: InodeNum, i: HayleyFsInode)
        requires
            old(self).wf(),
            ino < NUM_INODES,
        ensures
            final(self).wf(),
            final(self)@ == (PmView { inodes: old(self)@.inodes.update(ino as int, i), ..old(self)@ }),
    {
        self.inodes.set(ino as usize, i);
        proof {
            assert(final(self)@.dirs =~= old(self)@.dirs);
            assert(final(self)@.data =~= old(self)@.data);
        }
    }

    /// The descriptor at table index `idx`.
    pub fn desc_at(&self, idx: usize) -> (r: PageDescriptor)
        requires
            self.wf(),
            idx < self@.descs.len(),
        ensures
            r == self@.descs[idx as int],
    {
        self.descs[idx]
    }

    pub(crate) fn set_desc(&mut self, idx: usize, d: PageDescriptor)
        requires
            old(self).wf(),
            idx < old(self)@.descs.len(),
        ensures
            final(self).wf(),
            final(self)@ == (PmView { descs: old(self)@.descs.update(idx as int, d), ..old(self)@ }),
    {
        self.descs.set(idx, d);
        proof {
            assert(final(self)@.dirs =~= old(self)@.dirs);
            assert(final(self)@.data =~= old(self)@.data);
        }
    }

    /// The entry in slot `slot` of the page at table index `idx`.
    pub fn dentry_at(&self, idx: usize, slot: usize) -> (r: HayleyFsDentry)
        requires
            self.wf(),
            idx < self@.descs.len(),
            slot < DENTRIES_PER_PAGE,
        ensures
            r == self@.dirs[idx as int][slot as int],
    {
        self.dirs[idx][slot]
    }

    pub(crate) fn set_dentry(&mut self, idx: usize, slot: usize, d: HayleyFsDentry)
        requires
            old(self).wf(),
            idx < old(self)@.descs.len(),
            slot < DENTRIES_PER_PAGE,
        ensures
            final(self).wf(),
            final(self)@ == (PmView {
                dirs: old(self)@.dirs.update(
                    idx as int,
                    old(self)@.dirs[idx as int].update(slot as int, d),
                ),
                ..old(self)@
            }),
    {
        let mut page = self.dirs.remove(idx);
        page.set(slot, d);
        self.dirs.insert(idx, page);
        proof {
            assert(final(self)@.dirs =~= old(self)@.dirs.update(
                idx as int,
                old(self)@.dirs[idx as int].update(slot as int, d),
            ));
            assert(final(self)@.data =~= old(self)@.data);
        }
    }

    /// The byte at `off` of the page at table index `idx`.
    pub fn byte_at(&self, idx: usize, off: usize) -> (r: u8)
        requires
            self.wf(),
            idx < self@.descs.len(),
            off < HAYLEYFS_PAGESIZE,
        ensures
            r == self@.data[idx as int][off as int],
    {
        assert(self@.data[idx as int].len() == HAYLEYFS_PAGESIZE);
        self.data[idx][off]
    }

    /// Copies the first `len` bytes of `bytes` into the page at table index
    /// `idx` from byte `off` on.
    pub(crate) fn write_bytes(&mut self, idx: usize, off: usize, bytes: &[u8], len: usize)
        requires
            old(self).wf(),
            idx < old(self)@.descs.len(),
            len <= bytes@.len(),
            off + len <= HAYLEYFS_PAGESIZE,
        ensures
            final(self).wf(),
            final(self)@ == (PmView {
                data: old(self)@.data.update(
                    idx as int,
                    splice(old(self)@.data[idx as int], off as int, bytes@.subrange(0, len as int)),
                ),
                ..old(self)@
            }),
    {
        assert(old(self)@.data[idx as int].len() == HAYLEYFS_PAGESIZE);
        let mut page = self.data.remove(idx);
        let ghost orig = page@;
        let mut i: usize = 0;
        while i < len
            invariant
                off + len <= HAYLEYFS_PAGESIZE,
                len <= bytes@.len(),
                orig.len() == HAYLEYFS_PAGESIZE,
                i <= len,
                page@ == splice(orig, off as int, bytes@.subrange(0, i as int)),
            decreases len - i,
        {
            page.set(off + i, bytes[i]);
            i = i + 1;
            proof {
                assert(page@ =~= splice(orig, off as int, bytes@.subrange(0, i as int)));
            }
        }
        self.data.insert(idx, page);
        proof {
            assert(final(self)@.data =~= old(self)@.data.update(
                idx as int,
                splice(old(self)@.data[idx as int], off as int, bytes@.subrange(0, len as int)),
            ));
            assert(final(self)@.dirs =~= old(self)@.dirs);
        }
    }

    /// Fills the page at table index `idx` with zeros.
    pub(crate) fn zero_page(&mut self, idx: usize)
        requires
            old(self).wf(),
            idx < old(self)@.descs.len(),
        ensures
            final(self).wf(),
            final(self)@ == (PmView {
                data: old(self)@.data.update(idx as int, Seq::new(HAYLEYFS_PAGESIZE as nat, |j: int| 0u8)),
                ..old(self)@
            }),
    {
        assert(old(self)@.data[idx as int].len() == HAYLEYFS_PAGESIZE);
        let mut page = self.data.remove(idx);
        let mut i: usize = 0;
        while i < HAYLEYFS_PAGESIZE as usize
            invariant
                page@.len() == HAYLEYFS_PAGESIZE,
                i <= HAYLEYFS_PAGESIZE,
                forall|j: int| 0 <= j < i ==> #[trigger] page@[j] == 0u8,
            decreases HAYLEYFS_PAGESIZE - i,
        {
            page.set(i, 0);
            i = i + 1;
        }
        proof {
            assert(page@ =~= Seq::new(HAYLEYFS_PAGESIZE as nat, |j: int| 0u8));
        }
        self.data.insert(idx, page);
        proof {
            assert(final(self)@.data =~= old(self)@.data.update(
                idx as int,
                Seq::new(HAYLEYFS_PAGESIZE as nat, |j: int| 0u8),
            ));
            assert(final(self)@.dirs =~= old(self)@.dirs);
        }
    }
}

/// `page` with `bytes` copied in from position `off`.
pub open spec fn splice(page: Seq<u8>, off: int, bytes: Seq<u8>) -> Seq<u8> {
    Seq::new(
        page.len(),
        |j: int|
            if off <= j < off + bytes.len() {
                bytes[j - off]
            } else {
                page[j]
            },
    )
}

/// Every object of the device `v`, which has `n` pages past the reserved
/// ones, is zero.
pub open spec fn zeroed_view(v: PmView, n: nat) -> bool {
    &&& v.size == 0
    &&& v.descs.len() == n
    &&& forall|i: int| 0 <= i < NUM_INODES ==> #[trigger] v.inodes[i] == zero_inode_spec()
    &&& forall|i: int| 0 <= i < n ==> desc_free(#[trigger] v.descs[i])
    &&& forall|i: int, j: int| 0 <= i < n && 0 <= j < DENTRIES_PER_PAGE ==> dentry_free(#[trigger] v.dirs[i][j])
    &&& forall|i: int, j: int| 0 <= i < n && 0 <= j < HAYLEYFS_PAGESIZE ==> #[trigger] v.data[i][j] == 0
}

/// Zeroes the whole device.
pub fn memset_nt(dev: &mut PmDevice)
    requires
        old(dev).wf(),
    ensures
        final(dev).wf(),
        zeroed_view(final(dev)@, old(dev)@.descs.len()),
{
    let n = dev.num_pages();
    *dev = PmDevice::new(0, n);
}

} // verus!
