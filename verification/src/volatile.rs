//! Volatile indexes rebuilt at mount: which entries and pages each inode
//! owns.
use crate::defs::{Error, FileName, InodeNum, PageNum, MAX_FILENAME_LEN, spec_name_bytes};
use crate::dentry::DentryWrapper;
use crate::page::{DataPageWrapper, DirPageWrapper};
use crate::pm::{DentryLoc, PmDevice};
use crate::sorted::SortedMap;
use crate::typestate::{Alloc, AddLink, AddPage, Clean, ClearIno, Complete, Dealloc, DecLink, DeletableDentry, DirInode, Dirty, Free, IncLink, IncSize, InFlight, Init, InitRenamePointer, Initialized, RegInode, Renamed, Renaming, SetRenamePointer, Start, ToUnmap, Writeable, Written};
use vstd::prelude::*;

verus! {

broadcast use vstd::array::group_array_axioms;

/// What the index keeps of a live directory entry: the inode it names,
/// where it lives on the device and its name.
#[derive(Clone, Copy)]
pub struct DentryInfo {
    pub ino: InodeNum,
    pub loc: DentryLoc,
    pub name: FileName,
}

impl DentryInfo {
    pub fn new(ino: InodeNum, loc: DentryLoc, name: FileName) -> (r: Self)
        ensures
            r == (DentryInfo { ino, loc, name }),
    {
        DentryInfo { ino, loc, name }
    }

    pub fn get_ino(&self) -> (r: InodeNum)
        ensures
            r == self.ino,
    {
        self.ino
    }

    pub fn get_loc(&self) -> (r: DentryLoc)
        ensures
            r == self.loc,
    {
        self.loc
    }

    pub fn get_name(&self) -> (r: FileName)
        ensures
            r == self.name,
    {
        self.name
    }
}

/// A directory page in the index.
#[derive(PartialEq, Eq, Structural, Clone, Copy, Debug)]
pub struct DirPageInfo {
    pub page_no: PageNum,
}

impl DirPageInfo {
    pub fn new(page_no: PageNum) -> (r: Self)
        ensures
            r.page_no == page_no,
    {
        DirPageInfo { page_no }
    }

    pub fn get_page_no(&self) -> (r: PageNum)
        ensures
            r == self.page_no,
    {
        self.page_no
    }
}

/// A data page in the index: its owner, its number and the file offset it
/// holds.
#[derive(PartialEq, Eq, Structural, Clone, Copy, Debug)]
pub struct DataPageInfo {
    pub owner: InodeNum,
    pub page_no: PageNum,
    pub offset: u64,
}

impl DataPageInfo {
    pub fn new(owner: InodeNum, page_no: PageNum, offset: u64) -> (r: Self)
        ensures
            r == (DataPageInfo { owner, page_no, offset }),
    {
        DataPageInfo { owner, page_no, offset }
    }

    pub fn get_page_no(&self) -> (r: PageNum)
        ensures
            r == self.page_no,
    {
        self.page_no
    }
}

/// Both levels of a two-level index are well formed.
pub open spec fn nested_wf<K2: crate::sorted::MapKey, V>(m: SortedMap<InodeNum, SortedMap<K2, V>>) -> bool {
    &&& m.wf()
    &&& forall|k: InodeNum| #[trigger] m.view().contains_key(k) ==> m.view()[k].wf()
}

/// Maps each directory inode to the live entries found in its pages.
pub struct InoDentryTree {
    map: SortedMap<InodeNum, SortedMap<FileName, DentryInfo>>,
}

impl InoDentryTree {
    pub closed spec fn wf(&self) -> bool {
        nested_wf(self.map)
    }

    pub closed spec fn view(&self) -> Map<InodeNum, Map<FileName, DentryInfo>> {
        Map::new(|k: InodeNum| self.map.view().contains_key(k), |k: InodeNum| self.map.view()[k].view())
    }

    pub fn new() -> (r: Result<Self, Error>)
        ensures
            r matches Ok(t) && t.wf() && t.view() == Map::<InodeNum, Map<FileName, DentryInfo>>::empty(),
    {
        let t = InoDentryTree { map: SortedMap::new() };
        proof {
            assert(t.view() =~= Map::<InodeNum, Map<FileName, DentryInfo>>::empty());
        }
        Ok(t)
    }

    /// Records entry `dentry` under directory `ino`, replacing an entry of
    /// the same name.
    pub fn insert(&mut self, ino: InodeNum, dentry: DentryInfo) -> (r: Result<(), Error>)
        requires
            old(self).wf(),
        ensures
            final(self).wf(),
            r is Ok,
            final(self).view() == old(self).view().insert(
                ino,
                (if old(self).view().contains_key(ino) {
                    old(self).view()[ino]
                } else {
                    Map::empty()
                }).insert(dentry.name, dentry),
            ),
    {
        let node = self.map.remove(&ino);
        let mut tree = match node {
            Some(t) => t,
            None => SortedMap::new(),
        };
        tree.insert(dentry.name, dentry);
        self.map.insert(ino, tree);
        proof {
            assert forall|k: InodeNum| #[trigger] self.map.view().contains_key(k) implies self.map.view()[k].wf() by {
                if k != ino {
                    assert(old(self).map.view().contains_key(k));
                }
            }
            assert(self.view() =~= old(self).view().insert(
                ino,
                (if old(self).view().contains_key(ino) {
                    old(self).view()[ino]
                } else {
                    Map::empty()
                }).insert(dentry.name, dentry),
            ));
        }
        Ok(())
    }

    /// Takes out the entries recorded under directory `ino`.
    pub fn remove(&mut self, ino: InodeNum) -> (r: Option<SortedMap<FileName, DentryInfo>>)
        requires
            old(self).wf(),
        ensures
            final(self).wf(),
            final(self).view() == old(self).view().remove(ino),
            (match r {
                Some(t) => old(self).view().contains_key(ino) && t.wf() && t.view() == old(self).view()[ino],
                None => !old(self).view().contains_key(ino),
            }),
    {
        let r = self.map.remove(&ino);
        proof {
            assert forall|k: InodeNum| #[trigger] self.map.view().contains_key(k) implies self.map.view()[k].wf() by {
                assert(old(self).map.view().contains_key(k));
            }
            assert(self.view() =~= old(self).view().remove(ino));
        }
        r
    }
}

/// The data pages of one file, by the file offset they hold.
pub struct HayleyFsRegInodeInfo {
    ino: InodeNum,
    pages: SortedMap<u64, DataPageInfo>,
}

impl HayleyFsRegInodeInfo {
    pub closed spec fn wf(&self) -> bool {
        self.pages.wf()
    }

    pub closed spec fn spec_ino(&self) -> InodeNum {
        self.ino
    }

    /// The pages, by offset.
    pub closed spec fn view(&self) -> Map<u64, DataPageInfo> {
        self.pages.view()
    }

    /// The pages in increasing offset order.
    pub closed spec fn page_seq(&self) -> Seq<DataPageInfo> {
        self.pages.val_seq()
    }

    /// The offsets in increasing order.
    pub closed spec fn offset_seq(&self) -> Seq<u64> {
        self.pages.key_seq()
    }

    pub proof fn lemma_pages(&self)
        requires
            self.wf(),
        ensures
            self.offset_seq().len() == self.page_seq().len(),
            self.view().dom() == self.offset_seq().to_set(),
            forall|i: int|
                0 <= i < self.page_seq().len() ==> #[trigger] self.view()[self.offset_seq()[i]] == self.page_seq()[i],
            forall|k: u64|
                #[trigger] self.view().contains_key(k) ==> exists|i: int|
                    0 <= i < self.page_seq().len() && self.offset_seq()[i] == k && self.page_seq()[i] == self.view()[k],
    {
        self.pages.lemma_wf();
        assert forall|k: u64| #[trigger] self.view().contains_key(k) implies exists|i: int|
            0 <= i < self.page_seq().len() && self.offset_seq()[i] == k && self.page_seq()[i] == self.view()[k] by {
            assert(self.offset_seq().to_set().contains(k));
            let i = self.offset_seq().index_of(k);
            assert(self.offset_seq()[i] == k);
        }
    }

    pub fn new(ino: InodeNum) -> (r: Result<Self, Error>)
        ensures
            r matches Ok(i) && i.wf() && i.spec_ino() == ino && i.view() == Map::<u64, DataPageInfo>::empty(),
    {
        Ok(HayleyFsRegInodeInfo { ino, pages: SortedMap::new() })
    }

    pub fn new_from_tree(ino: InodeNum, tree: SortedMap<u64, DataPageInfo>) -> (r: Result<Self, Error>)
        requires
            tree.wf(),
        ensures
            r matches Ok(i) && i.wf() && i.spec_ino() == ino && i.view() == tree.view(),
    {
        Ok(HayleyFsRegInodeInfo { ino, pages: tree })
    }

    pub fn get_ino(&self) -> (r: InodeNum)
        ensures
            r == self.spec_ino(),
    {
        self.ino
    }

    /// Records page `page`, filed under the offset its descriptor holds.
    pub fn insert<State: Initialized>(&mut self, dev: &PmDevice, page: &DataPageWrapper<Clean, State>) -> (r:
        Result<(), Error>)
        requires
            old(self).wf(),
            dev.wf(),
            dev@.has_page(page.spec_page_no() as int),
        ensures
            final(self).wf(),
            final(self).spec_ino() == old(self).spec_ino(),
            r is Ok,
            ({
                let offset = dev@.desc(page.spec_page_no() as int).offset;
                final(self).view() == old(self).view().insert(
                    offset,
                    DataPageInfo { owner: old(self).spec_ino(), page_no: page.spec_page_no(), offset },
                )
            }),
    {
        let offset = page.get_offset(dev);
        self.pages.insert(offset, DataPageInfo { owner: self.ino, page_no: page.get_page_no(), offset });
        Ok(())
    }

    /// The page holding file offset `offset`, which must be page aligned.
    pub fn find(&self, offset: u64) -> (r: Option<DataPageInfo>)
        requires
            self.wf(),
        ensures
            (match r {
                Some(p) => self.view().contains_key(offset) && p == self.view()[offset],
                None => !self.view().contains_key(offset),
            }),
    {
        match self.pages.get(&offset) {
            Some(p) => Some(*p),
            None => None,
        }
    }

    /// A copy of the page index.
    pub fn get_all_pages(&self) -> (r: Result<SortedMap<u64, DataPageInfo>, Error>)
        requires
            self.wf(),
        ensures
            r matches Ok(t) && t.wf() && t.view() == self.view() && t.val_seq() == self.page_seq()
                && t.key_seq() == self.offset_seq(),
    {
        Ok(self.pages.copy())
    }
}

/// The pages and live entries of one directory.
pub struct HayleyFsDirInodeInfo {
    ino: InodeNum,
    pages: SortedMap<PageNum, ()>,
    dentries: SortedMap<FileName, DentryInfo>,
}

impl HayleyFsDirInodeInfo {
    pub closed spec fn wf(&self) -> bool {
        self.pages.wf() && self.dentries.wf()
    }

    pub closed spec fn spec_ino(&self) -> InodeNum {
        self.ino
    }

    /// The directory's pages.
    pub closed spec fn page_set(&self) -> Set<PageNum> {
        self.pages.view().dom()
    }

    /// The directory's pages in increasing order.
    pub closed spec fn page_seq(&self) -> Seq<PageNum> {
        self.pages.key_seq()
    }

    /// The directory's live entries by name.
    pub closed spec fn dentry_map(&self) -> Map<FileName, DentryInfo> {
        self.dentries.view()
    }

    /// The entries in increasing name order.
    pub closed spec fn dentry_seq(&self) -> Seq<DentryInfo> {
        self.dentries.val_seq()
    }

    /// The names of the entries in increasing order.
    pub closed spec fn dentry_key_seq(&self) -> Seq<FileName> {
        self.dentries.key_seq()
    }

    pub proof fn lemma_wf(&self)
        requires
            self.wf(),
        ensures
            self.page_set() == self.page_seq().to_set(),
            crate::sorted::strictly_sorted(self.page_seq()),
            self.dentry_map().dom().finite(),
            self.dentry_map().len() == self.dentry_seq().len(),
            self.dentry_key_seq().len() == self.dentry_seq().len(),
            forall|i: int| 0 <= i < self.dentry_seq().len() ==> #[trigger] self.dentry_map().contains_key(
                self.dentry_key_seq()[i],
            ) && self.dentry_map()[self.dentry_key_seq()[i]] == self.dentry_seq()[i],
    {
        self.pages.lemma_wf();
        self.dentries.lemma_wf();
        assert forall|i: int| 0 <= i < self.dentry_seq().len() implies #[trigger] self.dentry_map().contains_key(
            self.dentries.key_seq()[i],
        ) && self.dentry_map()[self.dentries.key_seq()[i]] == self.dentry_seq()[i] by {
            assert(self.dentries.key_seq().to_set().contains(self.dentries.key_seq()[i]));
        }
    }

    pub fn new(ino: InodeNum) -> (r: Result<Self, Error>)
        ensures
            r matches Ok(i) && i.wf() && i.spec_ino() == ino && i.page_set() == Set::<PageNum>::empty()
                && i.dentry_map() == Map::<FileName, DentryInfo>::empty(),
    {
        Ok(HayleyFsDirInodeInfo { ino, pages: SortedMap::new(), dentries: SortedMap::new() })
    }

    pub fn new_from_tree(
        ino: InodeNum,
        page_tree: SortedMap<PageNum, ()>,
        dentry_tree: SortedMap<FileName, DentryInfo>,
    ) -> (r: Result<Self, Error>)
        requires
            page_tree.wf(),
            dentry_tree.wf(),
        ensures
            r matches Ok(i) && i.wf() && i.spec_ino() == ino && i.page_set() == page_tree.view().dom()
                && i.dentry_map() == dentry_tree.view(),
    {
        Ok(HayleyFsDirInodeInfo { ino, pages: page_tree, dentries: dentry_tree })
    }

    pub fn get_ino(&self) -> (r: InodeNum)
        ensures
            r == self.spec_ino(),
    {
        self.ino
    }

    /// Records page `page` as one of the directory's pages.
    pub fn insert<State: Initialized>(&mut self, page: &DirPageWrapper<Clean, State>) -> (r: Result<
        (),
        Error,
    >)
        requires
            old(self).wf(),
        ensures
            final(self).wf(),
            r is Ok,
            final(self).spec_ino() == old(self).spec_ino(),
            final(self).page_set() == old(self).page_set().insert(page.spec_page_no()),
            final(self).dentry_map() == old(self).dentry_map(),
    {
        self.pages.insert(page.get_page_no(), ());
        proof {
            assert(final(self).page_set() =~= old(self).page_set().insert(page.spec_page_no()));
        }
        Ok(())
    }

    /// Records each page of `new_pages`.
    pub fn insert_page_infos(&mut self, new_pages: SortedMap<PageNum, ()>) -> (r: Result<(), Error>)
        requires
            old(self).wf(),
            new_pages.wf(),
        ensures
            final(self).wf(),
            r is Ok,
            final(self).spec_ino() == old(self).spec_ino(),
            final(self).page_set() == old(self).page_set().union(new_pages.view().dom()),
            final(self).dentry_map() == old(self).dentry_map(),
    {
        let keys = new_pages.keys();
        proof {
            new_pages.lemma_wf();
        }
        let mut i: usize = 0;
        while i < keys.len()
            invariant
                self.wf(),
                self.spec_ino() == old(self).spec_ino(),
                self.dentry_map() == old(self).dentry_map(),
                keys@ == new_pages.key_seq(),
                new_pages.view().dom() == new_pages.key_seq().to_set(),
                i <= keys@.len(),
                self.page_set() == old(self).page_set().union(keys@.subrange(0, i as int).to_set()),
            decreases keys@.len() - i,
        {
            self.pages.insert(keys[i], ());
            proof {
                crate::sorted::lemma_prefix_to_set(keys@, i as int);
                assert(self.page_set() =~= old(self).page_set().union(keys@.subrange(0, i + 1).to_set()));
            }
            i = i + 1;
        }
        proof {
            assert(keys@.subrange(0, keys@.len() as int) =~= keys@);
        }
        Ok(())
    }

    /// The first page, in increasing order, that has a free entry.
    pub fn find_page_with_free_dentry(&self, dev: &PmDevice) -> (r: Result<Option<DirPageInfo>, Error>)
        requires
            self.wf(),
            dev.wf(),
            forall|p: PageNum| #[trigger] self.page_set().contains(p) ==> dev@.has_page(p as int),
        ensures
            (match r {
                Ok(Some(info)) => exists|k: int|
                    0 <= k < self.page_seq().len() && self.page_seq()[k] == info.page_no
                        && crate::page::dir_page_has_free(dev@, info.page_no as int) && (forall|j: int|
                        0 <= j < k ==> !crate::page::dir_page_has_free(dev@, #[trigger] self.page_seq()[j] as int)
                            && crate::page::dir_page_readable(dev@, self.page_seq()[j] as int))
                        && crate::page::dir_page_readable(dev@, info.page_no as int),
                Ok(None) => forall|j: int|
                    0 <= j < self.page_seq().len() ==> !crate::page::dir_page_has_free(
                        dev@,
                        #[trigger] self.page_seq()[j] as int,
                    ) && crate::page::dir_page_readable(dev@, self.page_seq()[j] as int),
                Err(e) => (e == Error::ENOTDIR || e == Error::EPERM) && exists|k: int|
                    0 <= k < self.page_seq().len() && !crate::page::dir_page_readable(
                        dev@,
                        #[trigger] self.page_seq()[k] as int,
                    ),
            }),
    {
        proof {
            self.pages.lemma_wf();
        }
        let n = self.pages.len();
        let mut i: usize = 0;
        while i < n
            invariant
                self.wf(),
                dev.wf(),
                n == self.page_seq().len(),
                self.page_set() == self.page_seq().to_set(),
                forall|p: PageNum| #[trigger] self.page_set().contains(p) ==> dev@.has_page(p as int),
                i <= n,
                forall|j: int|
                    0 <= j < i ==> !crate::page::dir_page_has_free(dev@, #[trigger] self.page_seq()[j] as int)
                        && crate::page::dir_page_readable(dev@, self.page_seq()[j] as int),
            decreases n - i,
        {
            let page_no = self.pages.key_at(i);
            proof {
                assert(self.page_seq().to_set().contains(page_no));
            }
            let p = DirPageWrapper::from_page_no(dev, page_no)?;
            if p.has_free_space(dev)? {
                return Ok(Some(DirPageInfo { page_no }));
            }
            i = i + 1;
        }
        Ok(None)
    }

    /// A copy of the directory's page set.
    pub fn get_all_pages(&self) -> (r: Result<SortedMap<PageNum, ()>, Error>)
        requires
            self.wf(),
        ensures
            r matches Ok(t) && t.wf() && t.view().dom() == self.page_set() && t.key_seq() == self.page_seq(),
    {
        Ok(self.pages.copy())
    }

    /// Records entry `dentry`, replacing an entry of the same name.
    pub fn insert_dentry(&mut self, dentry: DentryInfo) -> (r: Result<(), Error>)
        requires
            old(self).wf(),
        ensures
            final(self).wf(),
            r is Ok,
            final(self).spec_ino() == old(self).spec_ino(),
            final(self).page_set() == old(self).page_set(),
            final(self).page_seq() == old(self).page_seq(),
            final(self).dentry_map() == old(self).dentry_map().insert(dentry.name, dentry),
    {
        self.dentries.insert(dentry.name, dentry);
        Ok(())
    }

    /// Records every entry of `new_dentries`.
    pub fn insert_dentries(&mut self, new_dentries: SortedMap<FileName, DentryInfo>) -> (r: Result<(), Error>)
        requires
            old(self).wf(),
            new_dentries.wf(),
        ensures
            final(self).wf(),
            r is Ok,
            final(self).spec_ino() == old(self).spec_ino(),
            final(self).page_set() == old(self).page_set(),
            final(self).dentry_map() == old(self).dentry_map().union_prefer_right(new_dentries.view()),
    {
        proof {
            new_dentries.lemma_wf();
        }
        let n = new_dentries.len();
        let mut i: usize = 0;
        while i < n
            invariant
                self.wf(),
                new_dentries.wf(),
                self.spec_ino() == old(self).spec_ino(),
                self.page_set() == old(self).page_set(),
                n == new_dentries.key_seq().len(),
                n == new_dentries.val_seq().len(),
                new_dentries.view().dom() == new_dentries.key_seq().to_set(),
                forall|j: int|
                    0 <= j < new_dentries.key_seq().len() ==> #[trigger] new_dentries.view()[new_dentries.key_seq()[j]]
                        == new_dentries.val_seq()[j],
                i <= n,
                self.dentry_map() == old(self).dentry_map().union_prefer_right(
                    new_dentries.view().restrict(new_dentries.key_seq().subrange(0, i as int).to_set()),
                ),
            decreases n - i,
        {
            let name = new_dentries.key_at(i);
            let d = *new_dentries.value_at(i);
            self.dentries.insert(name, d);
            proof {
                let ks = new_dentries.key_seq();
                crate::sorted::lemma_prefix_to_set(ks, i as int);
                assert(self.dentry_map() =~= old(self).dentry_map().union_prefer_right(
                    new_dentries.view().restrict(ks.subrange(0, i + 1).to_set()),
                ));
            }
            i = i + 1;
        }
        proof {
            let ks = new_dentries.key_seq();
            assert(ks.subrange(0, n as int) =~= ks);
            assert(new_dentries.view().restrict(ks.to_set()) =~= new_dentries.view());
        }
        Ok(())
    }

    /// The entry named `name`.
    pub fn lookup_dentry(&self, name: &[u8]) -> (r: Option<DentryInfo>)
        requires
            self.wf(),
            name@.len() <= MAX_FILENAME_LEN,
        ensures
            (match r {
                Some(d) => exists|k: FileName| k.bytes@ == spec_name_bytes(name@) && #[trigger] self.dentry_map().contains_key(k) && d == self.dentry_map()[k],
                None => forall|k: FileName| k.bytes@ == spec_name_bytes(name@) ==> !#[trigger] self.dentry_map().contains_key(k),
            }),
    {
        let full_filename = FileName::from_bytes(name);
        proof {
            assert forall|k: FileName| k.bytes@ == spec_name_bytes(name@) implies k == full_filename by {
                assert(k.bytes@ =~= full_filename.bytes@);
                assert(k.bytes == full_filename.bytes);
            }
        }
        match self.dentries.get(&full_filename) {
            Some(d) => {
                proof {
                    assert(self.dentry_map().contains_key(full_filename));
                }
                Some(*d)
            },
            None => None,
        }
    }

    /// The entry named by the stored name `name`.
    pub fn lookup_name(&self, name: &FileName) -> (r: Option<DentryInfo>)
        requires
            self.wf(),
        ensures
            (match r {
                Some(d) => self.dentry_map().contains_key(*name) && d == self.dentry_map()[*name],
                None => !self.dentry_map().contains_key(*name),
            }),
    {
        match self.dentries.get(name) {
            Some(d) => Some(*d),
            None => None,
        }
    }

    /// Every entry, in increasing name order.
    pub fn get_all_dentries(&self) -> (r: Result<Vec<DentryInfo>, Error>)
        requires
            self.wf(),
        ensures
            r matches Ok(v) && v@ == self.dentry_seq(),
    {
        Ok(self.dentries.values())
    }

    /// Forgets the entry of `dentry`'s name.
    pub fn delete_dentry(&mut self, dentry: DentryInfo) -> (r: Result<(), Error>)
        requires
            old(self).wf(),
        ensures
            final(self).wf(),
            r is Ok,
            final(self).spec_ino() == old(self).spec_ino(),
            final(self).page_set() == old(self).page_set(),
            final(self).page_seq() == old(self).page_seq(),
            final(self).dentry_map() == old(self).dentry_map().remove(dentry.name),
    {
        self.dentries.remove(&dentry.name);
        Ok(())
    }

    /// Records the entry `new_dentry` and forgets the entry named
    /// `old_dentry_name`, in one step.
    pub fn atomic_add_and_delete_dentry(
        &mut self,
        dev: &PmDevice,
        new_dentry: &DentryWrapper<Clean, Complete>,
        old_dentry_name: &FileName,
    ) -> (r: Result<(), Error>)
        requires
            old(self).wf(),
            dev.wf(),
            dev@.valid_loc(new_dentry.spec_loc()),
        ensures
            final(self).wf(),
            r is Ok,
            final(self).spec_ino() == old(self).spec_ino(),
            final(self).page_set() == old(self).page_set(),
            final(self).page_seq() == old(self).page_seq(),
            ({
                let d = dev@.dentry(new_dentry.spec_loc());
                final(self).dentry_map() == old(self).dentry_map().insert(
                    d.name,
                    DentryInfo { ino: d.ino, loc: new_dentry.spec_loc(), name: d.name },
                ).remove(*old_dentry_name)
            }),
    {
        let new_dentry_info = new_dentry.get_dentry_info(dev);
        self.dentries.insert(new_dentry_info.name, new_dentry_info);
        self.dentries.remove(old_dentry_name);
        Ok(())
    }

    /// Whether the directory has no live entries.
    pub fn is_empty(&self) -> (r: bool)
        requires
            self.wf(),
        ensures
            r == self.dentry_map().dom().is_empty(),
    {
        self.dentries.is_empty()
    }

    /// Whether the directory has live entries.
    pub fn has_dentries(&self) -> (r: bool)
        requires
            self.wf(),
        ensures
            r == !self.dentry_map().dom().is_empty(),
    {
        !self.dentries.is_empty()
    }
}

/// Maps each file inode to its data pages, for inodes not in memory.
pub struct InoDataPageTree {
    tree: SortedMap<InodeNum, SortedMap<u64, DataPageInfo>>,
}

impl InoDataPageTree {
    pub closed spec fn wf(&self) -> bool {
        nested_wf(self.tree)
    }

    pub closed spec fn view(&self) -> Map<InodeNum, Map<u64, DataPageInfo>> {
        Map::new(|k: InodeNum| self.tree.view().contains_key(k), |k: InodeNum| self.tree.view()[k].view())
    }

    pub fn new() -> (r: Result<Self, Error>)
        ensures
            r matches Ok(t) && t.wf() && t.view() == Map::<InodeNum, Map<u64, DataPageInfo>>::empty(),
    {
        let t = InoDataPageTree { tree: SortedMap::new() };
        proof {
            assert(t.view() =~= Map::<InodeNum, Map<u64, DataPageInfo>>::empty());
        }
        Ok(t)
    }

    /// Records `pages` as the pages of file `ino`, replacing earlier ones.
    pub fn insert_inode(&mut self, ino: InodeNum, pages: SortedMap<u64, DataPageInfo>) -> (r: Result<(), Error>)
        requires
            old(self).wf(),
            pages.wf(),
        ensures
            final(self).wf(),
            r is Ok,
            final(self).view() == old(self).view().insert(ino, pages.view()),
    {
        let ghost pv = pages.view();
        self.tree.insert(ino, pages);
        proof {
            assert forall|k: InodeNum| #[trigger] self.tree.view().contains_key(k) implies self.tree.view()[k].wf() by {
                if k != ino {
                    assert(old(self).tree.view().contains_key(k));
                }
            }
            assert(self.view() =~= old(self).view().insert(ino, pv));
        }
        Ok(())
    }

    /// Takes out the pages recorded for file `ino`.
    pub fn remove(&mut self, ino: InodeNum) -> (r: Option<SortedMap<u64, DataPageInfo>>)
        requires
            old(self).wf(),
        ensures
            final(self).wf(),
            final(self).view() == old(self).view().remove(ino),
            (match r {
                Some(t) => old(self).view().contains_key(ino) && t.wf() && t.view() == old(self).view()[ino],
                None => !old(self).view().contains_key(ino),
            }),
    {
        let r = self.tree.remove(&ino);
        proof {
            assert forall|k: InodeNum| #[trigger] self.tree.view().contains_key(k) implies self.tree.view()[k].wf() by {
                assert(old(self).tree.view().contains_key(k));
            }
            assert(self.view() =~= old(self).view().remove(ino));
        }
        r
    }
}

/// Maps each directory inode to its pages, for inodes not in memory.
pub struct InoDirPageTree {
    tree: SortedMap<InodeNum, SortedMap<PageNum, ()>>,
}

impl InoDirPageTree {
    pub closed spec fn wf(&self) -> bool {
        nested_wf(self.tree)
    }

    pub closed spec fn view(&self) -> Map<InodeNum, Set<PageNum>> {
        Map::new(|k: InodeNum| self.tree.view().contains_key(k), |k: InodeNum| self.tree.view()[k].view().dom())
    }

    pub fn new() -> (r: Result<Self, Error>)
        ensures
            r matches Ok(t) && t.wf() && t.view() == Map::<InodeNum, Set<PageNum>>::empty(),
    {
        let t = InoDirPageTree { tree: SortedMap::new() };
        proof {
            assert(t.view() =~= Map::<InodeNum, Set<PageNum>>::empty());
        }
        Ok(t)
    }

    /// Records `pages` as the pages of directory `ino`, replacing earlier ones.
    pub fn insert_inode(&mut self, ino: InodeNum, pages: SortedMap<PageNum, ()>) -> (r: Result<(), Error>)
        requires
            old(self).wf(),
            pages.wf(),
        ensures
            final(self).wf(),
            r is Ok,
            final(self).view() == old(self).view().insert(ino, pages.view().dom()),
    {
        let ghost pv = pages.view().dom();
        self.tree.insert(ino, pages);
        proof {
            assert forall|k: InodeNum| #[trigger] self.tree.view().contains_key(k) implies self.tree.view()[k].wf() by {
                if k != ino {
                    assert(old(self).tree.view().contains_key(k));
                }
            }
            assert(self.view() =~= old(self).view().insert(ino, pv));
        }
        Ok(())
    }

    /// Adds page `page` to the pages of directory `ino`.
    pub fn insert_one(&mut self, ino: InodeNum, page: DirPageInfo) -> (r: Result<(), Error>)
        requires
            old(self).wf(),
        ensures
            final(self).wf(),
            r is Ok,
            final(self).view() == old(self).view().insert(
                ino,
                (if old(self).view().contains_key(ino) {
                    old(self).view()[ino]
                } else {
                    Set::empty()
                }).insert(page.page_no),
            ),
    {
        let entry = self.tree.remove(&ino);
        let mut t = match entry {
            Some(t) => t,
            None => SortedMap::new(),
        };
        t.insert(page.page_no, ());
        self.tree.insert(ino, t);
        proof {
            assert forall|k: InodeNum| #[trigger] self.tree.view().contains_key(k) implies self.tree.view()[k].wf() by {
                if k != ino {
                    assert(old(self).tree.view().contains_key(k));
                }
            }
            assert(self.view()[ino] =~= (if old(self).view().contains_key(ino) {
                old(self).view()[ino]
            } else {
                Set::empty()
            }).insert(page.page_no));
            assert(self.view() =~= old(self).view().insert(
                ino,
                (if old(self).view().contains_key(ino) {
                    old(self).view()[ino]
                } else {
                    Set::empty()
                }).insert(page.page_no),
            ));
        }
        Ok(())
    }

    /// Takes out the pages recorded for directory `ino`.
    pub fn remove(&mut self, ino: InodeNum) -> (r: Option<SortedMap<PageNum, ()>>)
        requires
            old(self).wf(),
        ensures
            final(self).wf(),
            final(self).view() == old(self).view().remove(ino),
            (match r {
                Some(t) => old(self).view().contains_key(ino) && t.wf() && t.view().dom() == old(self).view()[ino],
                None => !old(self).view().contains_key(ino),
            }),
    {
        let r = self.tree.remove(&ino);
        proof {
            assert forall|k: InodeNum| #[trigger] self.tree.view().contains_key(k) implies self.tree.view()[k].wf() by {
                assert(old(self).tree.view().contains_key(k));
            }
            assert(self.view() =~= old(self).view().remove(ino));
        }
        r
    }
}

} // verus!
