//! A page allocator kept as a bitmap in memory, and an index from files to
//! the pages that hold their data, for a layout whose first pages hold the
//! super block and the inode table.
use crate::defs::{Error, InodeNum, PageNum};
use crate::sorted::SortedMap;
use crate::volatile::nested_wf;
use vstd::prelude::*;

verus! {

/// The page holding the super block.
pub const SUPER_BLOCK_PAGE: u64 = 0;

/// The first page of the inode table.
pub const INODE_TABLE_START: u64 = 1;

/// The number of pages of the inode table.
pub const INODE_TABLE_SIZE: u64 = 4;

/// The number of pages the bitmap searches: a device of 1 GiB in pages of
/// 4 KiB.
pub const PAGE_BITMAP_SIZE: u64 = 262144;

/// The number of bits the bitmap holds: one byte for each page searched.
pub open spec fn bitmap_bits() -> int {
    8 * PAGE_BITMAP_SIZE
}

/// The pages reserved for the super block and the inode table.
pub open spec fn reserved_pages() -> Set<u64> {
    Set::new(|p: u64| p == SUPER_BLOCK_PAGE || INODE_TABLE_START <= p < INODE_TABLE_START + INODE_TABLE_SIZE)
}

/// Allocates page numbers by marking them in a bitmap.
pub struct PageBitmap {
    bits: Vec<bool>,
}

impl PageBitmap {
    pub closed spec fn wf(&self) -> bool {
        self.bits@.len() == bitmap_bits()
    }

    /// The pages marked in use.
    pub closed spec fn allocated(&self) -> Set<u64> {
        Set::new(|p: u64| p < bitmap_bits() && self.bits@[p as int])
    }

    /// A bitmap with the super block page and the inode table pages marked.
    pub fn new() -> (r: Result<Self, Error>)
        ensures
            r matches Ok(b) && b.wf() && b.allocated() == reserved_pages(),
    {
        let mut bits: Vec<bool> = Vec::new();
        let n: u64 = 8 * PAGE_BITMAP_SIZE;
        let mut i: u64 = 0;
        while i < n
            invariant
                n == bitmap_bits(),
                i <= n,
                bits@.len() == i,
                forall|j: int| 0 <= j < i ==> !#[trigger] bits@[j],
            decreases n - i,
        {
            bits.push(false);
            i = i + 1;
        }
        bits.set(SUPER_BLOCK_PAGE as usize, true);
        let mut p: u64 = INODE_TABLE_START;
        while p < INODE_TABLE_START + INODE_TABLE_SIZE
            invariant
                bits@.len() == bitmap_bits(),
                INODE_TABLE_START <= p <= INODE_TABLE_START + INODE_TABLE_SIZE,
                forall|j: int|
                    0 <= j < bitmap_bits() ==> (#[trigger] bits@[j] <==> (j == SUPER_BLOCK_PAGE || INODE_TABLE_START <= j < p)),
            decreases INODE_TABLE_START + INODE_TABLE_SIZE - p,
        {
            bits.set(p as usize, true);
            p = p + 1;
        }
        let b = PageBitmap { bits };
        proof {
            assert(b.allocated() =~= reserved_pages());
        }
        Ok(b)
    }

    /// Hands out the first page not in use among the pages searched, or the
    /// page just past them when all of those are in use; refused when that
    /// page is in use too.
    pub fn alloc_page(&mut self) -> (r: Result<PageNum, Error>)
        requires
            old(self).wf(),
        ensures
            final(self).wf(),
            (match r {
                Ok(p) => {
                    &&& p <= PAGE_BITMAP_SIZE
                    &&& !old(self).allocated().contains(p)
                    &&& forall|q: u64| q < p ==> #[trigger] old(self).allocated().contains(q)
                    &&& final(self).allocated() == old(self).allocated().insert(p)
                },
                Err(e) => {
                    &&& e == Error::EINVAL
                    &&& forall|q: u64| q <= PAGE_BITMAP_SIZE ==> #[trigger] old(self).allocated().contains(q)
                    &&& final(self).allocated() == old(self).allocated()
                },
            }),
    {
        let mut page_num: u64 = 0;
        while page_num < PAGE_BITMAP_SIZE && self.bits[page_num as usize]
            invariant
                self.wf(),
                page_num <= PAGE_BITMAP_SIZE,
                forall|q: int| 0 <= q < page_num ==> #[trigger] self.bits@[q],
            decreases PAGE_BITMAP_SIZE - page_num,
        {
            page_num = page_num + 1;
        }
        if page_num > PAGE_BITMAP_SIZE {
            return Err(Error::ENOSPC);
        }
        let set = self.bits[page_num as usize];
        if set {
            proof {
                assert forall|q: u64| q <= PAGE_BITMAP_SIZE implies #[trigger] old(self).allocated().contains(q) by {
                    assert(self.bits@[q as int]);
                }
            }
            Err(Error::EINVAL)
        } else {
            self.bits.set(page_num as usize, true);
            proof {
                assert forall|q: u64| q < page_num implies #[trigger] old(self).allocated().contains(q) by {
                    assert(old(self).bits@[q as int]);
                }
                assert(self.allocated() =~= old(self).allocated().insert(page_num));
            }
            Ok(page_num)
        }
    }

    /// Takes back page `page_num`; a page past those searched, or a page not
    /// in use, is refused.
    pub fn dealloc_page(&mut self, page_num: PageNum) -> (r: Result<(), Error>)
        requires
            old(self).wf(),
        ensures
            final(self).wf(),
            r is Ok <==> page_num < PAGE_BITMAP_SIZE && old(self).allocated().contains(page_num),
            r is Err ==> r == Err::<(), Error>(Error::EINVAL) && final(self).allocated() == old(self).allocated(),
            r is Ok ==> final(self).allocated() == old(self).allocated().remove(page_num),
    {
        if page_num >= PAGE_BITMAP_SIZE {
            return Err(Error::EINVAL);
        }
        let set = self.bits[page_num as usize];
        if !set {
            Err(Error::EINVAL)
        } else {
            self.bits.set(page_num as usize, false);
            proof {
                assert(self.allocated() =~= old(self).allocated().remove(page_num));
            }
            Ok(())
        }
    }
}

/// Maps each file to the pages holding its data, by offset.
pub struct RBDataTree {
    tree: SortedMap<InodeNum, SortedMap<u64, PageNum>>,
}

impl RBDataTree {
    pub closed spec fn wf(&self) -> bool {
        nested_wf(self.tree)
    }

    pub closed spec fn view(&self) -> Map<InodeNum, Map<u64, PageNum>> {
        Map::new(|k: InodeNum| self.tree.view().contains_key(k), |k: InodeNum| self.tree.view()[k].view())
    }

    pub fn new() -> (r: Self)
        ensures
            r.wf(),
            r.view() == Map::<InodeNum, Map<u64, PageNum>>::empty(),
    {
        let t = RBDataTree { tree: SortedMap::new() };
        proof {
            assert(t.view() =~= Map::<InodeNum, Map<u64, PageNum>>::empty());
        }
        t
    }

    /// Adds file `file` with no pages; a file already there is refused.
    pub fn insert_file(&mut self, file: InodeNum) -> (r: Result<(), Error>)
        requires
            old(self).wf(),
        ensures
            final(self).wf(),
            r is Ok <==> !old(self).view().contains_key(file),
            r is Ok ==> final(self).view() == old(self).view().insert(file, Map::<u64, PageNum>::empty()),
            r is Err ==> r == Err::<(), Error>(Error::EEXIST) && final(self).view() == old(self).view(),
    {
        if self.tree.contains_key(&file) {
            Err(Error::EEXIST)
        } else {
            let offsets: SortedMap<u64, PageNum> = SortedMap::new();
            self.tree.insert(file, offsets);
            proof {
                assert forall|k: InodeNum| #[trigger] self.tree.view().contains_key(k) implies self.tree.view()[k].wf() by {
                    if k != file {
                        assert(old(self).tree.view().contains_key(k));
                    }
                }
                assert(self.view() =~= old(self).view().insert(file, Map::<u64, PageNum>::empty()));
            }
            Ok(())
        }
    }

    /// Files page `page` under offset `offset` of file `file`, replacing the
    /// page filed there before; a file not there is refused.
    pub fn insert_page(&mut self, file: InodeNum, page: PageNum, offset: u64) -> (r: Result<(), Error>)
        requires
            old(self).wf(),
        ensures
            final(self).wf(),
            r is Ok <==> old(self).view().contains_key(file),
            r is Ok ==> final(self).view() == old(self).view().insert(file, old(self).view()[file].insert(offset, page)),
            r is Err ==> r == Err::<(), Error>(Error::ENOENT) && final(self).view() == old(self).view(),
    {
        match self.tree.remove(&file) {
            None => Err(Error::ENOENT),
            Some(mut offsets) => {
                offsets.insert(offset, page);
                self.tree.insert(file, offsets);
                proof {
                    assert forall|k: InodeNum| #[trigger] self.tree.view().contains_key(k) implies self.tree.view()[k].wf() by {
                        if k != file {
                            assert(old(self).tree.view().contains_key(k));
                        }
                    }
                    assert(self.view() =~= old(self).view().insert(file, old(self).view()[file].insert(offset, page)));
                }
                Ok(())
            },
        }
    }

    /// Removes file `file` with its pages; a file not there is refused.
    pub fn remove_file(&mut self, file: InodeNum) -> (r: Result<(), Error>)
        requires
            old(self).wf(),
        ensures
            final(self).wf(),
            r is Ok <==> old(self).view().contains_key(file),
            final(self).view() == old(self).view().remove(file),
            r is Err ==> r == Err::<(), Error>(Error::ENOENT),
    {
        let result = self.tree.remove(&file);
        proof {
            assert forall|k: InodeNum| #[trigger] self.tree.view().contains_key(k) implies self.tree.view()[k].wf() by {
                assert(old(self).tree.view().contains_key(k));
            }
            assert(self.view() =~= old(self).view().remove(file));
        }
        if result.is_none() {
            Err(Error::ENOENT)
        } else {
            Ok(())
        }
    }

    /// Removes the page filed under offset `offset` of file `file`; a file
    /// not there is refused with `ENOENT`, an offset with no page with
    /// `EINVAL`.
    pub fn remove_page(&mut self, file: InodeNum, offset: u64) -> (r: Result<(), Error>)
        requires
            old(self).wf(),
        ensures
            final(self).wf(),
            (match r {
                Ok(()) => {
                    &&& old(self).view().contains_key(file)
                    &&& old(self).view()[file].contains_key(offset)
                    &&& final(self).view() == old(self).view().insert(file, old(self).view()[file].remove(offset))
                },
                Err(e) => {
                    &&& final(self).view() == old(self).view()
                    &&& if !old(self).view().contains_key(file) {
                        e == Error::ENOENT
                    } else {
                        e == Error::EINVAL && !old(self).view()[file].contains_key(offset)
                    }
                },
            }),
    {
        match self.tree.remove(&file) {
            None => Err(Error::ENOENT),
            Some(mut offsets) => {
                let ghost ov = offsets.view();
                let result = offsets.remove(&offset);
                self.tree.insert(file, offsets);
                proof {
                    assert forall|k: InodeNum| #[trigger] self.tree.view().contains_key(k) implies self.tree.view()[k].wf() by {
                        if k != file {
                            assert(old(self).tree.view().contains_key(k));
                        }
                    }
                }
                if result.is_none() {
                    proof {
                        assert(self.view() =~= old(self).view());
                    }
                    Err(Error::EINVAL)
                } else {
                    proof {
                        assert(self.view() =~= old(self).view().insert(file, old(self).view()[file].remove(offset)));
                    }
                    Ok(())
                }
            },
        }
    }

    /// The page filed under offset `offset` of file `file`, if any.
    pub fn lookup(&self, file: InodeNum, offset: u64) -> (r: Option<PageNum>)
        requires
            self.wf(),
        ensures
            r == (if self.view().contains_key(file) && self.view()[file].contains_key(offset) {
                Some(self.view()[file][offset])
            } else {
                None::<PageNum>
            }),
    {
        match self.tree.get(&file) {
            Some(offsets) => match offsets.get(&offset) {
                Some(p) => Some(*p),
                None => None,
            },
            None => None,
        }
    }
}

} // verus!
