//! Reading and writing file contents.
//!
//! A file's contents are the pages its index lists, each holding the
//! `HAYLEYFS_PAGESIZE` bytes from the offset it is filed under; offsets
//! with no page read as zeros.
use crate::defs::{page_offset, Error, InodeNum, InodeType, PageNum, PageType, DATA_PAGE_START, HAYLEYFS_PAGESIZE};
use crate::fs::SbInfo;
use crate::inode::{init_inode_of_type, with_inode, InodeWrapper};
use crate::page::{data_page_readable, with_desc, DataPageWrapper};
use crate::pm::{splice, HayleyFsInode, PageDescriptor, PmView, Timespec};
use crate::typestate::{Clean, IncSize, RegInode};
use crate::volatile::{DataPageInfo, HayleyFsRegInodeInfo};
use vstd::prelude::*;

verus! {

/// The page-aligned offset of the page holding file offset `x`.
pub open spec fn spec_page_offset(x: int) -> int {
    (x / (HAYLEYFS_PAGESIZE as int)) * (HAYLEYFS_PAGESIZE as int)
}

/// The byte at file offset `x` of a file whose index is `pages`.
pub open spec fn file_byte(v: PmView, pages: Map<u64, DataPageInfo>, x: int) -> u8 {
    let po = spec_page_offset(x);
    if pages.contains_key(po as u64) {
        v.page(pages[po as u64].page_no as int)[x - po]
    } else {
        0u8
    }
}

/// The `n` bytes of the file from offset `off` on.
pub open spec fn file_range(v: PmView, pages: Map<u64, DataPageInfo>, off: int, n: int) -> Seq<u8> {
    Seq::new(n as nat, |i: int| file_byte(v, pages, off + i))
}

/// How many bytes a write of `len` bytes at `offset` stores: at most a
/// page, and not past the end of the page holding `offset`.
pub open spec fn write_len(len: int, offset: u64) -> int {
    let count = if (HAYLEYFS_PAGESIZE as int) < len { HAYLEYFS_PAGESIZE as int } else { len };
    let after = HAYLEYFS_PAGESIZE - offset % HAYLEYFS_PAGESIZE;
    if count < after { count } else { after }
}

/// How many bytes a read of `count` bytes at `offset` returns from a file
/// of `size` bytes.
pub open spec fn read_len(count: u64, size: u64, offset: u64) -> int {
    if offset >= size {
        0
    } else if count < size - offset {
        count as int
    } else {
        size - offset
    }
}

proof fn lemma_page_offset(x: u64)
    ensures
        spec_page_offset(x as int) == (x / HAYLEYFS_PAGESIZE) * HAYLEYFS_PAGESIZE,
        0 <= x - spec_page_offset(x as int) < HAYLEYFS_PAGESIZE,
        x - spec_page_offset(x as int) == x % HAYLEYFS_PAGESIZE,
{
    assert(x - (x / 4096) * 4096 == x % 4096) by (nonlinear_arith);
    assert(0 <= x % 4096 < 4096) by (nonlinear_arith);
}

/// Offsets in the same page share the page offset.
proof fn lemma_same_page(base: int, x: int)
    requires
        base % (HAYLEYFS_PAGESIZE as int) == 0,
        base >= 0,
        base <= x < base + HAYLEYFS_PAGESIZE,
    ensures
        spec_page_offset(x) == base,
{
    let q = base / 4096;
    assert(base == q * 4096) by (nonlinear_arith)
        requires
            base % 4096 == 0,
            q == base / 4096,
    ;
    assert(x / 4096 == q) by (nonlinear_arith)
        requires
            base == q * 4096,
            base <= x < base + 4096,
    ;
}

/// `v` with `bytes` written into page `p` from byte `off` on.
pub open spec fn with_page_bytes(v: PmView, p: int, off: int, bytes: Seq<u8>) -> PmView {
    PmView { data: v.data.update(p - DATA_PAGE_START, splice(v.page(p), off, bytes)), ..v }
}

/// Writes up to one page of `data` at `offset` into file `ino`, whose
/// index is `pi_info`: the page holding `offset` is allocated and indexed
/// first if the file has none.  The file grows to the end of the write,
/// its change and modification times become `now`.  Returns how many bytes
/// were written.
pub fn hayleyfs_write(
    sbi: &mut SbInfo,
    ino: InodeNum,
    pi_info: &mut HayleyFsRegInodeInfo,
    data: &[u8],
    offset: u64,
    now: Timespec,
) -> (r: Result<(u64, InodeWrapper<Clean, IncSize, RegInode>), Error>)
    requires
        old(sbi).wf(),
        old(sbi).reg_info_ok(*old(pi_info)),
        offset <= i64::MAX,
    ensures
        final(sbi).wf(),
        final(sbi).reg_info_ok(*final(pi_info)),
        final(pi_info).spec_ino() == old(pi_info).spec_ino(),
        (match r {
            Ok((n, w)) => {
                let old_size = old(sbi).dev@.inodes[ino as int].size;
                let end = (offset + n) as u64;
                &&& init_inode_of_type(old(sbi).dev@, ino, InodeType::REG)
                &&& n == write_len(data@.len() as int, offset)
                &&& w.spec_ino() == ino
                &&& final(sbi).dev@.inodes[ino as int].size == (if old_size < end { end } else { old_size })
                &&& final(sbi).dev@.inodes[ino as int].mtime == now
                &&& file_range(final(sbi).dev@, final(pi_info).view(), offset as int, n as int) == data@.subrange(
                    0,
                    n as int,
                )
                &&& (old(sbi).alloc_agrees() ==> final(sbi).alloc_agrees())
                &&& ({
                    let po = spec_page_offset(offset as int) as u64;
                    let p = final(pi_info).view()[po].page_no;
                    let new_i = HayleyFsInode {
                        ctime: now,
                        mtime: now,
                        size: if old_size < end { end } else { old_size },
                        ..old(sbi).dev@.inodes[ino as int]
                    };
                    let bytes = data@.subrange(0, n as int);
                    &&& final(pi_info).view().contains_key(po)
                    &&& if old(pi_info).view().contains_key(po) {
                        &&& final(pi_info).view() == old(pi_info).view()
                        &&& *final(sbi) == (SbInfo { dev: final(sbi).dev, ..*old(sbi) })
                        &&& final(sbi).dev@ == with_inode(with_page_bytes(old(sbi).dev@, p as int, offset - po, bytes), ino, new_i)
                    } else {
                        &&& final(pi_info).view() == old(pi_info).view().insert(
                            po,
                            DataPageInfo { owner: old(pi_info).spec_ino(), page_no: p, offset: po },
                        )
                        &&& old(sbi).page_is_free(p)
                        &&& final(sbi).free_pages() == old(sbi).free_pages().remove(p)
                        &&& final(sbi).unchanged_but_pages(SbInfo { blocks_in_use: old(sbi).blocks_in_use.wrapping_add(1), ..*old(sbi) })
                        &&& final(sbi).dev@ == with_inode(
                            with_page_bytes(
                                with_desc(old(sbi).dev@, p as int, PageDescriptor { page_type: PageType::DATA, ino, offset: po }),
                                p as int,
                                offset - po,
                                bytes,
                            ),
                            ino,
                            new_i,
                        )
                    }
                })
            },
            Err(e) => {
                ||| (!init_inode_of_type(old(sbi).dev@, ino, InodeType::REG) && final(sbi).dev@ == old(sbi).dev@)
                ||| {
                    let po = spec_page_offset(offset as int) as u64;
                    &&& init_inode_of_type(old(sbi).dev@, ino, InodeType::REG)
                    &&& if old(pi_info).view().contains_key(po) {
                        !data_page_readable(old(sbi).dev@, old(pi_info).view()[po].page_no as int)
                    } else {
                        ||| (e == Error::EINVAL && old(sbi).page_allocator is None)
                        ||| (e == Error::ENOSPC && old(sbi).out_of_pages())
                        ||| (e == Error::EISDIR && exists|p: PageNum|
                            #[trigger] old(sbi).page_is_free(p) && old(sbi).dev@.desc(p as int).page_type == PageType::DIR)
                    }
                }
            },
        }),
        init_inode_of_type(old(sbi).dev@, ino, InodeType::REG) && ({
            let po = spec_page_offset(offset as int) as u64;
            if old(pi_info).view().contains_key(po) {
                data_page_readable(old(sbi).dev@, old(pi_info).view()[po].page_no as int)
            } else {
                old(sbi).page_allocator is Some && !old(sbi).out_of_pages() && old(sbi).alloc_agrees()
            }
        }) ==> r is Ok,
{
    let len = data.len() as u64;
    let count = if HAYLEYFS_PAGESIZE < len { HAYLEYFS_PAGESIZE } else { len };
    let pi = InodeWrapper::get_init_reg_inode_by_ino(&sbi.dev, ino)?;
    let page_off = page_offset(offset);
    proof {
        lemma_page_offset(offset);
    }
    let ghost s_init = *sbi;
    let result = pi_info.find(page_off);
    let data_page = if let Some(page_info) = result {
        proof {
            assert(sbi.page_ok(page_info.page_no));
        }
        DataPageWrapper::from_data_page_info(&sbi.dev, &page_info)?
    } else {
        let ghost s0 = *sbi;
        let page = match DataPageWrapper::alloc_data_page(sbi, page_off) {
            Ok(w) => w.flush().fence(),
            Err(e) => {
                proof {
                    if e == Error::EISDIR && s0.alloc_agrees() {
                        let q = choose|q: PageNum| #[trigger] s0.page_is_free(q) && s0.dev@.desc(q as int).page_type
                            == PageType::DIR;
                        assert(s0.free_pages().contains(q));
                    }
                }
                return Err(e);
            },
        };
        sbi.inc_blocks_in_use();
        let page = page.set_data_page_backpointer(&mut sbi.dev, &pi).flush().fence();
        proof {
            assert(sbi.same_pools(s0));
            assert forall|k: u64| #[trigger] pi_info.view().contains_key(k) implies sbi.page_ok(
                pi_info.view()[k].page_no,
            ) by {
                assert(s0.page_ok(pi_info.view()[k].page_no));
            }
        }
        pi_info.insert(&sbi.dev, &page)?;
        proof {
            let p = page.spec_page_no();
            assert(sbi.dev@.descs =~= s0.dev@.descs.update(
                p - DATA_PAGE_START,
                PageDescriptor { page_type: PageType::DATA, ino, offset: page_off },
            ));
            assert(sbi.dev@ == with_desc(
                s_init.dev@,
                p as int,
                PageDescriptor { page_type: PageType::DATA, ino, offset: page_off },
            ));
            assert(sbi.unchanged_but_pages(SbInfo { blocks_in_use: s_init.blocks_in_use.wrapping_add(1), ..s_init }));
        }
        page
    };
    let offset_in_page = offset - page_off;
    let bytes_after_offset = HAYLEYFS_PAGESIZE - offset_in_page;
    let to_write = if count < bytes_after_offset { count } else { bytes_after_offset };
    let ghost dev_before = sbi.dev@;
    let ghost info_now = pi_info.view();
    proof {
        assert(info_now.contains_key(page_off));
        assert(info_now[page_off].page_no == data_page.spec_page_no());
        assert(data_page_readable(dev_before, data_page.spec_page_no() as int));
    }
    let (bytes_written, data_page) = data_page.write_to_page(&mut sbi.dev, data, offset_in_page, to_write)?;
    let data_page = data_page.fence();
    let ghost dev_written = sbi.dev@;
    proof {
        assert forall|i: int| 0 <= i < to_write implies #[trigger] file_byte(
            dev_written,
            info_now,
            offset + i,
        ) == data@[i] by {
            lemma_same_page(page_off as int, offset + i);
        }
        assert(file_range(dev_written, info_now, offset as int, to_write as int) =~= data@.subrange(
            0,
            to_write as int,
        ));
    }
    let (_inode_size, pi) = pi.inc_size(&mut sbi.dev, bytes_written, offset, now, data_page);
    proof {
        let p = info_now[page_off].page_no;
        assert(dev_written == with_page_bytes(dev_before, p as int, offset - page_off, data@.subrange(0, to_write as int)));
        assert(dev_written.inodes[ino as int] == s_init.dev@.inodes[ino as int]);
        assert(file_range(sbi.dev@, info_now, offset as int, to_write as int) =~= file_range(
            dev_written,
            info_now,
            offset as int,
            to_write as int,
        ));
    }
    proof {
        if s_init.alloc_agrees() {
            assert forall|q: PageNum| #[trigger] sbi.free_pages().contains(q) implies crate::pm::desc_free(sbi.dev@.desc(q as int))
                || (s_init.free_pages().contains(q) && sbi.dev@.desc(q as int) == s_init.dev@.desc(q as int)) by {
                assert(s_init.free_pages().contains(q));
                assert(s_init.dev@.has_page(q as int));
            }
            SbInfo::lemma_agrees_kept(s_init, *sbi);
        }
    }
    Ok((bytes_written, pi))
}

/// Reads up to `count` bytes at `offset` from file `ino`, whose index is
/// `pi_info`, stopping at the end of the file.
pub fn hayleyfs_read(sbi: &SbInfo, ino: InodeNum, pi_info: &HayleyFsRegInodeInfo, offset: u64, count: u64) -> (r:
    Result<Vec<u8>, Error>)
    requires
        sbi.wf(),
        sbi.reg_info_ok(*pi_info),
    ensures
        (match r {
            Ok(v) => {
                let size = sbi.dev@.inodes[ino as int].size;
                &&& init_inode_of_type(sbi.dev@, ino, InodeType::REG)
                &&& v@ == file_range(sbi.dev@, pi_info.view(), offset as int, read_len(count, size, offset))
            },
            Err(e) => !init_inode_of_type(sbi.dev@, ino, InodeType::REG) || exists|x: int|
                offset <= x < offset + read_len(count, sbi.dev@.inodes[ino as int].size, offset)
                    && #[trigger] pi_info.view().contains_key(spec_page_offset(x) as u64)
                    && !data_page_readable(sbi.dev@, pi_info.view()[spec_page_offset(x) as u64].page_no as int),
        }),
{
    let pi = InodeWrapper::get_init_reg_inode_by_ino(&sbi.dev, ino)?;
    let size = pi.get_size(&sbi.dev);
    if offset >= size {
        let v: Vec<u8> = Vec::new();
        proof {
            assert(v@ =~= file_range(sbi.dev@, pi_info.view(), offset as int, 0));
        }
        return Ok(v);
    }
    let ghost total = read_len(count, size, offset);
    let mut remaining: u64 = if count < size - offset { count } else { size - offset };
    let mut pos = offset;
    let mut out: Vec<u8> = Vec::new();
    while remaining > 0
        invariant
            sbi.wf(),
            sbi.reg_info_ok(*pi_info),
            size == sbi.dev@.inodes[ino as int].size,
            offset <= pos,
            pos - offset == out@.len(),
            out@.len() + remaining == total,
            offset + total <= size,
            total == read_len(count, size, offset),
            out@ == file_range(sbi.dev@, pi_info.view(), offset as int, out@.len() as int),
        decreases remaining,
    {
        let page_off = page_offset(pos);
        proof {
            lemma_page_offset(pos);
        }
        let offset_in_page = pos - page_off;
        let bytes_after_offset = HAYLEYFS_PAGESIZE - offset_in_page;
        let to_read = if remaining < bytes_after_offset { remaining } else { bytes_after_offset };
        let result = pi_info.find(page_off);
        let ghost before = out@;
        if let Some(page_info) = result {
            proof {
                assert(sbi.page_ok(page_info.page_no));
            }
            let data_page = match DataPageWrapper::from_data_page_info(&sbi.dev, &page_info) {
                Ok(p) => p,
                Err(e) => {
                    proof {
                        assert(pos < offset + read_len(count, sbi.dev@.inodes[ino as int].size, offset));
                        assert(pi_info.view().contains_key(spec_page_offset(pos as int) as u64));
                        assert(spec_page_offset(pos as int) as u64 == page_off);
                        assert(!data_page_readable(
                            sbi.dev@,
                            pi_info.view()[spec_page_offset(pos as int) as u64].page_no as int,
                        ));
                    }
                    return Err(e);
                },
            };
            let bytes = data_page.read_from_page(&sbi.dev, offset_in_page, to_read)?;
            let mut i: usize = 0;
            while i < bytes.len()
                invariant
                    out@.len() == before.len() + i,
                    i <= bytes@.len(),
                    forall|j: int| 0 <= j < before.len() ==> #[trigger] out@[j] == before[j],
                    forall|j: int| before.len() <= j < out@.len() ==> #[trigger] out@[j] == bytes@[j - before.len()],
                decreases bytes@.len() - i,
            {
                out.push(bytes[i]);
                i = i + 1;
            }
            proof {
                assert forall|j: int| 0 <= j < to_read implies #[trigger] file_byte(
                    sbi.dev@,
                    pi_info.view(),
                    pos + j,
                ) == bytes@[j] by {
                    lemma_same_page(page_off as int, pos + j);
                }
                assert forall|j: int| 0 <= j < out@.len() implies #[trigger] out@[j] == file_byte(
                    sbi.dev@,
                    pi_info.view(),
                    offset + j,
                ) by {
                    if j >= before.len() {
                        assert(out@[j] == bytes@[j - before.len()]);
                        assert(file_byte(sbi.dev@, pi_info.view(), pos + (j - before.len())) == bytes@[j
                            - before.len()]);
                    } else {
                        assert(before[j] == file_range(sbi.dev@, pi_info.view(), offset as int, before.len() as int)[j]);
                    }
                }
            }
        } else {
            let mut i: u64 = 0;
            while i < to_read
                invariant
                    out@.len() == before.len() + i,
                    i <= to_read,
                    forall|j: int| 0 <= j < before.len() ==> #[trigger] out@[j] == before[j],
                    forall|j: int| before.len() <= j < out@.len() ==> #[trigger] out@[j] == 0u8,
                decreases to_read - i,
            {
                out.push(0);
                i = i + 1;
            }
            proof {
                assert forall|j: int| 0 <= j < to_read implies #[trigger] file_byte(
                    sbi.dev@,
                    pi_info.view(),
                    pos + j,
                ) == 0u8 by {
                    lemma_same_page(page_off as int, pos + j);
                }
                assert forall|j: int| 0 <= j < out@.len() implies #[trigger] out@[j] == file_byte(
                    sbi.dev@,
                    pi_info.view(),
                    offset + j,
                ) by {
                    if j >= before.len() {
                        assert(file_byte(sbi.dev@, pi_info.view(), pos + (j - before.len())) == 0u8);
                    } else {
                        assert(before[j] == file_range(sbi.dev@, pi_info.view(), offset as int, before.len() as int)[j]);
                    }
                }
            }
        }
        proof {
            assert(out@ =~= file_range(sbi.dev@, pi_info.view(), offset as int, out@.len() as int));
        }
        pos = pos + to_read;
        remaining = remaining - to_read;
    }
    Ok(out)
}

/// A read gives back what a write stored: when bytes `offset..offset + n`
/// of a file hold `data[0..n]` and the file is at least `offset + n` bytes
/// long, a read of `n` bytes at `offset` returns `data[0..n]`.
pub proof fn lemma_read_after_write(
    v: PmView,
    pages: Map<u64, DataPageInfo>,
    size: u64,
    offset: u64,
    n: u64,
    data: Seq<u8>,
)
    requires
        n <= data.len(),
        file_range(v, pages, offset as int, n as int) == data.subrange(0, n as int),
        offset + n <= size,
    ensures
        file_range(v, pages, offset as int, read_len(n, size, offset)) == data.subrange(0, n as int),
{
    if offset >= size {
        assert(file_range(v, pages, offset as int, 0) =~= data.subrange(0, 0));
    }
}

/// A write into page `p`, filed under offset `po` of a file whose index is
/// `i0` (or added to it, giving `i1`), changes no byte of the file outside
/// that page, and, when the page was already the file's, no byte of the
/// page outside the written range: for files whose index files distinct
/// pages of the device.
pub proof fn lemma_write_keeps_other_bytes(
    v0: PmView,
    v1: PmView,
    i0: Map<u64, DataPageInfo>,
    i1: Map<u64, DataPageInfo>,
    po: u64,
    p: PageNum,
    off: int,
    bytes: Seq<u8>,
    ino: InodeNum,
    node: HayleyFsInode,
    d: PageDescriptor,
    x: int,
)
    requires
        po as int == spec_page_offset(po as int),
        0 <= off,
        off + bytes.len() <= HAYLEYFS_PAGESIZE,
        v0.has_page(p as int),
        forall|k: u64| #[trigger] i0.contains_key(k) ==> v0.has_page(i0[k].page_no as int),
        forall|k: u64| #[trigger] i0.contains_key(k) && k != po ==> i0[k].page_no != p,
        i1.contains_key(po),
        i1[po].page_no == p,
        i0.contains_key(po) ==> i1 == i0 && v1 == with_inode(with_page_bytes(v0, p as int, off, bytes), ino, node),
        !i0.contains_key(po) ==> i1 == i0.insert(po, i1[po]) && v1 == with_inode(
            with_page_bytes(with_desc(v0, p as int, d), p as int, off, bytes),
            ino,
            node,
        ),
        v0.data.len() == v0.descs.len(),
        forall|i: int| 0 <= i < v0.data.len() ==> (#[trigger] v0.data[i]).len() == HAYLEYFS_PAGESIZE,
        0 <= x <= u64::MAX,
        spec_page_offset(x) != po || (i0.contains_key(po) && !(po + off <= x < po + off + bytes.len())),
    ensures
        file_byte(v1, i1, x) == file_byte(v0, i0, x),
{
    let px = spec_page_offset(x);
    assert(0 <= px) by (nonlinear_arith)
        requires px == (x / 4096) * 4096, x >= 0;
    if px != po {
        lemma_in_page(x, px);
        assert(px as u64 != po);
        if i0.contains_key(px as u64) {
            let q = i0[px as u64].page_no;
            assert(i1[px as u64] == i0[px as u64]);
            assert(q != p);
            assert(v1.data[q - DATA_PAGE_START] == v0.data[q - DATA_PAGE_START]);
        }
    } else {
        lemma_in_page(x, px);
        assert(v1.page(p as int) == splice(v0.page(p as int), off, bytes));
    }
}

proof fn lemma_in_page(x: int, px: int)
    requires
        x >= 0,
        px == spec_page_offset(x),
    ensures
        px <= x < px + HAYLEYFS_PAGESIZE,
{
    assert(px <= x < px + 4096) by (nonlinear_arith)
        requires px == (x / 4096) * 4096, x >= 0;
}

} // verus!
