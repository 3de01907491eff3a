//! Layout constants, error codes, object types and file names.
use crate::sorted::{KeyOrder, MapKey};
use vstd::prelude::*;

verus! {

broadcast use vstd::array::group_array_axioms;

/// Kernel error codes returned by file system operations.
#[derive(PartialEq, Eq, Structural, Clone, Copy, Debug)]
pub enum Error {
    EPERM,
    ENOENT,
    ENOMEM,
    EEXIST,
    ENOTDIR,
    EISDIR,
    EINVAL,
    ENOTTY,
    ENOSPC,
    EMLINK,
    ENAMETOOLONG,
    ENOTEMPTY,
}

/// The positive errno number of an error.
pub open spec fn spec_errno(e: Error) -> i32 {
    match e {
        Error::EPERM => 1,
        Error::ENOENT => 2,
        Error::ENOMEM => 12,
        Error::EEXIST => 17,
        Error::ENOTDIR => 20,
        Error::EISDIR => 21,
        Error::EINVAL => 22,
        Error::ENOTTY => 25,
        Error::ENOSPC => 28,
        Error::EMLINK => 31,
        Error::ENAMETOOLONG => 36,
        Error::ENOTEMPTY => 39,
    }
}

impl Error {
    /// The value handed back to C callers: the negated errno.
    pub fn to_kernel_errno(&self) -> (r: i32)
        ensures
            r == -spec_errno(*self),
    {
        match self {
            Error::EPERM => -1,
            Error::ENOENT => -2,
            Error::ENOMEM => -12,
            Error::EEXIST => -17,
            Error::ENOTDIR => -20,
            Error::EISDIR => -21,
            Error::EINVAL => -22,
            Error::ENOTTY => -25,
            Error::ENOSPC => -28,
            Error::EMLINK => -31,
            Error::ENAMETOOLONG => -36,
            Error::ENOTEMPTY => -39,
        }
    }
}

/// The value a kernel callback hands back for result `r`: the result, or
/// the negated error number.
pub open spec fn kernel_value(r: Result<i32, Error>) -> int {
    match r {
        Ok(v) => v as int,
        Err(e) => -spec_errno(e),
    }
}

/// Converts the result of an operation into the integer a C callback returns.
pub fn from_kernel_result(r: Result<i32, Error>) -> (out: i32)
    ensures
        (match r {
            Ok(v) => out == v,
            Err(e) => out == -spec_errno(e),
        }),
{
    match r {
        Ok(v) => v,
        Err(e) => e.to_kernel_errno(),
    }
}

pub type InodeNum = u64;

pub type PageNum = u64;

pub const SUPER_MAGIC: i64 = 0xabcdef;

/// The root directory's inode number.
pub const ROOT_INO: InodeNum = 1;

pub const MAX_FILENAME_LEN: usize = 64;

/// Maximum number of inodes in the file system.
pub const NUM_INODES: u64 = 64;

pub const MAX_PAGES: u64 = 0xffff_ffff_ffff_ffff;

pub const MAX_LINKS: u16 = 0xffff;

pub const DENTRIES_PER_PAGE: usize = 16;

pub const PAGE_DESCRIPTOR_SIZE: u64 = 32;

pub const SB_PAGE: PageNum = 0;

pub const INO_PAGE_START: PageNum = 1;

pub const PAGE_DESCRIPTOR_TABLE_START: PageNum = 2;

/// First page number that holds file or directory contents.
pub const DATA_PAGE_START: PageNum = 6;

/// How many page descriptors the descriptor table, which fills the pages
/// from `PAGE_DESCRIPTOR_TABLE_START` to `DATA_PAGE_START`, holds.
pub const NUM_PAGE_DESCRIPTORS: u64 = 512;

pub const INODE_SIZE: u64 = 64;

pub const SB_SIZE: u64 = 64;

/// Size of a page on the device.
pub const HAYLEYFS_PAGESIZE: u64 = 4096;

pub const S_IFDIR: u16 = 0o040000;

pub const S_IFREG: u16 = 0o100000;

pub const S_IFLNK: u16 = 0o120000;

/// The file type bits of a mode.
pub const S_IFMT: u16 = 0o170000;

/// What a page on the device holds.
#[derive(PartialEq, Eq, Structural, Clone, Copy, Debug)]
pub enum PageType {
    NONE,
    DIR,
    DATA,
}

/// What an inode describes.
#[derive(PartialEq, Eq, Structural, Clone, Copy, Debug)]
pub enum InodeType {
    NONE,
    REG,
    DIR,
    SYMLINK,
}

/// Given an offset into a file, the offset of the page that holds it.
pub fn page_offset(offset: u64) -> (r: u64)
    ensures
        r == (offset / HAYLEYFS_PAGESIZE) * HAYLEYFS_PAGESIZE,
        r <= offset,
        offset - r < HAYLEYFS_PAGESIZE,
        r % HAYLEYFS_PAGESIZE == 0,
{
    let r = (offset / HAYLEYFS_PAGESIZE) * HAYLEYFS_PAGESIZE;
    assert(r <= offset && offset - r < HAYLEYFS_PAGESIZE && r % HAYLEYFS_PAGESIZE == 0)
        by (nonlinear_arith)
        requires
            r == (offset / 4096) * 4096,
    ;
    r
}

/// Byte offset of inode `ino` on the device: the inode table follows the
/// super block, one fixed-size slot per inode number.
pub fn inode_offset(ino: InodeNum) -> (r: Result<u64, Error>)
    ensures
        (match r {
            Ok(off) => 0 < ino < NUM_INODES && off == SB_SIZE + ino * INODE_SIZE,
            Err(e) => e == Error::EINVAL && (ino >= NUM_INODES || ino == 0),
        }),
{
    if ino >= NUM_INODES || ino == 0 {
        return Err(Error::EINVAL);
    }
    Ok(SB_SIZE + ino * INODE_SIZE)
}

/// Byte offset of page `page_no` on the device.
pub fn page_byte_offset(page_no: PageNum) -> (r: Result<u64, Error>)
    requires
        page_no * HAYLEYFS_PAGESIZE <= u64::MAX,
    ensures
        (match r {
            Ok(off) => off == page_no * HAYLEYFS_PAGESIZE && off <= i64::MAX,
            Err(e) => e == Error::EINVAL && page_no * HAYLEYFS_PAGESIZE > i64::MAX,
        }),
{
    let off = HAYLEYFS_PAGESIZE * page_no;
    if off > 0x7fff_ffff_ffff_ffff {
        Err(Error::EINVAL)
    } else {
        Ok(off)
    }
}

/// Checks that `page_no` lies on a device of `pm_size` bytes.
pub fn check_page_no(pm_size: u64, page_no: u64) -> (r: Result<(), Error>)
    ensures
        r is Ok <==> page_no < pm_size / HAYLEYFS_PAGESIZE,
        r is Err ==> r == Err::<(), Error>(Error::EINVAL),
{
    let max_pages = pm_size / HAYLEYFS_PAGESIZE;
    if page_no >= max_pages {
        Err(Error::EINVAL)
    } else {
        Ok(())
    }
}

/// A file name as stored in a directory entry: the name's bytes followed
/// by zeros up to the fixed length.
#[derive(Clone, Copy)]
pub struct FileName {
    pub bytes: [u8; MAX_FILENAME_LEN],
}

/// `a` comes before `b` in lexicographic byte order.
pub open spec fn lex_lt(a: Seq<u8>, b: Seq<u8>) -> bool {
    exists|i: int|
        0 <= i < a.len() && i < b.len() && a[i] < b[i] && (forall|j: int|
            0 <= j < i ==> #[trigger] a[j] == b[j])
}

proof fn lemma_first_difference(a: Seq<u8>, b: Seq<u8>, n: int)
    requires
        0 <= n <= a.len(),
        a.len() == b.len(),
    ensures
        (forall|j: int| 0 <= j < n ==> #[trigger] a[j] == b[j]) || exists|i: int|
            0 <= i < n && a[i] != b[i] && (forall|j: int| 0 <= j < i ==> #[trigger] a[j] == b[j]),
    decreases n,
{
    if n > 0 {
        lemma_first_difference(a, b, n - 1);
    }
}

impl MapKey for FileName {
    open spec fn key_lt(self, other: Self) -> bool {
        lex_lt(self.bytes@, other.bytes@)
    }

    proof fn lemma_lt_irreflexive(a: Self) {
    }

    proof fn lemma_lt_transitive(a: Self, b: Self, c: Self) {
        let (x, y, z) = (a.bytes@, b.bytes@, c.bytes@);
        let i = choose|i: int|
            0 <= i < x.len() && i < y.len() && x[i] < y[i] && (forall|j: int|
                0 <= j < i ==> #[trigger] x[j] == y[j]);
        let k = choose|k: int|
            0 <= k < y.len() && k < z.len() && y[k] < z[k] && (forall|j: int|
                0 <= j < k ==> #[trigger] y[j] == z[j]);
        if i <= k {
            assert(forall|j: int| 0 <= j < i ==> #[trigger] x[j] == z[j]);
        } else {
            assert(forall|j: int| 0 <= j < k ==> #[trigger] x[j] == z[j]);
        }
    }

    proof fn lemma_lt_total(a: Self, b: Self) {
        let (x, y) = (a.bytes@, b.bytes@);
        lemma_first_difference(x, y, x.len() as int);
        if forall|j: int| 0 <= j < x.len() ==> #[trigger] x[j] == y[j] {
            assert(x =~= y);
            assert(a.bytes == b.bytes);
        } else {
            let i = choose|i: int|
                0 <= i < x.len() && x[i] != y[i] && (forall|j: int|
                    0 <= j < i ==> #[trigger] x[j] == y[j]);
            if x[i] < y[i] {
                assert(lex_lt(x, y));
            } else {
                assert(forall|j: int| 0 <= j < i ==> #[trigger] y[j] == x[j]);
                assert(lex_lt(y, x));
            }
        }
    }

    fn compare_key(&self, other: &Self) -> (r: KeyOrder) {
        let mut i: usize = 0;
        while i < MAX_FILENAME_LEN
            invariant
                i <= MAX_FILENAME_LEN,
                forall|j: int| 0 <= j < i ==> #[trigger] self.bytes@[j] == other.bytes@[j],
            decreases MAX_FILENAME_LEN - i,
        {
            let x = self.bytes[i];
            let y = other.bytes[i];
            if x < y {
                proof {
                    assert(lex_lt(self.bytes@, other.bytes@));
                }
                return KeyOrder::Less;
            } else if x > y {
                proof {
                    assert(forall|j: int| 0 <= j < i ==> #[trigger] other.bytes@[j] == self.bytes@[j]);
                    assert(lex_lt(other.bytes@, self.bytes@));
                }
                return KeyOrder::Greater;
            }
            i = i + 1;
        }
        proof {
            assert(self.bytes@ =~= other.bytes@);
            assert(self.bytes == other.bytes);
        }
        KeyOrder::Equal
    }
}

/// Names with the same bytes are the same name.
pub proof fn lemma_name_eq(a: FileName, b: FileName)
    requires
        a.bytes@ == b.bytes@,
    ensures
        a == b,
{
    assert(a.bytes == b.bytes);
}

/// The stored form of a name of `name.len()` bytes.
pub open spec fn spec_name_bytes(name: Seq<u8>) -> Seq<u8> {
    Seq::new(MAX_FILENAME_LEN as nat, |i: int| if i < name.len() { name[i] } else { 0u8 })
}

/// The stored form of a name keeps the name's bytes as they are, in
/// order, and pads them with zeros to the fixed length: no byte is
/// changed, so names that differ in any byte (in case, say) stay apart.
pub proof fn lemma_name_bytes_kept(name: Seq<u8>)
    requires
        name.len() <= MAX_FILENAME_LEN,
    ensures
        spec_name_bytes(name).len() == MAX_FILENAME_LEN,
        forall|i: int| 0 <= i < name.len() ==> #[trigger] spec_name_bytes(name)[i] == name[i],
        forall|i: int| name.len() <= i < MAX_FILENAME_LEN ==> #[trigger] spec_name_bytes(name)[i] == 0u8,
{
}

impl FileName {
    /// The name made of `name` followed by zeros.
    pub fn from_bytes(name: &[u8]) -> (r: FileName)
        requires
            name@.len() <= MAX_FILENAME_LEN,
        ensures
            r.bytes@ == spec_name_bytes(name@),
            forall|i: int| 0 <= i < name@.len() ==> #[trigger] r.bytes@[i] == name@[i],
            forall|i: int| name@.len() <= i < MAX_FILENAME_LEN ==> #[trigger] r.bytes@[i] == 0u8,
    {
        let mut bytes: [u8; MAX_FILENAME_LEN] = [0u8; 64];
        let mut i: usize = 0;
        while i < name.len()
            invariant
                name@.len() <= MAX_FILENAME_LEN,
                i <= name@.len(),
                bytes@.len() == MAX_FILENAME_LEN,
                forall|j: int| 0 <= j < i ==> #[trigger] bytes@[j] == name@[j],
                forall|j: int| i <= j < MAX_FILENAME_LEN ==> #[trigger] bytes@[j] == 0u8,
            decreases name@.len() - i,
        {
            bytes[i] = name[i];
            i = i + 1;
        }
        proof {
            assert(bytes@ =~= spec_name_bytes(name@));
        }
        FileName { bytes }
    }

    /// The name of all zero bytes, held by a free directory entry.
    pub fn empty() -> (r: FileName)
        ensures
            r.bytes@ == Seq::new(MAX_FILENAME_LEN as nat, |i: int| 0u8),
    {
        let r = FileName { bytes: [0u8; 64] };
        proof {
            assert(r.bytes@ =~= Seq::new(MAX_FILENAME_LEN as nat, |i: int| 0u8));
        }
        r
    }

    /// Whether any byte of the name is non-zero.
    pub fn has_name(&self) -> (r: bool)
        ensures
            r == exists|i: int| 0 <= i < MAX_FILENAME_LEN && self.bytes@[i] != 0,
    {
        let mut i: usize = 0;
        while i < MAX_FILENAME_LEN
            invariant
                i <= MAX_FILENAME_LEN,
                forall|j: int| 0 <= j < i ==> #[trigger] self.bytes@[j] == 0,
            decreases MAX_FILENAME_LEN - i,
        {
            if self.bytes[i] != 0 {
                return true;
            }
            i = i + 1;
        }
        false
    }

    /// The bytes of the name up to the first zero byte.
    pub fn as_vec(&self) -> (r: Vec<u8>)
        ensures
            r@.len() <= MAX_FILENAME_LEN,
            forall|j: int| 0 <= j < r@.len() ==> #[trigger] r@[j] == self.bytes@[j] && r@[j] != 0,
            r@.len() < MAX_FILENAME_LEN ==> self.bytes@[r@.len() as int] == 0,
    {
        let mut out: Vec<u8> = Vec::new();
        let mut i: usize = 0;
        while i < MAX_FILENAME_LEN
            invariant
                i <= MAX_FILENAME_LEN,
                out@.len() == i,
                forall|j: int| 0 <= j < i ==> #[trigger] out@[j] == self.bytes@[j] && out@[j] != 0,
            decreases MAX_FILENAME_LEN - i,
        {
            if self.bytes[i] == 0 {
                return out;
            }
            out.push(self.bytes[i]);
            i = i + 1;
        }
        out
    }
}

} // verus!
