use hayleyfs::defs::{
    check_page_no, from_kernel_result, inode_offset, page_byte_offset, page_offset, Error, FileName, InodeType,
    PageType, HAYLEYFS_PAGESIZE, INODE_SIZE, MAX_FILENAME_LEN, NUM_INODES, SB_SIZE,
};
use hayleyfs::kernel::dir::{ioctl_reply, DirOperationsTable, Operations as DirOperations, OperationsVtable as DirVtable};
use hayleyfs::kernel::inode::{lookup_reply, LookupReply, Operations as InodeOperations, OperationsVtable as InodeVtable};
use hayleyfs::mount::{vfs_inode_attrs, VfsInodeAttrs};
use hayleyfs::pm::{memset_nt, HayleyFsInode, PageDescriptor, PmDevice, Timespec};
use hayleyfs::sorted::SortedMap;

#[test]
fn errno_values() {
    assert_eq!(Error::EPERM.to_kernel_errno(), -1);
    assert_eq!(Error::ENOENT.to_kernel_errno(), -2);
    assert_eq!(Error::ENOMEM.to_kernel_errno(), -12);
    assert_eq!(Error::EEXIST.to_kernel_errno(), -17);
    assert_eq!(Error::ENOTDIR.to_kernel_errno(), -20);
    assert_eq!(Error::EISDIR.to_kernel_errno(), -21);
    assert_eq!(Error::EINVAL.to_kernel_errno(), -22);
    assert_eq!(Error::ENOTTY.to_kernel_errno(), -25);
    assert_eq!(Error::ENOSPC.to_kernel_errno(), -28);
    assert_eq!(Error::EMLINK.to_kernel_errno(), -31);
    assert_eq!(Error::ENAMETOOLONG.to_kernel_errno(), -36);
    assert_eq!(Error::ENOTEMPTY.to_kernel_errno(), -39);
}

#[test]
fn from_kernel_result_values() {
    assert_eq!(from_kernel_result(Ok(5)), 5);
    assert_eq!(from_kernel_result(Err(Error::ENOSPC)), -28);
}

#[test]
fn page_offset_values() {
    assert_eq!(page_offset(0), 0);
    assert_eq!(page_offset(4095), 0);
    assert_eq!(page_offset(4096), 4096);
    assert_eq!(page_offset(10000), 8192);
}

#[test]
fn inode_offset_values() {
    assert_eq!(inode_offset(1).unwrap(), SB_SIZE + INODE_SIZE);
    assert_eq!(inode_offset(3).unwrap(), SB_SIZE + 3 * INODE_SIZE);
    assert_eq!(inode_offset(0).err(), Some(Error::EINVAL));
    assert_eq!(inode_offset(NUM_INODES).err(), Some(Error::EINVAL));
}

#[test]
fn page_byte_offset_values() {
    assert_eq!(page_byte_offset(3).unwrap(), 3 * HAYLEYFS_PAGESIZE);
    assert_eq!(page_byte_offset(u64::MAX / HAYLEYFS_PAGESIZE).err(), Some(Error::EINVAL));
}

#[test]
fn check_page_no_values() {
    assert!(check_page_no(4 * 4096, 3).is_ok());
    assert_eq!(check_page_no(4 * 4096, 4).err(), Some(Error::EINVAL));
    assert_eq!(check_page_no(4095, 0).err(), Some(Error::EINVAL));
}

#[test]
fn file_name_round_trip() {
    let n = FileName::from_bytes(b"hello");
    assert!(n.has_name());
    assert_eq!(n.as_vec(), b"hello".to_vec());
    assert_eq!(n.bytes[5], 0);
    assert_eq!(n.bytes[MAX_FILENAME_LEN - 1], 0);
    let e = FileName::empty();
    assert!(!e.has_name());
    assert_eq!(e.as_vec(), Vec::<u8>::new());
    let full = FileName::from_bytes(&[b'z'; MAX_FILENAME_LEN]);
    assert_eq!(full.as_vec().len(), MAX_FILENAME_LEN);
}

#[test]
fn sorted_map_keeps_keys_in_order() {
    let mut m: SortedMap<u64, u64> = SortedMap::new();
    assert!(m.is_empty());
    assert_eq!(m.insert(5, 50), None);
    assert_eq!(m.insert(1, 10), None);
    assert_eq!(m.insert(3, 30), None);
    assert_eq!(m.insert(3, 33), Some(30));
    assert_eq!(m.len(), 3);
    assert_eq!(m.keys(), vec![1, 3, 5]);
    assert_eq!(m.values(), vec![10, 33, 50]);
    assert_eq!(m.first_key(), Some(1));
    assert_eq!(m.get(&3), Some(&33));
    assert!(m.contains_key(&5));
    assert_eq!(m.remove(&1), Some(10));
    assert_eq!(m.remove(&1), None);
    assert_eq!(m.first_key(), Some(3));
    assert_eq!(m.key_at(1), 5);
    assert_eq!(*m.value_at(0), 33);
    let c = m.copy();
    assert_eq!(c.keys(), vec![3, 5]);
}

#[test]
fn fresh_device_is_zeroed() {
    let dev = PmDevice::new(123, 4);
    assert_eq!(dev.num_pages(), 4);
    assert_eq!(dev.get_size(), 123);
    let i = dev.inode(5);
    assert!(i.is_free());
    assert_eq!(i.get_type(), InodeType::NONE);
    let d = dev.desc_at(2);
    assert!(d.is_free());
    assert_eq!(d.get_page_type(), PageType::NONE);
    assert!(dev.dentry_at(1, 3).is_free());
    assert_eq!(dev.byte_at(3, 4095), 0);
}

#[test]
fn memset_clears_device() {
    let mut dev = PmDevice::new(99, 3);
    memset_nt(&mut dev);
    assert_eq!(dev.get_size(), 0);
    assert_eq!(dev.num_pages(), 3);
    assert!(dev.inode(1).is_free());
}

#[test]
fn zeroed_records() {
    let i = HayleyFsInode::zeroed();
    assert_eq!(i.get_link_count(), 0);
    assert_eq!(i.get_size(), 0);
    assert!(!i.is_initialized());
    let p = PageDescriptor::zeroed();
    assert!(p.is_free());
    assert!(!p.is_initialized());
    assert_eq!(Timespec::zero(), Timespec { tv_sec: 0, tv_nsec: 0 });
}

#[test]
fn vfs_attrs_copy_inode() {
    let mut i = HayleyFsInode::zeroed();
    i.inode_type = InodeType::REG;
    i.link_count = 3;
    i.size = 77;
    i.mode = 0o600;
    i.uid = 4;
    i.gid = 9;
    i.blocks = 2;
    let a: VfsInodeAttrs = vfs_inode_attrs(12, &i, 4096).unwrap();
    assert_eq!(a.ino, 12);
    assert_eq!(a.size, 77);
    assert_eq!(a.nlink, 3);
    assert_eq!(a.mode, 0o600);
    assert_eq!(a.uid, 4);
    assert_eq!(a.gid, 9);
    assert_eq!(a.blocks, 2);
    assert_eq!(a.blkbits, 12);
    i.size = u64::MAX;
    assert!(vfs_inode_attrs(12, &i, 4096).is_err());
    i.size = 1;
    assert!(vfs_inode_attrs(12, &i, -1).is_err());
}

struct NoIoctl;

impl DirOperations for NoIoctl {
    fn handles_ioctl() -> bool {
        false
    }
    fn has_ioctl() -> bool {
        false
    }
}

struct Echo;

impl DirOperations for Echo {
    fn handles_ioctl() -> bool {
        true
    }
    fn has_ioctl() -> bool {
        true
    }
    fn ioctl(cmd: u32, _arg: u64) -> Result<i32, Error> {
        if cmd == 0 {
            Err(Error::EINVAL)
        } else {
            Ok(cmd as i32)
        }
    }
}

#[test]
fn dir_vtable_offers_ioctl_only_when_handled() {
    assert_eq!(DirVtable::<NoIoctl>::build(), DirOperationsTable { unlocked_ioctl: false });
    assert_eq!(DirVtable::<Echo>::build(), DirOperationsTable { unlocked_ioctl: true });
    assert_eq!(DirVtable::<NoIoctl>::unlocked_ioctl_callback(7, 0), -25);
    assert_eq!(DirVtable::<Echo>::unlocked_ioctl_callback(7, 0), 7);
    assert_eq!(DirVtable::<Echo>::unlocked_ioctl_callback(0, 0), -22);
}

#[test]
fn ioctl_reply_values() {
    assert_eq!(ioctl_reply(Ok(3)), 3);
    assert_eq!(ioctl_reply(Err(Error::ENOTTY)), -25);
}

#[test]
fn lookup_reply_values() {
    assert_eq!(lookup_reply(Err(Error::ENOENT)), LookupReply::ErrPtr(-2));
    assert_eq!(lookup_reply(Ok(None)), LookupReply::Negative);
    assert_eq!(lookup_reply(Ok(Some(4))), LookupReply::Unimplemented(4));
}

struct Names;

impl InodeOperations for Names {
    type Sb = Vec<(u64, Vec<u8>)>;

    fn lookup(sb: &mut Self::Sb, _dir: u64, name: &[u8], _flags: u32) -> Result<Option<u64>, Error> {
        if name.len() > MAX_FILENAME_LEN {
            return Err(Error::ENAMETOOLONG);
        }
        Ok(sb.iter().find(|(_, n)| n.as_slice() == name).map(|(i, _)| *i))
    }

    fn create(sb: &mut Self::Sb, _dir: u64, name: &[u8], _umode: u16, _excl: bool) -> Result<i32, Error> {
        let ino = sb.len() as u64 + 2;
        sb.push((ino, name.to_vec()));
        Ok(0)
    }

    fn mkdir(_sb: &mut Self::Sb, _dir: u64, _name: &[u8], _umode: u16) -> Result<i32, Error> {
        Err(Error::ENOSPC)
    }

    fn link(_sb: &mut Self::Sb, _old_ino: u64, _dir: u64, _name: &[u8]) -> Result<i32, Error> {
        Err(Error::EMLINK)
    }
}

#[test]
fn inode_vtable_callbacks() {
    let table = InodeVtable::<Names>::build();
    assert!(table.lookup && table.create && table.link && table.mkdir);
    assert!(!table.unlink && !table.rename && !table.symlink && !table.rmdir);
    let mut sb: Vec<(u64, Vec<u8>)> = Vec::new();
    assert_eq!(InodeVtable::<Names>::lookup_callback(&mut sb, 1, b"a", 0), LookupReply::Negative);
    assert_eq!(InodeVtable::<Names>::create_callback(&mut sb, 1, b"a", 0o644, false), 0);
    assert_eq!(InodeVtable::<Names>::lookup_callback(&mut sb, 1, b"a", 0), LookupReply::Unimplemented(2));
    assert_eq!(InodeVtable::<Names>::lookup_callback(&mut sb, 1, &[b'x'; 65], 0), LookupReply::ErrPtr(-36));
    assert_eq!(InodeVtable::<Names>::mkdir_callback(&mut sb, 1, b"d", 0o755), -28);
    assert_eq!(InodeVtable::<Names>::link_callback(&mut sb, 2, 1, b"b"), -31);
}
