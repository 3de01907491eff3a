use hayleyfs::defs::{Error, InodeType, DATA_PAGE_START, HAYLEYFS_PAGESIZE, MAX_FILENAME_LEN, NUM_INODES, ROOT_INO, S_IFDIR, SUPER_MAGIC};
use hayleyfs::fs::{MountOpts, SbInfo};
use hayleyfs::mount::{blksize_bits, fill_super, hayleyfs_iget, statfs, InodeInfo};
use hayleyfs::namei::{hayleyfs_create, hayleyfs_lookup};
use hayleyfs::pm::{PmDevice, Timespec};
use hayleyfs::volatile::HayleyFsDirInodeInfo;

fn now() -> Timespec {
    Timespec { tv_sec: 1000, tv_nsec: 7 }
}

/// Formats a device of `pages` pages for one CPU and returns the mounted
/// state with the root directory's index.
fn format(pages: u64) -> (SbInfo, HayleyFsDirInodeInfo) {
    let dev = PmDevice::new(0, pages);
    let mut sbi = SbInfo::new(dev, DATA_PAGE_START + pages, 1, 0, MountOpts { init: Some(true) }, 5, 6, 0o755);
    let attrs = fill_super(&mut sbi, now()).unwrap();
    assert_eq!(attrs.ino, ROOT_INO);
    let (_, info) = hayleyfs_iget(&mut sbi, ROOT_INO).unwrap();
    match info {
        InodeInfo::Dir(d) => (sbi, d),
        _ => panic!("root is not a directory"),
    }
}

#[test]
fn format_creates_root_directory() {
    let dev = PmDevice::new(0, 16);
    let mut sbi = SbInfo::new(dev, DATA_PAGE_START + 16, 1, 0, MountOpts { init: Some(true) }, 5, 6, 0o755);
    let attrs = fill_super(&mut sbi, now()).unwrap();
    assert_eq!(attrs.ino, ROOT_INO);
    assert_eq!(attrs.nlink, 2);
    assert_eq!(attrs.mode, 0o755 | S_IFDIR);
    assert_eq!(attrs.uid, 5);
    assert_eq!(attrs.gid, 6);
    assert_eq!(attrs.size, HAYLEYFS_PAGESIZE as i64);
    assert_eq!(attrs.blocks, 0);
    assert_eq!(attrs.mtime, now());
    assert_eq!(attrs.blkbits, 12);
    let root = sbi.dev.inode(ROOT_INO);
    assert_eq!(root.get_type(), InodeType::DIR);
    assert_eq!(root.get_link_count(), 2);
}

#[test]
fn new_sb_info_geometry() {
    let dev = PmDevice::new(0, 20);
    let sbi = SbInfo::new(dev, DATA_PAGE_START + 20, 4, 1, MountOpts { init: None }, 0, 0, 0);
    assert_eq!(sbi.num_blocks, 26);
    assert_eq!(sbi.size, 26 * 4096);
    assert_eq!(sbi.blocksize, 4096);
    assert_eq!(sbi.get_inodes_in_use(), 1);
    assert_eq!(sbi.get_pages_in_use(), 0);
}

#[test]
fn statfs_after_format() {
    let (sbi, _) = format(10);
    let st = statfs(&sbi);
    assert_eq!(st.f_type, SUPER_MAGIC);
    assert_eq!(st.f_bsize, 4096);
    assert_eq!(st.f_blocks, 16);
    assert_eq!(st.f_bfree, 16);
    assert_eq!(st.f_bavail, 16);
    assert_eq!(st.f_files, NUM_INODES);
    assert_eq!(st.f_ffree, NUM_INODES - 1);
    assert_eq!(st.f_namelen, MAX_FILENAME_LEN as i64);
}

#[test]
fn blksize_bits_values() {
    assert_eq!(blksize_bits(512), 9);
    assert_eq!(blksize_bits(1024), 10);
    assert_eq!(blksize_bits(4096), 12);
    assert_eq!(blksize_bits(0), 9);
    assert_eq!(blksize_bits(8192), 13);
}

#[test]
fn lookup_in_empty_root_is_negative() {
    let (mut sbi, mut root) = format(8);
    let r = hayleyfs_lookup(&mut sbi, ROOT_INO, &mut root, b"missing").unwrap();
    assert!(r.is_none());
}

#[test]
fn create_then_lookup_finds_file() {
    let (mut sbi, mut root) = format(8);
    let (dentry, inode) = hayleyfs_create(&mut sbi, ROOT_INO, &mut root, b"foo", 0o644, 1, 2, now()).unwrap();
    let ino = inode.get_ino();
    assert!(ino > ROOT_INO && ino < NUM_INODES);
    let found = hayleyfs_lookup(&mut sbi, ROOT_INO, &mut root, b"foo").unwrap().unwrap();
    assert_eq!(found.get_ino(), ino);
    assert_eq!(found.get_loc(), dentry.get_loc());
    assert_eq!(found.get_name().as_vec(), b"foo".to_vec());
    let pi = sbi.dev.inode(ino);
    assert_eq!(pi.get_type(), InodeType::REG);
    assert_eq!(pi.get_link_count(), 1);
    assert_eq!(pi.get_mode(), 0o644);
    assert_eq!(pi.get_uid(), 1);
    assert_eq!(pi.get_gid(), 2);
    assert_eq!(pi.get_size(), 0);
    assert_eq!(pi.get_ctime(), now());
    assert!(hayleyfs_lookup(&mut sbi, ROOT_INO, &mut root, b"fo").unwrap().is_none());
}

#[test]
fn create_in_regular_file_is_refused() {
    let (mut sbi, mut root) = format(8);
    let (_, f) = hayleyfs_create(&mut sbi, ROOT_INO, &mut root, b"file", 0o644, 0, 0, now()).unwrap();
    let mut finfo = HayleyFsDirInodeInfo::new(f.get_ino()).unwrap();
    let r = hayleyfs_create(&mut sbi, f.get_ino(), &mut finfo, b"x", 0o644, 0, 0, now());
    assert!(r.is_err());
}

#[test]
fn create_too_long_name_is_refused() {
    let (mut sbi, mut root) = format(8);
    let name = [b'a'; 65];
    let r = hayleyfs_create(&mut sbi, ROOT_INO, &mut root, &name, 0o644, 0, 0, now());
    assert_eq!(r.err(), Some(Error::ENAMETOOLONG));
}

#[test]
fn create_takes_smallest_free_inode() {
    let (mut sbi, mut root) = format(8);
    let (_, a) = hayleyfs_create(&mut sbi, ROOT_INO, &mut root, b"a", 0o644, 0, 0, now()).unwrap();
    let (_, b) = hayleyfs_create(&mut sbi, ROOT_INO, &mut root, b"b", 0o644, 0, 0, now()).unwrap();
    assert_eq!(a.get_ino(), 2);
    assert_eq!(b.get_ino(), 3);
    assert_eq!(sbi.get_inodes_in_use(), 3);
}

#[test]
fn mount_after_format_finds_only_root() {
    let (sbi, _) = format(6);
    let blocks = sbi.num_blocks;
    let dev = sbi.dev;
    let mut sbi2 = SbInfo::new(dev, blocks, 1, 0, MountOpts { init: None }, 0, 0, 0);
    let attrs = fill_super(&mut sbi2, now()).unwrap();
    assert_eq!(attrs.ino, ROOT_INO);
    assert_eq!(attrs.mode, 0o755 | S_IFDIR);
    // the counter starts at one and the scan counts the root
    assert_eq!(sbi2.get_inodes_in_use(), 2);
    assert_eq!(sbi2.get_pages_in_use(), 0);
    let (_, info) = hayleyfs_iget(&mut sbi2, ROOT_INO).unwrap();
    let mut root = match info {
        InodeInfo::Dir(d) => d,
        _ => panic!("root is not a directory"),
    };
    assert!(hayleyfs_lookup(&mut sbi2, ROOT_INO, &mut root, b"x").unwrap().is_none());
    let (_, f) = hayleyfs_create(&mut sbi2, ROOT_INO, &mut root, b"x", 0o644, 0, 0, now()).unwrap();
    assert_eq!(f.get_ino(), ROOT_INO + 1);
}

#[test]
fn device_larger_than_descriptor_table_mounts() {
    let blocks: u64 = 2000;
    let pages = hayleyfs::defs::NUM_PAGE_DESCRIPTORS - DATA_PAGE_START;
    let dev = PmDevice::new(0, pages);
    let mut sbi = SbInfo::new(dev, blocks, 1, 0, MountOpts { init: Some(true) }, 0, 0, 0o755);
    fill_super(&mut sbi, now()).unwrap();
    let (_, info) = hayleyfs_iget(&mut sbi, ROOT_INO).unwrap();
    let mut root = match info {
        InodeInfo::Dir(d) => d,
        _ => panic!("root is not a directory"),
    };
    hayleyfs_create(&mut sbi, ROOT_INO, &mut root, b"f", 0o644, 0, 0, now()).unwrap();
    assert_eq!(statfs(&sbi).f_blocks, blocks);
    let dev = sbi.dev;
    let mut sbi2 = SbInfo::new(dev, blocks, 1, 0, MountOpts { init: None }, 0, 0, 0o755);
    fill_super(&mut sbi2, now()).unwrap();
    assert_eq!(sbi2.num_blocks, blocks);
    assert_eq!(statfs(&sbi2).f_blocks, blocks);
}

#[test]
fn more_cpus_than_pages_mounts() {
    let (sbi, _) = format(2);
    let blocks = sbi.num_blocks;
    let dev = sbi.dev;
    let mut sbi2 = SbInfo::new(dev, blocks, 4, 3, MountOpts { init: None }, 0, 0, 0);
    let attrs = fill_super(&mut sbi2, now()).unwrap();
    assert_eq!(attrs.ino, ROOT_INO);
}
