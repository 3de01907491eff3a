use hayleyfs::defs::{Error, InodeType, DATA_PAGE_START, HAYLEYFS_PAGESIZE, ROOT_INO};
use hayleyfs::file::{hayleyfs_read, hayleyfs_write};
use hayleyfs::fs::{MountOpts, SbInfo};
use hayleyfs::mount::{fill_super, hayleyfs_iget, InodeInfo};
use hayleyfs::namei::{
    hayleyfs_create, hayleyfs_link, hayleyfs_lookup, hayleyfs_mkdir, hayleyfs_readdir, hayleyfs_rename,
    hayleyfs_rmdir, hayleyfs_symlink, hayleyfs_unlink,
};
use hayleyfs::pm::{PmDevice, Timespec};
use hayleyfs::volatile::{HayleyFsDirInodeInfo, HayleyFsRegInodeInfo};

fn t(sec: i64) -> Timespec {
    Timespec { tv_sec: sec, tv_nsec: 0 }
}

fn mount_new(pages: u64) -> (SbInfo, HayleyFsDirInodeInfo) {
    let dev = PmDevice::new(0, pages);
    let mut sbi = SbInfo::new(dev, DATA_PAGE_START + pages, 1, 0, MountOpts { init: Some(true) }, 0, 0, 0o755);
    fill_super(&mut sbi, t(1)).unwrap();
    let root = root_info(&mut sbi);
    (sbi, root)
}

fn root_info(sbi: &mut SbInfo) -> HayleyFsDirInodeInfo {
    let (_, info) = hayleyfs_iget(sbi, ROOT_INO).unwrap();
    match info {
        InodeInfo::Dir(d) => d,
        _ => panic!("root is not a directory"),
    }
}

fn new_file(sbi: &mut SbInfo, root: &mut HayleyFsDirInodeInfo, name: &[u8]) -> (u64, HayleyFsRegInodeInfo) {
    let (_, inode) = hayleyfs_create(sbi, ROOT_INO, root, name, 0o644, 0, 0, t(2)).unwrap();
    let ino = inode.get_ino();
    (ino, HayleyFsRegInodeInfo::new(ino).unwrap())
}

#[test]
fn write_then_read_returns_data() {
    let (mut sbi, mut root) = mount_new(8);
    let (ino, mut info) = new_file(&mut sbi, &mut root, b"f");
    let (n, w) = hayleyfs_write(&mut sbi, ino, &mut info, b"hello world", 0, t(3)).unwrap();
    assert_eq!(n, 11);
    assert_eq!(w.get_ino(), ino);
    let pi = sbi.dev.inode(ino);
    assert_eq!(pi.get_size(), 11);
    assert_eq!(pi.get_mtime(), t(3));
    let back = hayleyfs_read(&sbi, ino, &info, 0, 100).unwrap();
    assert_eq!(back, b"hello world".to_vec());
    let part = hayleyfs_read(&sbi, ino, &info, 6, 3).unwrap();
    assert_eq!(part, b"wor".to_vec());
}

#[test]
fn read_past_end_is_empty() {
    let (mut sbi, mut root) = mount_new(8);
    let (ino, mut info) = new_file(&mut sbi, &mut root, b"f");
    hayleyfs_write(&mut sbi, ino, &mut info, b"abc", 0, t(3)).unwrap();
    assert_eq!(hayleyfs_read(&sbi, ino, &info, 3, 10).unwrap(), Vec::<u8>::new());
    assert_eq!(hayleyfs_read(&sbi, ino, &info, 50, 10).unwrap(), Vec::<u8>::new());
}

#[test]
fn write_stops_at_page_end() {
    let (mut sbi, mut root) = mount_new(8);
    let (ino, mut info) = new_file(&mut sbi, &mut root, b"f");
    let data = vec![7u8; 100];
    let (n, _) = hayleyfs_write(&mut sbi, ino, &mut info, &data, HAYLEYFS_PAGESIZE - 10, t(3)).unwrap();
    assert_eq!(n, 10);
    assert_eq!(sbi.dev.inode(ino).get_size(), HAYLEYFS_PAGESIZE);
}

#[test]
fn write_at_offset_leaves_hole_of_zeros() {
    let (mut sbi, mut root) = mount_new(8);
    let (ino, mut info) = new_file(&mut sbi, &mut root, b"f");
    let (n, _) = hayleyfs_write(&mut sbi, ino, &mut info, b"xy", HAYLEYFS_PAGESIZE + 5, t(3)).unwrap();
    assert_eq!(n, 2);
    assert_eq!(sbi.dev.inode(ino).get_size(), HAYLEYFS_PAGESIZE + 7);
    let back = hayleyfs_read(&sbi, ino, &info, HAYLEYFS_PAGESIZE - 2, 9).unwrap();
    assert_eq!(back, vec![0, 0, 0, 0, 0, 0, 0, b'x', b'y']);
}

#[test]
fn overwrite_keeps_size_and_updates_bytes() {
    let (mut sbi, mut root) = mount_new(8);
    let (ino, mut info) = new_file(&mut sbi, &mut root, b"f");
    hayleyfs_write(&mut sbi, ino, &mut info, b"abcdef", 0, t(3)).unwrap();
    hayleyfs_write(&mut sbi, ino, &mut info, b"XY", 2, t(4)).unwrap();
    assert_eq!(sbi.dev.inode(ino).get_size(), 6);
    assert_eq!(hayleyfs_read(&sbi, ino, &info, 0, 6).unwrap(), b"abXYef".to_vec());
}

#[test]
fn write_to_directory_is_refused() {
    let (mut sbi, _root) = mount_new(8);
    let mut info = HayleyFsRegInodeInfo::new(ROOT_INO).unwrap();
    assert!(hayleyfs_write(&mut sbi, ROOT_INO, &mut info, b"x", 0, t(3)).is_err());
}

#[test]
fn unlink_removes_name() {
    let (mut sbi, mut root) = mount_new(8);
    let (ino, mut info) = new_file(&mut sbi, &mut root, b"gone");
    hayleyfs_write(&mut sbi, ino, &mut info, b"data", 0, t(3)).unwrap();
    let (pi, _) = hayleyfs_unlink(&mut sbi, ROOT_INO, &mut root, b"gone", ino, &info, t(4)).unwrap();
    assert_eq!(pi.get_ino(), ino);
    assert!(hayleyfs_lookup(&mut sbi, ROOT_INO, &mut root, b"gone").unwrap().is_none());
    assert_eq!(sbi.dev.inode(ino).get_type(), InodeType::NONE);
    assert_eq!(sbi.dev.inode(ino).get_link_count(), 0);
}

#[test]
fn unlink_missing_name_is_enoent() {
    let (mut sbi, mut root) = mount_new(8);
    let (ino, info) = new_file(&mut sbi, &mut root, b"here");
    let r = hayleyfs_unlink(&mut sbi, ROOT_INO, &mut root, b"nothere", ino, &info, t(4));
    assert_eq!(r.err(), Some(Error::ENOENT));
}

#[test]
fn link_adds_second_name() {
    let (mut sbi, mut root) = mount_new(8);
    let (ino, info) = new_file(&mut sbi, &mut root, b"one");
    let (_, i) = hayleyfs_link(&mut sbi, ino, ROOT_INO, &mut root, b"two", t(5)).unwrap();
    assert_eq!(i.get_ino(), ino);
    assert_eq!(sbi.dev.inode(ino).get_link_count(), 2);
    assert_eq!(sbi.dev.inode(ino).get_ctime(), t(5));
    let a = hayleyfs_lookup(&mut sbi, ROOT_INO, &mut root, b"one").unwrap().unwrap();
    let b = hayleyfs_lookup(&mut sbi, ROOT_INO, &mut root, b"two").unwrap().unwrap();
    assert_eq!(a.get_ino(), ino);
    assert_eq!(b.get_ino(), ino);
    hayleyfs_unlink(&mut sbi, ROOT_INO, &mut root, b"one", ino, &info, t(6)).unwrap();
    assert_eq!(sbi.dev.inode(ino).get_link_count(), 1);
    assert_eq!(sbi.dev.inode(ino).get_type(), InodeType::REG);
}

#[test]
fn mkdir_then_rmdir() {
    let (mut sbi, mut root) = mount_new(8);
    let (_, parent, dir) = hayleyfs_mkdir(&mut sbi, ROOT_INO, &mut root, b"sub", 0o700, 0, 0, t(7)).unwrap();
    assert_eq!(parent.get_ino(), ROOT_INO);
    let d = dir.get_ino();
    assert_eq!(sbi.dev.inode(d).get_type(), InodeType::DIR);
    assert_eq!(sbi.dev.inode(d).get_link_count(), 2);
    assert_eq!(sbi.dev.inode(ROOT_INO).get_link_count(), 3);
    let found = hayleyfs_lookup(&mut sbi, ROOT_INO, &mut root, b"sub").unwrap().unwrap();
    assert_eq!(found.get_ino(), d);
    let sub_info = HayleyFsDirInodeInfo::new(d).unwrap();
    hayleyfs_rmdir(&mut sbi, ROOT_INO, &mut root, b"sub", d, &sub_info, t(8)).unwrap();
    assert!(hayleyfs_lookup(&mut sbi, ROOT_INO, &mut root, b"sub").unwrap().is_none());
    assert_eq!(sbi.dev.inode(ROOT_INO).get_link_count(), 2);
    assert_eq!(sbi.dev.inode(d).get_type(), InodeType::NONE);
}

#[test]
fn rmdir_non_empty_is_refused() {
    let (mut sbi, mut root) = mount_new(8);
    let (_, _, dir) = hayleyfs_mkdir(&mut sbi, ROOT_INO, &mut root, b"sub", 0o700, 0, 0, t(7)).unwrap();
    let d = dir.get_ino();
    let mut sub_info = HayleyFsDirInodeInfo::new(d).unwrap();
    hayleyfs_create(&mut sbi, d, &mut sub_info, b"inner", 0o644, 0, 0, t(8)).unwrap();
    let r = hayleyfs_rmdir(&mut sbi, ROOT_INO, &mut root, b"sub", d, &sub_info, t(9));
    assert_eq!(r.err(), Some(Error::ENOTEMPTY));
}

#[test]
fn rmdir_missing_is_enoent() {
    let (mut sbi, mut root) = mount_new(8);
    let info = HayleyFsDirInodeInfo::new(5).unwrap();
    let r = hayleyfs_rmdir(&mut sbi, ROOT_INO, &mut root, b"none", 5, &info, t(9));
    assert_eq!(r.err(), Some(Error::ENOENT));
}

#[test]
fn symlink_stores_target() {
    let (mut sbi, mut root) = mount_new(8);
    let (pi, _, page) = hayleyfs_symlink(&mut sbi, ROOT_INO, &mut root, b"ln", b"/target/path", 0o777, 0, 0, t(10)).unwrap();
    let ino = pi.get_ino();
    assert_eq!(sbi.dev.inode(ino).get_type(), InodeType::SYMLINK);
    assert_eq!(sbi.dev.inode(ino).get_size(), 12);
    let idx = sbi.dev.page_index(page.get_page_no());
    let mut stored = Vec::new();
    for i in 0..12 {
        stored.push(sbi.dev.byte_at(idx, i));
    }
    assert_eq!(stored, b"/target/path".to_vec());
    let found = hayleyfs_lookup(&mut sbi, ROOT_INO, &mut root, b"ln").unwrap().unwrap();
    assert_eq!(found.get_ino(), ino);
}

#[test]
fn readdir_lists_entries_in_name_order() {
    let (mut sbi, mut root) = mount_new(8);
    new_file(&mut sbi, &mut root, b"c");
    new_file(&mut sbi, &mut root, b"a");
    new_file(&mut sbi, &mut root, b"b");
    let (v, pos) = hayleyfs_readdir(&sbi, ROOT_INO, &root, 0).unwrap();
    assert_eq!(pos, 3);
    let names: Vec<Vec<u8>> = v.iter().map(|d| d.get_name().as_vec()).collect();
    assert_eq!(names, vec![b"a".to_vec(), b"b".to_vec(), b"c".to_vec()]);
    let (rest, pos2) = hayleyfs_readdir(&sbi, ROOT_INO, &root, 3).unwrap();
    assert!(rest.is_empty());
    assert_eq!(pos2, 3);
}

#[test]
fn readdir_resumes_at_position() {
    let (mut sbi, mut root) = mount_new(8);
    new_file(&mut sbi, &mut root, b"c");
    new_file(&mut sbi, &mut root, b"a");
    new_file(&mut sbi, &mut root, b"b");
    let (v, pos) = hayleyfs_readdir(&sbi, ROOT_INO, &root, 1).unwrap();
    assert_eq!(pos, 3);
    let names: Vec<Vec<u8>> = v.iter().map(|d| d.get_name().as_vec()).collect();
    assert_eq!(names, vec![b"b".to_vec(), b"c".to_vec()]);
}

#[test]
fn rename_over_existing_file() {
    let (mut sbi, mut root) = mount_new(8);
    let (src, _) = new_file(&mut sbi, &mut root, b"src");
    let (dst, dst_info) = new_file(&mut sbi, &mut root, b"dst");
    let empty_dir = HayleyFsDirInodeInfo::new(dst).unwrap();
    let mut none = None;
    hayleyfs_rename(&mut sbi, ROOT_INO, &mut root, b"src", ROOT_INO, &mut none, b"dst", src, dst, &dst_info, &empty_dir, t(11))
        .unwrap();
    assert!(hayleyfs_lookup(&mut sbi, ROOT_INO, &mut root, b"src").unwrap().is_none());
    let found = hayleyfs_lookup(&mut sbi, ROOT_INO, &mut root, b"dst").unwrap().unwrap();
    assert_eq!(found.get_ino(), src);
    assert_eq!(sbi.dev.inode(dst).get_type(), InodeType::NONE);
}

#[test]
fn rename_missing_source_is_enoent() {
    let (mut sbi, mut root) = mount_new(8);
    let (dst, dst_info) = new_file(&mut sbi, &mut root, b"dst");
    let empty_dir = HayleyFsDirInodeInfo::new(dst).unwrap();
    let mut none = None;
    let r = hayleyfs_rename(&mut sbi, ROOT_INO, &mut root, b"nope", ROOT_INO, &mut none, b"dst", 9, dst, &dst_info, &empty_dir, t(11));
    assert_eq!(r.err(), Some(Error::ENOENT));
}

#[test]
fn remount_finds_files() {
    let (mut sbi, mut root) = mount_new(8);
    let (ino, mut info) = new_file(&mut sbi, &mut root, b"keep");
    hayleyfs_write(&mut sbi, ino, &mut info, b"persist", 0, t(3)).unwrap();
    let dev = std::mem::replace(&mut sbi.dev, PmDevice::new(0, 0));
    let mut sbi2 = SbInfo::new(dev, sbi.num_blocks, 1, 0, MountOpts { init: None }, 0, 0, 0o755);
    let attrs = fill_super(&mut sbi2, t(20)).unwrap();
    assert_eq!(attrs.ino, ROOT_INO);
    // the counter starts at one and the scan counts every live inode, the root included
    assert_eq!(sbi2.get_inodes_in_use(), 3);
    let mut root2 = root_info(&mut sbi2);
    let found = hayleyfs_lookup(&mut sbi2, ROOT_INO, &mut root2, b"keep").unwrap().unwrap();
    assert_eq!(found.get_ino(), ino);
    let (_, finfo) = hayleyfs_iget(&mut sbi2, ino).unwrap();
    let finfo = match finfo {
        InodeInfo::Reg(f) => f,
        _ => panic!("not a file"),
    };
    assert_eq!(hayleyfs_read(&sbi2, ino, &finfo, 0, 7).unwrap(), b"persist".to_vec());
}

#[test]
fn rename_to_missing_name_is_eperm() {
    let (mut sbi, mut root) = mount_new(8);
    let (src, _) = new_file(&mut sbi, &mut root, b"src");
    let empty_file = HayleyFsRegInodeInfo::new(0).unwrap();
    let empty_dir = HayleyFsDirInodeInfo::new(0).unwrap();
    let mut none = None;
    let r = hayleyfs_rename(&mut sbi, ROOT_INO, &mut root, b"src", ROOT_INO, &mut none, b"new", src, 0, &empty_file, &empty_dir, t(11));
    assert_eq!(r.err(), Some(Error::EPERM));
    assert!(hayleyfs_lookup(&mut sbi, ROOT_INO, &mut root, b"src").unwrap().is_some());
}

#[test]
fn rename_over_non_empty_directory_is_enotempty() {
    let (mut sbi, mut root) = mount_new(8);
    let (src, _) = new_file(&mut sbi, &mut root, b"src");
    let (_, _, dir) = hayleyfs_mkdir(&mut sbi, ROOT_INO, &mut root, b"d", 0o755, 0, 0, t(3)).unwrap();
    let d = dir.get_ino();
    let mut d_info = HayleyFsDirInodeInfo::new(d).unwrap();
    hayleyfs_create(&mut sbi, d, &mut d_info, b"inner", 0o644, 0, 0, t(4)).unwrap();
    let empty_file = HayleyFsRegInodeInfo::new(d).unwrap();
    let mut none = None;
    let r = hayleyfs_rename(&mut sbi, ROOT_INO, &mut root, b"src", ROOT_INO, &mut none, b"d", src, d, &empty_file, &d_info, t(11));
    assert_eq!(r.err(), Some(Error::ENOTEMPTY));
}

#[test]
fn rename_over_empty_directory() {
    let (mut sbi, mut root) = mount_new(8);
    let (_, _, a) = hayleyfs_mkdir(&mut sbi, ROOT_INO, &mut root, b"a", 0o755, 0, 0, t(3)).unwrap();
    let (_, _, b) = hayleyfs_mkdir(&mut sbi, ROOT_INO, &mut root, b"b", 0o755, 0, 0, t(3)).unwrap();
    assert_eq!(sbi.dev.inode(ROOT_INO).get_link_count(), 4);
    let b_info = HayleyFsDirInodeInfo::new(b.get_ino()).unwrap();
    let empty_file = HayleyFsRegInodeInfo::new(b.get_ino()).unwrap();
    let mut none = None;
    hayleyfs_rename(&mut sbi, ROOT_INO, &mut root, b"a", ROOT_INO, &mut none, b"b", a.get_ino(), b.get_ino(), &empty_file, &b_info, t(12))
        .unwrap();
    let found = hayleyfs_lookup(&mut sbi, ROOT_INO, &mut root, b"b").unwrap().unwrap();
    assert_eq!(found.get_ino(), a.get_ino());
    assert!(hayleyfs_lookup(&mut sbi, ROOT_INO, &mut root, b"a").unwrap().is_none());
    assert_eq!(sbi.dev.inode(b.get_ino()).get_type(), InodeType::NONE);
    assert_eq!(sbi.dev.inode(ROOT_INO).get_link_count(), 3);
}

#[test]
fn rename_across_directories() {
    let (mut sbi, mut root) = mount_new(8);
    let (src, _) = new_file(&mut sbi, &mut root, b"x");
    let (_, _, dir) = hayleyfs_mkdir(&mut sbi, ROOT_INO, &mut root, b"d", 0o755, 0, 0, t(3)).unwrap();
    let d = dir.get_ino();
    let mut d_info = HayleyFsDirInodeInfo::new(d).unwrap();
    let (_, y) = hayleyfs_create(&mut sbi, d, &mut d_info, b"y", 0o644, 0, 0, t(4)).unwrap();
    let y_ino = y.get_ino();
    let y_info = HayleyFsRegInodeInfo::new(y_ino).unwrap();
    let empty_dir = HayleyFsDirInodeInfo::new(y_ino).unwrap();
    let mut new_info = Some(d_info);
    hayleyfs_rename(&mut sbi, ROOT_INO, &mut root, b"x", d, &mut new_info, b"y", src, y_ino, &y_info, &empty_dir, t(13)).unwrap();
    let mut d_info = new_info.unwrap();
    assert!(hayleyfs_lookup(&mut sbi, ROOT_INO, &mut root, b"x").unwrap().is_none());
    let found = hayleyfs_lookup(&mut sbi, d, &mut d_info, b"y").unwrap().unwrap();
    assert_eq!(found.get_ino(), src);
    assert_eq!(sbi.dev.inode(y_ino).get_type(), InodeType::NONE);
}

#[test]
fn rename_across_directories_needs_target_index() {
    let (mut sbi, mut root) = mount_new(8);
    let (src, info) = new_file(&mut sbi, &mut root, b"x");
    let empty_dir = HayleyFsDirInodeInfo::new(0).unwrap();
    let mut none = None;
    let r = hayleyfs_rename(&mut sbi, ROOT_INO, &mut root, b"x", 7, &mut none, b"y", src, 0, &info, &empty_dir, t(13));
    assert_eq!(r.err(), Some(Error::EINVAL));
}

#[test]
fn create_then_unlink_restores_directory() {
    let (mut sbi, mut root) = mount_new(8);
    new_file(&mut sbi, &mut root, b"keep");
    let (before, _) = hayleyfs_readdir(&sbi, ROOT_INO, &root, 0).unwrap();
    let (ino, info) = new_file(&mut sbi, &mut root, b"tmp");
    hayleyfs_unlink(&mut sbi, ROOT_INO, &mut root, b"tmp", ino, &info, t(5)).unwrap();
    let (after, _) = hayleyfs_readdir(&sbi, ROOT_INO, &root, 0).unwrap();
    let names = |v: &Vec<hayleyfs::volatile::DentryInfo>| v.iter().map(|d| (d.get_ino(), d.get_name().as_vec())).collect::<Vec<_>>();
    assert_eq!(names(&before), names(&after));
}

#[test]
fn recover_zeroes_unreached_inodes() {
    let (mut sbi, mut root) = mount_new(8);
    new_file(&mut sbi, &mut root, b".");
    new_file(&mut sbi, &mut root, b"..");
    let (kept, _) = new_file(&mut sbi, &mut root, b"a");
    let orphan = hayleyfs::inode::InodeWrapper::get_free_reg_inode_by_ino(&sbi.dev, 9).unwrap();
    orphan.allocate_file_inode(&mut sbi.dev, 0o644, 0, 0, t(5)).unwrap();
    assert!(!sbi.dev.inode(9).is_free());
    let kept_before = sbi.dev.inode(kept);
    let root_before = sbi.dev.inode(ROOT_INO);
    hayleyfs::recovery::recover(&mut sbi).unwrap();
    assert!(sbi.dev.inode(9).is_free());
    assert_eq!(sbi.dev.inode(kept).get_size(), kept_before.get_size());
    assert!(!sbi.dev.inode(kept).is_free());
    assert_eq!(sbi.dev.inode(ROOT_INO).get_link_count(), root_before.get_link_count());
}

#[test]
fn recover_refuses_directory_without_dot_entries() {
    let (mut sbi, mut root) = mount_new(8);
    new_file(&mut sbi, &mut root, b"a");
    let orphan = hayleyfs::inode::InodeWrapper::get_free_reg_inode_by_ino(&sbi.dev, 9).unwrap();
    orphan.allocate_file_inode(&mut sbi.dev, 0o644, 0, 0, t(5)).unwrap();
    assert_eq!(hayleyfs::recovery::recover(&mut sbi).err(), Some(Error::EPERM));
    assert!(!sbi.dev.inode(9).is_free());
}

#[test]
fn recover_refuses_root_without_pages() {
    let (mut sbi, _root) = mount_new(8);
    assert_eq!(hayleyfs::recovery::recover(&mut sbi).err(), Some(Error::EPERM));
}

#[test]
fn iget_after_evict_gives_back_directory_pages() {
    let (mut sbi, mut root) = mount_new(8);
    let (_, _, dir) = hayleyfs_mkdir(&mut sbi, ROOT_INO, &mut root, b"sub", 0o700, 0, 0, t(7)).unwrap();
    let d = dir.get_ino();
    let mut sub = HayleyFsDirInodeInfo::new(d).unwrap();
    hayleyfs_create(&mut sbi, d, &mut sub, b"x", 0o644, 0, 0, t(8)).unwrap();
    let pages_before = sub.get_all_pages().unwrap().keys();
    assert_eq!(pages_before.len(), 1);
    hayleyfs::mount::evict_inode(&mut sbi, d, 0o040700, 2, InodeInfo::Dir(sub));
    let (_, info) = hayleyfs_iget(&mut sbi, d).unwrap();
    match info {
        InodeInfo::Dir(d2) => assert_eq!(d2.get_all_pages().unwrap().keys(), pages_before),
        _ => panic!("not a directory"),
    }
}

#[test]
fn iget_after_evict_gives_back_file_pages() {
    let (mut sbi, mut root) = mount_new(8);
    let (ino, mut info) = new_file(&mut sbi, &mut root, b"f");
    hayleyfs_write(&mut sbi, ino, &mut info, b"kept", 0, t(3)).unwrap();
    hayleyfs::mount::evict_inode(&mut sbi, ino, 0o100644, 1, InodeInfo::Reg(info));
    let (_, back) = hayleyfs_iget(&mut sbi, ino).unwrap();
    match back {
        InodeInfo::Reg(f) => assert_eq!(hayleyfs_read(&sbi, ino, &f, 0, 10).unwrap(), b"kept".to_vec()),
        _ => panic!("not a file"),
    }
}
