use hayleyfs::defs::{S_IFDIR, S_IFLNK, S_IFREG};
use hayleyfs::pm::Timespec;
use hayleyfs::ramfs::{
    ramfs_create, ramfs_fill_super, ramfs_fs_info, ramfs_get_inode, ramfs_init_fs_context, ramfs_mkdir, ramfs_mknod,
    ramfs_mount_opts, ramfs_parse_param, ramfs_show_options, ramfs_symlink, ramfs_tmpfile, RamfsDir, RamfsKind,
    ENOPARAM, RAMFS_DEFAULT_MODE,
};

fn t(s: i64) -> Timespec {
    Timespec { tv_sec: s, tv_nsec: 0 }
}

fn dir() -> RamfsDir {
    RamfsDir { nlink: 2, mtime: t(1), ctime: t(1) }
}

#[test]
fn get_inode_kinds() {
    let f = ramfs_get_inode(Some(10), S_IFREG | 0o644, t(5)).unwrap();
    assert_eq!(f.kind, RamfsKind::Regular);
    assert_eq!(f.nlink, 1);
    assert_eq!(f.ino, 10);
    assert_eq!(f.mtime, t(5));
    let d = ramfs_get_inode(Some(11), S_IFDIR | 0o755, t(5)).unwrap();
    assert_eq!(d.kind, RamfsKind::Directory);
    assert_eq!(d.nlink, 2);
    let l = ramfs_get_inode(Some(12), S_IFLNK | 0o777, t(5)).unwrap();
    assert_eq!(l.kind, RamfsKind::Symlink);
    let c = ramfs_get_inode(Some(13), 0o020644, t(5)).unwrap();
    assert_eq!(c.kind, RamfsKind::Special);
    assert!(ramfs_get_inode(None, S_IFREG, t(5)).is_none());
}

#[test]
fn mknod_sets_directory_times() {
    let mut d = dir();
    let (r, inode) = ramfs_mknod(&mut d, Some(3), S_IFREG | 0o600, t(9));
    assert_eq!(r, 0);
    assert_eq!(inode.unwrap().mode, S_IFREG | 0o600);
    assert_eq!(d.mtime, t(9));
    assert_eq!(d.ctime, t(9));
    assert_eq!(d.nlink, 2);
}

#[test]
fn mknod_without_inode_is_enospc() {
    let mut d = dir();
    let (r, inode) = ramfs_mknod(&mut d, None, S_IFREG, t(9));
    assert_eq!(r, -28);
    assert!(inode.is_none());
    assert_eq!(d.mtime, t(1));
}

#[test]
fn mkdir_adds_parent_link() {
    let mut d = dir();
    let (r, inode) = ramfs_mkdir(&mut d, Some(4), 0o700, t(3));
    assert_eq!(r, 0);
    let inode = inode.unwrap();
    assert_eq!(inode.mode, S_IFDIR | 0o700);
    assert_eq!(inode.kind, RamfsKind::Directory);
    assert_eq!(d.nlink, 3);
    let (r2, _) = ramfs_mkdir(&mut d, None, 0o700, t(4));
    assert_eq!(r2, -28);
    assert_eq!(d.nlink, 3);
}

#[test]
fn create_makes_regular_file() {
    let mut d = dir();
    let (r, inode) = ramfs_create(&mut d, Some(5), 0o640, t(2));
    assert_eq!(r, 0);
    assert_eq!(inode.unwrap().mode, S_IFREG | 0o640);
}

#[test]
fn symlink_outcomes() {
    let mut d = dir();
    let (r, inode) = ramfs_symlink(&mut d, Some(6), 0, t(7));
    assert_eq!(r, 0);
    assert_eq!(inode.unwrap().mode, S_IFLNK | 0o777);
    assert_eq!(d.mtime, t(7));
    let mut d2 = dir();
    let (r2, inode2) = ramfs_symlink(&mut d2, Some(7), -12, t(7));
    assert_eq!(r2, -12);
    assert!(inode2.is_none());
    assert_eq!(d2.mtime, t(1));
    let (r3, _) = ramfs_symlink(&mut d2, None, 0, t(7));
    assert_eq!(r3, -28);
}

#[test]
fn tmpfile_outcomes() {
    assert_eq!(ramfs_tmpfile(Some(8), S_IFREG, t(1)).0, 0);
    assert_eq!(ramfs_tmpfile(None, S_IFREG, t(1)).0, -28);
}

#[test]
fn parse_param_mode_and_errors() {
    let mut fsi = ramfs_fs_info { mount_opts: ramfs_mount_opts { mode: RAMFS_DEFAULT_MODE } };
    assert_eq!(ramfs_parse_param(&mut fsi, 0, 0o170700), 0);
    assert_eq!(fsi.mount_opts.mode, 0o700);
    assert_eq!(ramfs_parse_param(&mut fsi, -ENOPARAM, 0o111), 0);
    assert_eq!(fsi.mount_opts.mode, 0o700);
    assert_eq!(ramfs_parse_param(&mut fsi, -22, 0o111), -22);
    assert_eq!(ramfs_parse_param(&mut fsi, 3, 0o111), 0);
    assert_eq!(fsi.mount_opts.mode, 0o700);
}

#[test]
fn show_options_only_when_not_default() {
    let fsi = ramfs_fs_info { mount_opts: ramfs_mount_opts { mode: RAMFS_DEFAULT_MODE } };
    assert_eq!(ramfs_show_options(&fsi), None);
    let fsi2 = ramfs_fs_info { mount_opts: ramfs_mount_opts { mode: 0o700 } };
    assert_eq!(ramfs_show_options(&fsi2), Some(0o700));
}

#[test]
fn init_fs_context_defaults() {
    let (r, fsi) = ramfs_init_fs_context(true);
    assert_eq!(r, 0);
    assert_eq!(fsi.unwrap().mount_opts.mode, 0o755);
    let (r2, fsi2) = ramfs_init_fs_context(false);
    assert_eq!(r2, -12);
    assert!(fsi2.is_none());
}

#[test]
fn fill_super_root() {
    let fsi = ramfs_fs_info { mount_opts: ramfs_mount_opts { mode: 0o711 } };
    let (r, root) = ramfs_fill_super(&fsi, Some(1), true, t(4));
    assert_eq!(r, 0);
    let root = root.unwrap();
    assert_eq!(root.mode, S_IFDIR | 0o711);
    assert_eq!(root.nlink, 2);
    assert_eq!(ramfs_fill_super(&fsi, Some(1), false, t(4)).0, -12);
    assert_eq!(ramfs_fill_super(&fsi, None, true, t(4)).0, -12);
}
