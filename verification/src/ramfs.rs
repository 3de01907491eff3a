//! A file system kept in memory only: what its operations decide.
//!
//! The kernel keeps the inodes and entries; these functions decide what a
//! new inode is, what an operation answers and how the directory it works
//! in changes, from the values the kernel hands over (the number a new
//! inode got, or none when no inode could be had, the current time, the
//! result of storing a link target).
#![allow(non_camel_case_types)]
use crate::defs::{spec_errno, Error, S_IFDIR, S_IFLNK, S_IFMT, S_IFREG};
use crate::pm::Timespec;
use vstd::prelude::*;

verus! {

/// The mode of the root directory when no mode option is given.
pub const RAMFS_DEFAULT_MODE: u16 = 0o755;

/// The permission and special bits of a mode.
pub const S_IALLUGO: u16 = 0o7777;

/// Read, write and execute for everyone.
pub const S_IRWXUGO: u16 = 0o777;

/// The kernel's answer for a parameter the file system does not know.
pub const ENOPARAM: i32 = 519;

/// The mount options.
#[derive(Clone, Copy)]
pub struct ramfs_mount_opts {
    pub mode: u16,
}

/// The state of a mounted file system.
#[derive(Clone, Copy)]
pub struct ramfs_fs_info {
    pub mount_opts: ramfs_mount_opts,
}

/// The mount parameters.
pub enum ramfs_param {
    Opt_mode,
}

/// The answer an operation gives for error `e`: its negated number.
pub open spec fn errno_reply(e: Error) -> i32 {
    (-spec_errno(e)) as i32
}

/// The number the parser gives the `mode` parameter.
pub open spec fn opt_mode_code() -> i32 {
    0
}

/// What kind of object an inode is, from the type bits of its mode.
#[derive(PartialEq, Eq, Structural, Clone, Copy, Debug)]
pub enum RamfsKind {
    Regular,
    Directory,
    Symlink,
    Special,
}

/// The kind the type bits of `mode` give.
pub open spec fn kind_of(mode: u16) -> RamfsKind {
    if mode & S_IFMT == S_IFREG {
        RamfsKind::Regular
    } else if mode & S_IFMT == S_IFDIR {
        RamfsKind::Directory
    } else if mode & S_IFMT == S_IFLNK {
        RamfsKind::Symlink
    } else {
        RamfsKind::Special
    }
}

/// A new inode.
#[derive(Clone, Copy)]
pub struct RamfsInode {
    pub ino: u64,
    pub mode: u16,
    pub kind: RamfsKind,
    pub nlink: u32,
    pub atime: Timespec,
    pub mtime: Timespec,
    pub ctime: Timespec,
}

/// The inode numbered `ino` of mode `mode` made at time `now`: a directory
/// starts with two links (its entry and its `.`), anything else with one.
pub open spec fn new_inode_spec(ino: u64, mode: u16, now: Timespec) -> RamfsInode {
    RamfsInode {
        ino,
        mode,
        kind: kind_of(mode),
        nlink: if kind_of(mode) == RamfsKind::Directory { 2 } else { 1 },
        atime: now,
        mtime: now,
        ctime: now,
    }
}

/// What an operation needs of the directory it works in.
#[derive(Clone, Copy)]
pub struct RamfsDir {
    pub nlink: u32,
    pub mtime: Timespec,
    pub ctime: Timespec,
}

/// Sets up a new inode of mode `mode` at time `now` in the slot the kernel
/// handed out, numbered `new`; none when the kernel had no inode to give.
pub fn ramfs_get_inode(new: Option<u64>, mode: u16, now: Timespec) -> (r: Option<RamfsInode>)
    ensures
        r == (match new {
            None => None,
            Some(ino) => Some(new_inode_spec(ino, mode, now)),
        }),
{
    match new {
        None => None,
        Some(ino) => {
            let t = mode & S_IFMT;
            let (kind, nlink) = if t == S_IFREG {
                (RamfsKind::Regular, 1u32)
            } else if t == S_IFDIR {
                (RamfsKind::Directory, 2u32)
            } else if t == S_IFLNK {
                (RamfsKind::Symlink, 1u32)
            } else {
                (RamfsKind::Special, 1u32)
            };
            Some(RamfsInode { ino, mode, kind, nlink, atime: now, mtime: now, ctime: now })
        },
    }
}

/// Makes an entry in `dir` for a new inode of mode `mode`, numbered `new`:
/// the directory's modification and change times become `now` and 0 is
/// returned with the inode; with no inode to be had the answer is `-ENOSPC`
/// and the directory is left as it was.
pub fn ramfs_mknod(dir: &mut RamfsDir, new: Option<u64>, mode: u16, now: Timespec) -> (r: (i32, Option<RamfsInode>))
    ensures
        (match new {
            None => r == (errno_reply(Error::ENOSPC), None::<RamfsInode>) && *final(dir) == *old(dir),
            Some(ino) => r == (0i32, Some(new_inode_spec(ino, mode, now))) && *final(dir) == (RamfsDir {
                mtime: now,
                ctime: now,
                ..*old(dir)
            }),
        }),
{
    match ramfs_get_inode(new, mode, now) {
        Some(inode) => {
            dir.mtime = now;
            dir.ctime = now;
            (0, Some(inode))
        },
        None => (Error::ENOSPC.to_kernel_errno(), None),
    }
}

/// Makes directory `mode` in `dir` (see `ramfs_mknod`); on success the
/// parent gains a link for the new directory's `..`.
pub fn ramfs_mkdir(dir: &mut RamfsDir, new: Option<u64>, mode: u16, now: Timespec) -> (r: (i32, Option<RamfsInode>))
    requires
        old(dir).nlink < u32::MAX,
    ensures
        (match new {
            None => r == (errno_reply(Error::ENOSPC), None::<RamfsInode>) && *final(dir) == *old(dir),
            Some(ino) => r == (0i32, Some(new_inode_spec(ino, mode | S_IFDIR, now))) && *final(dir) == (RamfsDir {
                nlink: (old(dir).nlink + 1) as u32,
                mtime: now,
                ctime: now,
            }),
        }),
{
    let (retval, inode) = ramfs_mknod(dir, new, mode | S_IFDIR, now);
    if retval == 0 {
        dir.nlink = dir.nlink + 1;
    }
    (retval, inode)
}

/// Makes regular file `mode` in `dir` (see `ramfs_mknod`).
pub fn ramfs_create(dir: &mut RamfsDir, new: Option<u64>, mode: u16, now: Timespec) -> (r: (i32, Option<RamfsInode>))
    ensures
        (match new {
            None => r == (errno_reply(Error::ENOSPC), None::<RamfsInode>) && *final(dir) == *old(dir),
            Some(ino) => r == (0i32, Some(new_inode_spec(ino, mode | S_IFREG, now))) && *final(dir) == (RamfsDir {
                mtime: now,
                ctime: now,
                ..*old(dir)
            }),
        }),
{
    ramfs_mknod(dir, new, mode | S_IFREG, now)
}

/// The mode of every symbolic link.
pub open spec fn symlink_mode() -> u16 {
    S_IFLNK | S_IRWXUGO
}

/// Makes a symbolic link in `dir`: a new inode readable, writable and
/// executable by everyone, numbered `new`, whose target was then stored
/// with result `link_err`.  Without an inode the answer is `-ENOSPC`; when
/// storing the target failed, its error is the answer and the inode is
/// dropped; otherwise the entry is made, the directory's times become
/// `now` and 0 is returned with the inode.
pub fn ramfs_symlink(dir: &mut RamfsDir, new: Option<u64>, link_err: i32, now: Timespec) -> (r: (
    i32,
    Option<RamfsInode>,
))
    ensures
        (match new {
            None => r == (errno_reply(Error::ENOSPC), None::<RamfsInode>) && *final(dir) == *old(dir),
            Some(ino) => if link_err != 0 {
                r == (link_err, None::<RamfsInode>) && *final(dir) == *old(dir)
            } else {
                r == (0i32, Some(new_inode_spec(ino, symlink_mode(), now))) && *final(dir) == (RamfsDir {
                    mtime: now,
                    ctime: now,
                    ..*old(dir)
                })
            },
        }),
{
    let inode = ramfs_get_inode(new, S_IFLNK | S_IRWXUGO, now);
    match inode {
        None => (Error::ENOSPC.to_kernel_errno(), None),
        Some(inode) => {
            if link_err != 0 {
                (link_err, None)
            } else {
                dir.mtime = now;
                dir.ctime = now;
                (0, Some(inode))
            }
        },
    }
}

/// Makes an unnamed inode of mode `mode`, numbered `new`, at time `now`;
/// without an inode the answer is `-ENOSPC`.
pub fn ramfs_tmpfile(new: Option<u64>, mode: u16, now: Timespec) -> (r: (i32, Option<RamfsInode>))
    ensures
        r == (match new {
            None => (errno_reply(Error::ENOSPC), None::<RamfsInode>),
            Some(ino) => (0i32, Some(new_inode_spec(ino, mode, now))),
        }),
{
    match ramfs_get_inode(new, mode, now) {
        Some(inode) => (0, Some(inode)),
        None => (Error::ENOSPC.to_kernel_errno(), None),
    }
}

/// Takes mount parameter `opt`, as the parser numbered it, with value
/// `value`: the mode parameter sets the mode to the value's permission and
/// special bits; a parameter the parser does not know is ignored; another
/// parser error is the answer; anything else is ignored.
pub fn ramfs_parse_param(fsi: &mut ramfs_fs_info, opt: i32, value: u32) -> (r: i32)
    ensures
        r == (if opt != opt_mode_code() && opt != -ENOPARAM && opt < 0 { opt } else { 0i32 }),
        final(fsi).mount_opts.mode == (if opt == opt_mode_code() {
            (value & (S_IALLUGO as u32)) as u16
        } else {
            old(fsi).mount_opts.mode
        }),
{
    let enoparam = -ENOPARAM;
    if opt == 0 {
        fsi.mount_opts.mode = (value & (S_IALLUGO as u32)) as u16;
    } else if opt == enoparam {
    } else if opt < 0 {
        return opt;
    }
    0
}

/// The mode to show among the mount options: the mount's mode when it is
/// not the default one, none otherwise.
pub fn ramfs_show_options(fsi: &ramfs_fs_info) -> (r: Option<u16>)
    ensures
        r == (if fsi.mount_opts.mode != RAMFS_DEFAULT_MODE {
            Some(fsi.mount_opts.mode)
        } else {
            None::<u16>
        }),
{
    if fsi.mount_opts.mode != RAMFS_DEFAULT_MODE {
        Some(fsi.mount_opts.mode)
    } else {
        None
    }
}

/// The state a new mount starts from, when memory for it could be had
/// (`allocated`): the default mode; otherwise the answer is `-ENOMEM`.
pub fn ramfs_init_fs_context(allocated: bool) -> (r: (i32, Option<ramfs_fs_info>))
    ensures
        r == (if allocated {
            (0i32, Some(ramfs_fs_info { mount_opts: ramfs_mount_opts { mode: RAMFS_DEFAULT_MODE } }))
        } else {
            (errno_reply(Error::ENOMEM), None::<ramfs_fs_info>)
        }),
{
    if allocated {
        (0, Some(ramfs_fs_info { mount_opts: ramfs_mount_opts { mode: RAMFS_DEFAULT_MODE } }))
    } else {
        (Error::ENOMEM.to_kernel_errno(), None)
    }
}

/// Sets up the root of a mount: a directory of the mount's mode, numbered
/// `new`, made at `now`.  When no inode could be had, or the root entry
/// could not be made for it (`root_made` false), the answer is `-ENOMEM`.
pub fn ramfs_fill_super(fsi: &ramfs_fs_info, new: Option<u64>, root_made: bool, now: Timespec) -> (r: (
    i32,
    Option<RamfsInode>,
))
    ensures
        r == (match new {
            Some(ino) => if root_made {
                (0i32, Some(new_inode_spec(ino, S_IFDIR | fsi.mount_opts.mode, now)))
            } else {
                (errno_reply(Error::ENOMEM), None::<RamfsInode>)
            },
            None => (errno_reply(Error::ENOMEM), None::<RamfsInode>),
        }),
{
    let inode = ramfs_get_inode(new, S_IFDIR | fsi.mount_opts.mode, now);
    match inode {
        Some(root) => {
            if root_made {
                (0, Some(root))
            } else {
                (Error::ENOMEM.to_kernel_errno(), None)
            }
        },
        None => (Error::ENOMEM.to_kernel_errno(), None),
    }
}

} // verus!
