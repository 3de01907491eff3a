//! Verified core of a persistent-memory file system.
pub mod allocator;
pub mod bitmap;
pub mod defs;
pub mod dentry;
pub mod file;
pub mod fs;
pub mod inode;
pub mod kernel;
pub mod mount;
pub mod namei;
pub mod page;
pub mod pm;
pub mod ramfs;
pub mod recovery;
pub mod sorted;
pub mod typestate;
pub mod volatile;
