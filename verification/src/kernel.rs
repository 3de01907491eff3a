//! The tables of callbacks the kernel calls for a file system, and the
//! traits a file system implements to fill them.
pub mod dir;
pub mod inode;
