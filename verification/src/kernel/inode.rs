//! Inode operations.
use crate::defs::{from_kernel_result, kernel_value, spec_errno, Error, InodeNum};
use core::marker::PhantomData;
use vstd::prelude::*;

verus! {

/// The inode operations a file system provides; `Sb` is the state of a
/// mounted file system, which each operation gets.
pub trait Operations {
    type Sb;

    /// Looks up `name` in directory `dir`: the inode it names, if any.
    fn lookup(sb: &mut Self::Sb, dir: InodeNum, name: &[u8], flags: u32) -> Result<Option<u64>, Error>;

    /// Creates regular file `name` with mode `umode` in directory `dir`.
    fn create(sb: &mut Self::Sb, dir: InodeNum, name: &[u8], umode: u16, excl: bool) -> Result<i32, Error>;

    /// Creates directory `name` with mode `umode` in directory `dir`.
    fn mkdir(sb: &mut Self::Sb, dir: InodeNum, name: &[u8], umode: u16) -> Result<i32, Error>;

    /// Gives inode `old_ino` the further name `name` in directory `dir`.
    fn link(sb: &mut Self::Sb, old_ino: InodeNum, dir: InodeNum, name: &[u8]) -> Result<i32, Error>;
}

/// Which callbacks the inode operations table offers.
#[derive(PartialEq, Eq, Structural, Clone, Copy, Debug)]
pub struct InodeOperationsTable {
    pub lookup: bool,
    pub get_link: bool,
    pub permission: bool,
    pub get_acl: bool,
    pub readlink: bool,
    pub create: bool,
    pub link: bool,
    pub unlink: bool,
    pub symlink: bool,
    pub mkdir: bool,
    pub rmdir: bool,
    pub mknod: bool,
    pub rename: bool,
    pub setattr: bool,
    pub getattr: bool,
    pub listxattr: bool,
    pub fiemap: bool,
    pub update_time: bool,
    pub atomic_open: bool,
    pub tmpfile: bool,
    pub set_acl: bool,
    pub fileattr_set: bool,
    pub fileattr_get: bool,
}

/// What the lookup callback hands back to the kernel.
#[derive(PartialEq, Eq, Structural, Clone, Copy, Debug)]
pub enum LookupReply {
    /// An error pointer carrying the negated error number.
    ErrPtr(i64),
    /// The entry is spliced in as a negative entry: the name is not there.
    Negative,
    /// The name is there, naming this inode; setting up its in-memory inode
    /// and splicing it in is left undone.
    Unimplemented(u64),
}

/// The reply the lookup callback hands back for the lookup result `r`.
pub open spec fn reply_of(r: Result<Option<u64>, Error>) -> LookupReply {
    match r {
        Err(e) => LookupReply::ErrPtr(-spec_errno(e) as i64),
        Ok(None) => LookupReply::Negative,
        Ok(Some(ino)) => LookupReply::Unimplemented(ino),
    }
}

/// The reply of the lookup callback for the lookup result `r`.
pub fn lookup_reply(r: Result<Option<u64>, Error>) -> (out: LookupReply)
    ensures
        out == (match r {
            Err(e) => LookupReply::ErrPtr(-spec_errno(e) as i64),
            Ok(None) => LookupReply::Negative,
            Ok(Some(ino)) => LookupReply::Unimplemented(ino),
        }),
{
    match r {
        Err(e) => LookupReply::ErrPtr(e.to_kernel_errno() as i64),
        Ok(inode) => {
            if let Some(ino) = inode {
                LookupReply::Unimplemented(ino)
            } else {
                LookupReply::Negative
            }
        },
    }
}

/// The inode operations table of file system `T`.
pub struct OperationsVtable<T: Operations>(PhantomData<T>);

impl<T: Operations> OperationsVtable<T> {
    /// The lookup callback: runs `T::lookup` and hands back its reply.
    pub fn lookup_callback(sb: &mut T::Sb, dir: InodeNum, name: &[u8], flags: u32) -> (r: LookupReply)
        ensures
            r matches LookupReply::ErrPtr(e) ==> e < 0,
            exists|a: &mut T::Sb, res: Result<Option<u64>, Error>|
                #![trigger call_ensures(T::lookup, (a, dir, name, flags), res)]
                {
                    &&& call_ensures(T::lookup, (a, dir, name, flags), res)
                    &&& mut_ref_current(a) == *old(sb)
                    &&& mut_ref_future(a) == *final(sb)
                    &&& r == reply_of(res)
                },
    {
        let f = T::lookup;
        let result = f(sb, dir, name, flags);
        lookup_reply(result)
    }

    /// The create callback: runs `T::create` and hands back its result or
    /// its negated error number.
    pub fn create_callback(sb: &mut T::Sb, dir: InodeNum, name: &[u8], umode: u16, excl: bool) -> (r: i32)
        ensures
            exists|a: &mut T::Sb, res: Result<i32, Error>|
                #![trigger call_ensures(T::create, (a, dir, name, umode, excl), res)]
                {
                    &&& call_ensures(T::create, (a, dir, name, umode, excl), res)
                    &&& mut_ref_current(a) == *old(sb)
                    &&& mut_ref_future(a) == *final(sb)
                    &&& r == kernel_value(res)
                },
    {
        let f = T::create;
        let res = f(sb, dir, name, umode, excl);
        from_kernel_result(res)
    }

    /// The link callback: runs `T::link` and hands back its result or its
    /// negated error number.
    pub fn link_callback(sb: &mut T::Sb, old_ino: InodeNum, dir: InodeNum, name: &[u8]) -> (r: i32)
        ensures
            exists|a: &mut T::Sb, res: Result<i32, Error>|
                #![trigger call_ensures(T::link, (a, old_ino, dir, name), res)]
                {
                    &&& call_ensures(T::link, (a, old_ino, dir, name), res)
                    &&& mut_ref_current(a) == *old(sb)
                    &&& mut_ref_future(a) == *final(sb)
                    &&& r == kernel_value(res)
                },
    {
        let f = T::link;
        let res = f(sb, old_ino, dir, name);
        from_kernel_result(res)
    }

    /// The mkdir callback: runs `T::mkdir` and hands back its result or its
    /// negated error number.
    pub fn mkdir_callback(sb: &mut T::Sb, dir: InodeNum, name: &[u8], umode: u16) -> (r: i32)
        ensures
            exists|a: &mut T::Sb, res: Result<i32, Error>|
                #![trigger call_ensures(T::mkdir, (a, dir, name, umode), res)]
                {
                    &&& call_ensures(T::mkdir, (a, dir, name, umode), res)
                    &&& mut_ref_current(a) == *old(sb)
                    &&& mut_ref_future(a) == *final(sb)
                    &&& r == kernel_value(res)
                },
    {
        let f = T::mkdir;
        let res = f(sb, dir, name, umode);
        from_kernel_result(res)
    }

    /// Builds the table: lookup, create, link and mkdir, nothing else.
    pub fn build() -> (r: InodeOperationsTable)
        ensures
            r == (InodeOperationsTable {
                lookup: true,
                get_link: false,
                permission: false,
                get_acl: false,
                readlink: false,
                create: true,
                link: true,
                unlink: false,
                symlink: false,
                mkdir: true,
                rmdir: false,
                mknod: false,
                rename: false,
                setattr: false,
                getattr: false,
                listxattr: false,
                fiemap: false,
                update_time: false,
                atomic_open: false,
                tmpfile: false,
                set_acl: false,
                fileattr_set: false,
                fileattr_get: false,
            }),
    {
        InodeOperationsTable {
            lookup: true,
            get_link: false,
            permission: false,
            get_acl: false,
            readlink: false,
            create: true,
            link: true,
            unlink: false,
            symlink: false,
            mkdir: true,
            rmdir: false,
            mknod: false,
            rename: false,
            setattr: false,
            getattr: false,
            listxattr: false,
            fiemap: false,
            update_time: false,
            atomic_open: false,
            tmpfile: false,
            set_acl: false,
            fileattr_set: false,
            fileattr_get: false,
        }
    }
}

} // verus!
