//! Directory file operations.
use crate::defs::{kernel_value, spec_errno, Error};
use core::marker::PhantomData;
use vstd::prelude::*;

verus! {

/// The file operations a file system provides for its directories.
pub trait Operations {
    /// Whether the file system handles IO control operations on its
    /// directories.
    spec fn handles_ioctl() -> bool;

    /// Whether the file system handles IO control operations on its
    /// directories; the table offers the callback only then.
    fn has_ioctl() -> (r: bool)
        ensures
            r == Self::handles_ioctl(),
    ;

    /// Performs IO control operations specific to the directory; refused
    /// with `ENOTTY` unless the file system handles them.
    fn ioctl(cmd: u32, arg: u64) -> (r: Result<i32, Error>)
        default_ensures
            r == Err::<i32, Error>(Error::ENOTTY),
    {
        Err(Error::ENOTTY)
    }
}

/// Which callbacks the directory file operations table offers; every other
/// entry of the table is empty.
#[derive(PartialEq, Eq, Structural, Clone, Copy, Debug)]
pub struct DirOperationsTable {
    pub unlocked_ioctl: bool,
}

/// The value an IO control callback hands back for `r`: the result, or
/// the negated error number.
pub fn ioctl_reply(r: Result<i32, Error>) -> (out: i64)
    ensures
        out == (match r {
            Ok(v) => v as i64,
            Err(e) => -spec_errno(e) as i64,
        }),
{
    match r {
        Ok(v) => v as i64,
        Err(e) => e.to_kernel_errno() as i64,
    }
}

/// The directory file operations table of file system `T`.
pub struct OperationsVtable<T: Operations>(PhantomData<T>);

impl<T: Operations> OperationsVtable<T> {
    /// The IO control callback: runs `T::ioctl` and hands back its result
    /// or its negated error number.
    pub fn unlocked_ioctl_callback(cmd: u32, arg: u64) -> (r: i64)
        ensures
            i32::MIN <= r <= i32::MAX,
            exists|res: Result<i32, Error>| #[trigger] call_ensures(T::ioctl, (cmd, arg), res) && r == kernel_value(res),
    {
        let f = T::ioctl;
        let res = f(cmd, arg);
        ioctl_reply(res)
    }

    /// Builds the table: the IO control callback when `T` handles IO
    /// control operations, nothing else.
    pub fn build() -> (r: DirOperationsTable)
        ensures
            r == (DirOperationsTable { unlocked_ioctl: T::handles_ioctl() }),
    {
        DirOperationsTable { unlocked_ioctl: T::has_ioctl() }
    }
}

} // verus!
