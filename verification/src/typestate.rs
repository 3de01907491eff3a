//! Zero-sized types naming the persistence state and the operation state
//! of a persistent object, and the groups of states an operation accepts.
use vstd::prelude::*;

verus! {

/// Written but not yet flushed.
pub struct Dirty {}

/// Flushed but not yet fenced.
pub struct InFlight {}

/// Durable.
pub struct Clean {}

pub struct Start {}

pub struct Free {}

pub struct Alloc {}

pub struct Init {}

pub struct IncLink {}

pub struct Complete {}

pub struct Writeable {}

pub struct Written {}

pub struct IncSize {}

pub struct ClearIno {}

pub struct DecLink {}

pub struct Dealloc {}

pub struct ToUnmap {}

pub struct SetRenamePointer {}

pub struct InitRenamePointer {}

pub struct Renaming {}

pub struct Renamed {}

/// States in which an object is initialized.
pub trait Initialized {}

impl Initialized for Init {}

impl Initialized for Start {}

impl Initialized for Complete {}

impl Initialized for Written {}

impl Initialized for Writeable {}

/// States in which an inode may gain a link.
pub trait AddLink {}

impl AddLink for Alloc {}

impl AddLink for IncLink {}

/// States in which an inode may gain a page.
pub trait AddPage {}

impl AddPage for Start {}

impl AddPage for Alloc {}

/// States in which a directory entry may be deleted.
pub trait DeletableDentry {}

impl DeletableDentry for Start {}

impl DeletableDentry for Renamed {}

/// Marks an inode wrapper as describing a regular file.
pub struct RegInode {}

/// Marks an inode wrapper as describing a directory.
pub struct DirInode {}

pub trait AnyInode {}

impl AnyInode for RegInode {}

impl AnyInode for DirInode {}

} // verus!
