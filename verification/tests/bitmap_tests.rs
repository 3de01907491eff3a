use hayleyfs::bitmap::{PageBitmap, RBDataTree, PAGE_BITMAP_SIZE};
use hayleyfs::defs::Error;

#[test]
fn bitmap_skips_reserved_pages() {
    let mut b = PageBitmap::new().unwrap();
    assert_eq!(b.alloc_page().unwrap(), 5);
    assert_eq!(b.alloc_page().unwrap(), 6);
}

#[test]
fn bitmap_dealloc_then_reuse() {
    let mut b = PageBitmap::new().unwrap();
    assert_eq!(b.alloc_page().unwrap(), 5);
    assert_eq!(b.alloc_page().unwrap(), 6);
    assert!(b.dealloc_page(5).is_ok());
    assert_eq!(b.alloc_page().unwrap(), 5);
    assert_eq!(b.alloc_page().unwrap(), 7);
}

#[test]
fn bitmap_dealloc_errors() {
    let mut b = PageBitmap::new().unwrap();
    assert_eq!(b.dealloc_page(9).err(), Some(Error::EINVAL));
    assert_eq!(b.dealloc_page(PAGE_BITMAP_SIZE).err(), Some(Error::EINVAL));
    assert!(b.dealloc_page(0).is_ok());
    assert_eq!(b.alloc_page().unwrap(), 0);
}

#[test]
fn data_tree_files_and_pages() {
    let mut t = RBDataTree::new();
    assert_eq!(t.insert_page(3, 100, 0).err(), Some(Error::ENOENT));
    assert!(t.insert_file(3).is_ok());
    assert_eq!(t.insert_file(3).err(), Some(Error::EEXIST));
    assert!(t.insert_page(3, 100, 0).is_ok());
    assert!(t.insert_page(3, 101, 4096).is_ok());
    assert_eq!(t.lookup(3, 0), Some(100));
    assert_eq!(t.lookup(3, 4096), Some(101));
    assert_eq!(t.lookup(3, 8192), None);
    assert_eq!(t.lookup(4, 0), None);
    assert!(t.insert_page(3, 102, 0).is_ok());
    assert_eq!(t.lookup(3, 0), Some(102));
}

#[test]
fn data_tree_removals() {
    let mut t = RBDataTree::new();
    t.insert_file(7).unwrap();
    t.insert_page(7, 50, 0).unwrap();
    assert_eq!(t.remove_page(7, 4096).err(), Some(Error::EINVAL));
    assert_eq!(t.remove_page(8, 0).err(), Some(Error::ENOENT));
    assert!(t.remove_page(7, 0).is_ok());
    assert_eq!(t.lookup(7, 0), None);
    assert!(t.remove_file(7).is_ok());
    assert_eq!(t.remove_file(7).err(), Some(Error::ENOENT));
}
