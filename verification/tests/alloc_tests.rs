use hayleyfs::allocator::{
    free_set_from_alloc_vec, BasicInodeAllocator, PerCpuPageAllocator, RBInodeAllocator, RBPageAllocator,
};
use hayleyfs::defs::{Error, NUM_INODES};

#[test]
fn rb_page_allocator_hands_out_smallest_first() {
    let mut a = RBPageAllocator::new_from_range(6, 9, 1).unwrap();
    assert_eq!(a.alloc_page().unwrap(), 6);
    assert_eq!(a.alloc_page().unwrap(), 7);
    assert_eq!(a.alloc_page().unwrap(), 8);
    assert_eq!(a.alloc_page().err(), Some(Error::ENOSPC));
}

#[test]
fn rb_page_allocator_dealloc_then_realloc() {
    let mut a = RBPageAllocator::new_from_range(6, 9, 1).unwrap();
    assert_eq!(a.alloc_page().unwrap(), 6);
    assert_eq!(a.alloc_page().unwrap(), 7);
    assert!(a.dealloc_page(6).is_ok());
    assert_eq!(a.alloc_page().unwrap(), 6);
    assert_eq!(a.dealloc_page(8).err(), Some(Error::EINVAL));
}

#[test]
fn rb_page_allocator_from_alloc_vec_skips_used() {
    let mut a = RBPageAllocator::new_from_alloc_vec(vec![6, 8], 6, 10, 1).unwrap();
    assert_eq!(a.alloc_page().unwrap(), 7);
    assert_eq!(a.alloc_page().unwrap(), 9);
    assert_eq!(a.alloc_page().err(), Some(Error::ENOSPC));
}

#[test]
fn alloc_vec_out_of_order_is_refused() {
    assert_eq!(RBPageAllocator::new_from_alloc_vec(vec![8, 7], 6, 10, 1).err(), Some(Error::EINVAL));
    assert!(free_set_from_alloc_vec(&vec![9, 7], 6, 12).is_err());
}

#[test]
fn free_set_from_alloc_vec_values() {
    let m = free_set_from_alloc_vec(&vec![2, 4, 20], 1, 6).unwrap();
    assert_eq!(m.keys(), vec![1, 3, 5]);
    let all = free_set_from_alloc_vec(&vec![], 3, 5).unwrap();
    assert_eq!(all.keys(), vec![3, 4]);
}

#[test]
fn per_cpu_allocator_uses_own_pool() {
    let mut a = PerCpuPageAllocator::new_from_range(6, 14, 2).unwrap();
    assert_eq!(a.alloc_page(0).unwrap(), 6);
    assert_eq!(a.alloc_page(1).unwrap(), 10);
    assert_eq!(a.alloc_page(1).unwrap(), 11);
    assert_eq!(a.alloc_page(0).unwrap(), 7);
}

#[test]
fn per_cpu_allocator_borrows_from_fullest_pool() {
    let mut a = PerCpuPageAllocator::new_from_range(6, 10, 2).unwrap();
    assert_eq!(a.alloc_page(0).unwrap(), 6);
    assert_eq!(a.alloc_page(0).unwrap(), 7);
    // pool 0 is empty now: the page comes from pool 1
    assert_eq!(a.alloc_page(0).unwrap(), 8);
    assert_eq!(a.alloc_page(1).unwrap(), 9);
    assert_eq!(a.alloc_page(0).err(), Some(Error::ENOSPC));
}

#[test]
fn per_cpu_allocator_dealloc_returns_to_pool() {
    let mut a = PerCpuPageAllocator::new_from_range(6, 10, 2).unwrap();
    assert_eq!(a.alloc_page(1).unwrap(), 8);
    assert!(a.dealloc_page(8).is_ok());
    assert_eq!(a.dealloc_page(8).err(), Some(Error::EINVAL));
    assert_eq!(a.alloc_page(1).unwrap(), 8);
}

#[test]
fn per_cpu_allocator_rebuilt_from_alloc_vec() {
    let mut a = PerCpuPageAllocator::new_from_alloc_vec(vec![6, 9], 6, 10, 2).unwrap();
    assert_eq!(a.alloc_page(0).unwrap(), 7);
    assert_eq!(a.alloc_page(1).unwrap(), 8);
    assert_eq!(PerCpuPageAllocator::new_from_alloc_vec(vec![7, 6], 6, 10, 2).err(), Some(Error::EINVAL));
}

#[test]
fn per_cpu_rebuild_gives_tail_pages_to_last_cpu() {
    let mut a = PerCpuPageAllocator::new_from_alloc_vec(vec![], 6, 16, 3).unwrap();
    assert_eq!(a.alloc_page(2).unwrap(), 12);
    assert_eq!(a.alloc_page(2).unwrap(), 13);
    assert_eq!(a.alloc_page(2).unwrap(), 14);
    assert_eq!(a.alloc_page(2).unwrap(), 15);
    assert_eq!(a.alloc_page(2).unwrap(), 6);
    assert!(a.dealloc_page(15).is_ok());
    assert_eq!(a.alloc_page(2).unwrap(), 15);
    assert_eq!(a.alloc_page(1).unwrap(), 9);
}

#[test]
fn rb_inode_allocator_values() {
    let mut a = RBInodeAllocator::new(NUM_INODES - 2).unwrap();
    assert_eq!(a.alloc_ino().unwrap(), NUM_INODES - 2);
    assert_eq!(a.alloc_ino().unwrap(), NUM_INODES - 1);
    assert_eq!(a.alloc_ino().err(), Some(Error::ENOSPC));
    assert!(a.dealloc_ino(NUM_INODES - 2).is_ok());
    assert_eq!(a.dealloc_ino(NUM_INODES - 2).err(), Some(Error::EINVAL));
    assert_eq!(a.alloc_ino().unwrap(), NUM_INODES - 2);
}

#[test]
fn rb_inode_allocator_from_alloc_vec() {
    let mut a = RBInodeAllocator::new_from_alloc_vec(vec![1, 2, 4], 1).unwrap();
    assert_eq!(a.alloc_ino().unwrap(), 3);
    assert_eq!(a.alloc_ino().unwrap(), 5);
    assert_eq!(RBInodeAllocator::new_from_alloc_vec(vec![4, 3], 2).err(), Some(Error::EINVAL));
}

#[test]
fn basic_inode_allocator_counts_up() {
    let mut a = BasicInodeAllocator::new(NUM_INODES - 2);
    assert_eq!(a.alloc_ino().unwrap(), NUM_INODES - 2);
    assert_eq!(a.alloc_ino().unwrap(), NUM_INODES - 1);
    assert_eq!(a.alloc_ino().err(), Some(Error::ENOSPC));
}
