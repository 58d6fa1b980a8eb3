use optic::allocator::IdAllocator;
use optic::allocator::ID_LIMIT;

#[test]
fn a_new_allocator_counts_from_zero() {
    let mut allocator = IdAllocator::new();
    assert_eq!(allocator.remaining(), ID_LIMIT);
    assert_eq!(allocator.allocate(), Some(0));
    assert_eq!(allocator.allocate(), Some(1));
    assert_eq!(allocator.allocate(), Some(2));
    assert_eq!(allocator.remaining(), ID_LIMIT - 3);
}

#[test]
fn a_recovered_allocator_continues_after_the_largest_key() {
    assert_eq!(IdAllocator::recover(&vec![]).allocate(), Some(0));
    assert_eq!(IdAllocator::recover(&vec![0, 1, 2]).allocate(), Some(3));
    assert_eq!(IdAllocator::recover(&vec![5, 2, 9, 9, 0]).allocate(), Some(10));
    assert_eq!(IdAllocator::recover(&vec![0]).allocate(), Some(1));
}

#[test]
fn an_allocator_gives_the_last_key_and_then_none() {
    let mut allocator = IdAllocator::recover(&vec![u32::MAX - 1]);
    assert_eq!(allocator.remaining(), 1);
    assert_eq!(allocator.allocate(), Some(u32::MAX));
    assert_eq!(allocator.remaining(), 0);
    assert_eq!(allocator.allocate(), None);
    assert_eq!(allocator.allocate(), None);
    assert_eq!(allocator.remaining(), 0);
}

#[test]
fn an_allocator_recovered_from_the_last_key_is_exhausted() {
    let mut allocator = IdAllocator::recover(&vec![7, u32::MAX]);
    assert_eq!(allocator.remaining(), 0);
    assert_eq!(allocator.allocate(), None);
}
