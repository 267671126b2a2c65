use storage::{Layout, MultiStackStorage, SingleStackStorage, Vec as ByteVec};

#[test]
fn vec_push_pop_and_reserve() {
    let mut v = ByteVec::try_with_capacity_in(2, MultiStackStorage::<128, 8>::new()).ok().unwrap();
    assert!(v.is_empty());
    assert_eq!(v.capacity(), 2);
    assert_eq!(v.try_push(1), Ok(()));
    assert_eq!(v.try_push(2), Ok(()));
    assert_eq!(v.try_push(3), Err(3));
    assert_eq!(v.len(), 2);
    v.try_reserve(3).ok().unwrap();
    assert!(v.capacity() >= 5);
    assert_eq!(v.try_push(3), Ok(()));
    assert_eq!(v.try_pop(), Some(3));
    assert_eq!(v.try_pop(), Some(2));
    assert_eq!(v.try_pop(), Some(1));
    assert_eq!(v.try_pop(), None);
}

#[test]
fn vec_new_and_failing_capacity() {
    let v = ByteVec::new_in(MultiStackStorage::<16, 8>::new());
    assert_eq!(v.capacity(), 0);
    let v = ByteVec::with_capacity_in(8, SingleStackStorage::<16, 8>::new());
    // a single slot hands out its whole size, and the vector keeps it all
    assert_eq!(v.capacity(), 16);
    let err = ByteVec::try_with_capacity_in(32, SingleStackStorage::<16, 8>::new()).err().unwrap();
    assert_eq!(err.0, Layout::from_size_align(32, 1).unwrap());
}
