use myvec::MyVec;

#[test]
fn byte_view_of_empty_is_empty() {
    let v: MyVec<i32> = MyVec::new();
    assert_eq!(v.byte_len(), 0);
    let b: MyVec<u8> = MyVec::new();
    assert_eq!(b.as_bytes().len(), 0);
    assert!(b.as_bytes().is_empty());
}

#[test]
fn byte_length_is_count_times_size() {
    let v = MyVec::from_iter(vec![1u64, 2, 3, 4, 5].into_iter());
    assert_eq!(v.byte_len(), 40);
    let v = MyVec::from_iter(vec![1u16, 2, 3].into_iter());
    assert_eq!(v.byte_len(), 6);
    let v = MyVec::from_iter(vec![[0u8; 3], [1u8; 3]].into_iter());
    assert_eq!(v.byte_len(), 6);
    let v = MyVec::from_iter(vec![(), (), ()].into_iter());
    assert_eq!(v.byte_len(), 0);
}

#[test]
fn bytes_are_their_own_view() {
    let v = MyVec::from_iter(vec![104u8, 105u8].into_iter());
    assert_eq!(v.as_bytes(), b"hi");
    assert_eq!(v.as_bytes().len(), v.byte_len());
    assert_eq!(v.byte_len(), 2);
}

#[test]
fn collect_then_clone_then_byte_view() {
    let numbers: MyVec<i32> = MyVec::from_iter(vec![1, 2, 3].into_iter());
    let copy = numbers.try_clone().ok().expect("room for three elements");
    assert_eq!(copy.as_slice(), &[1, 2, 3]);
    assert_eq!(copy.byte_len(), 3 * std::mem::size_of::<i32>());
    assert_eq!(copy.byte_len(), 12);
}
