use myvec::{AllocError, MyVec};

#[test]
fn try_push_appends_in_order() {
    let mut v: MyVec<i32> = MyVec::new();
    assert_eq!(v.try_push(1), Ok(()));
    assert_eq!(v.try_push(2), Ok(()));
    assert_eq!(v.try_push(3), Ok(()));
    assert_eq!(v.as_slice(), &[1, 2, 3]);
    assert_eq!(v.len(), 3);
    assert!(v.capacity() >= 3);
}

#[test]
fn push_given_room_appends() {
    let mut v: MyVec<i32> = MyVec::new();
    assert_eq!(v.push_given(true, 7), Ok(()));
    assert_eq!(v.as_slice(), &[7]);
    assert!(v.capacity() >= 1);
}

#[test]
fn push_given_a_refusal_changes_nothing() {
    let mut v: MyVec<i32> = MyVec::new();
    assert_eq!(v.push_given(true, 7), Ok(()));
    let room = v.capacity();
    assert_eq!(v.push_given(false, 8), Err(AllocError::OutOfMemory));
    assert_eq!(v.as_slice(), &[7]);
    assert_eq!(v.capacity(), room);
}

#[test]
fn try_reserve_keeps_the_elements() {
    let mut v: MyVec<u8> = MyVec::new();
    assert_eq!(v.try_push(4), Ok(()));
    assert_eq!(v.try_reserve(100), Ok(()));
    assert!(v.capacity() >= 101);
    assert_eq!(v.as_slice(), &[4]);
}

#[test]
fn try_reserve_reports_what_cannot_be_had() {
    let mut v: MyVec<u64> = MyVec::new();
    assert_eq!(v.try_push(4), Ok(()));
    let room = v.capacity();
    assert_eq!(v.try_reserve(usize::MAX), Err(AllocError::OutOfMemory));
    assert_eq!(v.capacity(), room);
    assert_eq!(v.as_slice(), &[4]);
}

#[test]
fn reserve_given_counts_only_room_that_is_there() {
    let mut v: MyVec<i32> = MyVec::new();
    assert_eq!(v.push_given(true, 1), Ok(()));
    let room = v.capacity();
    assert_eq!(v.reserve_given(5, true, 5), Err(AllocError::OutOfMemory));
    assert_eq!(v.capacity(), room);
    assert_eq!(v.reserve_given(5, false, 6), Err(AllocError::OutOfMemory));
    assert_eq!(v.capacity(), room);
    assert_eq!(v.reserve_given(5, true, 6), Ok(()));
    assert_eq!(v.capacity(), 6);
    assert_eq!(v.reserve_given(usize::MAX, true, usize::MAX), Err(AllocError::OutOfMemory));
    assert_eq!(v.capacity(), 6);
    assert_eq!(v.as_slice(), &[1]);
}

#[test]
fn elements_are_read_and_written_in_place() {
    let mut v = MyVec::from_iter(vec![10, 20, 30].into_iter());
    assert_eq!(v.get(1), Some(&20));
    assert_eq!(v.get(3), None);
    assert_eq!(v.first(), Some(&10));
    v.set(1, 21);
    assert_eq!(v.as_slice(), &[10, 21, 30]);
    v.as_mut_slice()[2] = 31;
    assert_eq!(v.as_slice(), &[10, 21, 31]);
    v.as_mut_slice().reverse();
    assert_eq!(v.as_slice(), &[31, 21, 10]);
    assert_eq!(v.len(), 3);
}

#[test]
fn pop_and_clear_keep_the_room() {
    let mut v = MyVec::from_iter(vec![1, 2, 3].into_iter());
    let room = v.capacity();
    assert_eq!(v.pop(), Some(3));
    assert_eq!(v.as_slice(), &[1, 2]);
    assert_eq!(v.capacity(), room);
    v.clear();
    assert!(v.is_empty());
    assert_eq!(v.pop(), None);
    assert_eq!(v.capacity(), room);
}

#[test]
fn the_buffer_can_be_read_as_a_vec() {
    let v = MyVec::from_iter(vec![1, 2, 3].into_iter());
    let squares: Vec<i32> = v.iter().map(|x| x * x).collect();
    assert_eq!(squares, vec![1, 4, 9]);
    assert!(v.contains(&2));
    assert_eq!(v[2], 3);
    assert_eq!(&v[..2], &[1, 2]);
    let buf: &Vec<i32> = &v;
    assert_eq!(buf, &vec![1, 2, 3]);
}

#[test]
fn try_push_with_room_to_spare_keeps_the_capacity() {
    let mut v = MyVec::<i32>::with_capacity(4).ok().expect("four elements should fit");
    let room = v.capacity();
    for i in 0..4 {
        assert_eq!(v.try_push(i), Ok(()));
        assert_eq!(v.capacity(), room);
    }
    assert_eq!(v.as_slice(), &[0, 1, 2, 3]);
}

#[test]
fn try_reserve_with_the_room_there_changes_nothing() {
    let mut v = MyVec::<i32>::with_capacity(10).ok().expect("ten elements should fit");
    let room = v.capacity();
    assert_eq!(v.try_push(1), Ok(()));
    assert_eq!(v.try_reserve(room - 1), Ok(()));
    assert_eq!(v.capacity(), room);
    assert_eq!(v.try_reserve(0), Ok(()));
    assert_eq!(v.capacity(), room);
}

#[test]
fn try_reserve_beyond_the_room_grows() {
    let mut v = MyVec::<i32>::with_capacity(2).ok().expect("two elements should fit");
    let room = v.capacity();
    assert_eq!(v.try_reserve(room + 1), Ok(()));
    assert!(v.capacity() > room);
    assert_eq!(v.capacity(), std::ops::Deref::deref(&v).capacity());
}
