use rustwav::copiablebuf::CopiableBuffer;

#[test]
fn buffer_push_and_read_back() {
    let mut b = CopiableBuffer::<u8, 4>::new();
    assert!(b.is_empty());
    b.push(1);
    b.push(2);
    assert_eq!(b.len(), 2);
    assert_eq!(b.get(1), 2);
    assert_eq!(b.capacity(), 4);
    assert!(!b.is_full());
    b.push(3);
    b.push(4);
    assert!(b.is_full());
    assert_eq!(b.to_vec(), vec![1, 2, 3, 4]);
    assert_eq!(*b.get_array(), [1, 2, 3, 4]);
}

#[test]
fn buffer_truncate_resize_clear() {
    let mut b = CopiableBuffer::<i16, 8>::from_slice(&[5, 6, 7]);
    b.truncate(2);
    assert_eq!(b.to_vec(), vec![5, 6]);
    b.resize(4, 9);
    assert_eq!(b.to_vec(), vec![5, 6, 9, 9]);
    b.set(0, 1);
    assert_eq!(b.get(0), 1);
    b.remove_front(3);
    assert_eq!(b.to_vec(), vec![9]);
    b.clear();
    assert!(b.is_empty());
}

#[test]
fn buffer_iterators_walk_in_order() {
    let b = CopiableBuffer::<u8, 3>::from_slice(&[1, 2]);
    let mut it = b.iter();
    assert_eq!(it.next(), Some(&1));
    assert_eq!(it.next(), Some(&2));
    assert_eq!(it.next(), None);
    let mut it2 = b.into_iter();
    assert_eq!(it2.next(), Some(1));
    assert_eq!(it2.next(), Some(2));
    assert_eq!(it2.next(), None);
    let arr = b.into_array();
    assert_eq!(arr[0], 1);
}

#[test]
fn copiable_buffer_last_changes_in_place() {
    let mut b = CopiableBuffer::<i32, 4>::new();
    b.push(1);
    b.push(2);
    assert_eq!(*b.last(), 2);
    *b.last() = 5;
    assert_eq!(b.to_vec(), vec![1, 5]);
    assert_eq!(b.len(), 2);
}

#[test]
fn copiable_buffer_set_len_keeps_the_front() {
    let mut b = CopiableBuffer::<i32, 4>::new();
    b.push(7);
    b.push(8);
    b.push(9);
    b.set_len(1);
    assert_eq!(b.to_vec(), vec![7]);
    b.set_len(3);
    assert_eq!(b.len(), 3);
    assert_eq!(b.get(0), 7);
}

#[test]
fn copiable_buffer_array_holds_every_slot() {
    let mut b = CopiableBuffer::<u8, 4>::new();
    b.push(1);
    b.push(2);
    b.push(3);
    b.truncate(1);
    assert_eq!(b.len(), 1);
    assert_eq!(*b.get_array(), [1, 2, 3, 0]);
    b.set_len(3);
    assert_eq!(b.to_vec(), vec![1, 2, 3]);
    b.clear();
    assert_eq!(b.into_array(), [1, 2, 3, 0]);
}

#[test]
fn copiable_buffer_len_counts_pushes_since_clear() {
    let mut b = CopiableBuffer::<i16, 3>::new();
    b.push(4);
    b.push(5);
    b.clear();
    b.push(6);
    b.push(7);
    assert_eq!(b.len(), 2);
    assert_eq!(b.to_vec(), vec![6, 7]);
    assert!(b.len() <= b.capacity());
}
