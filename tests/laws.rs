use cev::{
    alloc_guard, array_layout, is_zst, to_cev, AllocError, Cev, RawCev, TryReserveError,
    TryReserveErrorKind,
};
use std::cell::Cell;
use std::rc::Rc;

fn values<T: Clone>(cev: &Cev<T>) -> Vec<T> {
    let mut out = Vec::new();
    for i in 0..cev.len() {
        out.push(cev.get(i).clone());
    }
    out
}

struct Counted {
    drops: Rc<Cell<u32>>,
}

impl Drop for Counted {
    fn drop(&mut self) {
        self.drops.set(self.drops.get() + 1);
    }
}

#[test]
fn resting_position_after_reserve_and_pops() {
    let mut cev: Cev<u32> = Cev::with_capacity(6);
    assert_eq!(cev.as_ptr() - cev.base_ptr(), 5);
    cev.push(1);
    cev.push(2);
    assert_eq!(cev.pop(), Some(2));
    assert_eq!(cev.pop(), Some(1));
    assert_eq!(cev.capacity(), 6);
    assert_eq!(cev.as_ptr() - cev.base_ptr(), cev.capacity() - 1);
}

#[test]
fn front_occupancy_after_pushes() {
    let mut cev: Cev<u16> = Cev::with_capacity(10);
    for v in 0..7u16 {
        cev.push(v);
        assert_eq!(cev.as_ptr(), cev.capacity() - cev.len());
    }
    assert_eq!(values(&cev), [6, 5, 4, 3, 2, 1, 0]);
}

#[test]
fn push_then_pop_gives_back_in_reverse() {
    let mut cev = Cev::from_vec(vec![7, 8]);
    cev.push(1);
    cev.push(2);
    assert_eq!(cev.pop(), Some(2));
    assert_eq!(cev.pop(), Some(1));
    assert_eq!(values(&cev), [7, 8]);
}

#[test]
fn round_trip_reuse_and_copy() {
    let full = Cev::from_vec(vec![1u8, 2, 3]);
    assert_eq!(full.capacity(), full.len());
    let back = Cev::from_vec(full.into_vec());
    assert_eq!(values(&back), [1, 2, 3]);

    let mut part: Cev<u8> = Cev::with_capacity(8);
    part.push(3);
    part.push(2);
    part.push(1);
    assert!(part.len() < part.capacity());
    let vec = part.into_vec();
    assert_eq!(vec, [1, 2, 3]);
    let back = Cev::from_vec(vec);
    assert_eq!(values(&back), [1, 2, 3]);
    assert_eq!(back.as_ptr(), back.capacity() - 3);
}

#[test]
fn insert_at_front_end_and_middle() {
    let mut cev = Cev::from_vec(vec![2, 2, 3]);
    cev.insert(0, 9);
    assert_eq!(values(&cev), [9, 2, 2, 3]);
    let len = cev.len();
    cev.insert(len, 8);
    assert_eq!(values(&cev), [9, 2, 2, 3, 8]);
    cev.insert(2, 7);
    assert_eq!(values(&cev), [9, 2, 7, 2, 3, 8]);
}

#[test]
fn truncate_keeps_the_last_values() {
    let mut cev = Cev::from_vec(vec!['T', 'r', 'u', 'n', 'c', 'a', 't', 'e']);
    cev.truncate(4);
    assert_eq!(values(&cev), ['c', 'a', 't', 'e']);
    cev.truncate(9);
    assert_eq!(values(&cev), ['c', 'a', 't', 'e']);
}

#[test]
fn append_keeps_the_other_capacity() {
    let mut cev = Cev::from_vec(vec![4, 5, 6]);
    let mut other = Cev::from_vec(vec![1, 2, 3]);
    let other_cap = other.capacity();
    cev.append(&mut other);
    assert_eq!(values(&cev), [1, 2, 3, 4, 5, 6]);
    assert!(other.is_empty());
    assert_eq!(other.capacity(), other_cap);
    other.push(10);
    assert_eq!(other.capacity(), other_cap);
    assert_eq!(values(&other), [10]);
}

#[test]
fn growth_from_zero_for_each_size_class() {
    let mut bytes: Cev<u8> = Cev::new();
    bytes.push(1);
    assert_eq!(bytes.capacity(), 8);
    let mut words: Cev<u32> = Cev::new();
    words.push(1);
    assert_eq!(words.capacity(), 4);
    let mut large: Cev<[u8; 2000]> = Cev::new();
    large.push([0; 2000]);
    assert_eq!(large.capacity(), 1);
    large.push([0; 2000]);
    assert_eq!(large.capacity(), 2);
}

#[test]
fn reserve_grows_to_what_is_required() {
    let mut cev: Cev<u32> = Cev::with_capacity(2);
    cev.push(1);
    cev.reserve(9);
    assert_eq!(cev.capacity(), 10);
    cev.reserve(3);
    assert_eq!(cev.capacity(), 10);
    assert_eq!(values(&cev), [1]);
    assert_eq!(cev.as_ptr(), 9);
}

#[test]
fn zero_sized_values_never_allocate() {
    let mut cev: Cev<()> = Cev::with_capacity(1000);
    assert_eq!(cev.capacity(), usize::MAX);
    for _ in 0..5 {
        cev.push(());
    }
    assert_eq!(cev.len(), 5);
    assert_eq!(cev.as_ptr(), 0);
    assert_eq!(cev.pop(), Some(()));
    cev.clear();
    assert_eq!(cev.len(), 0);
    assert_eq!(cev.capacity(), usize::MAX);
    assert!(is_zst::<()>());
    assert!(!is_zst::<u8>());
}

#[test]
fn partly_consumed_iterator_drops_the_rest_once() {
    let drops = Rc::new(Cell::new(0));
    let mut cev = Cev::new();
    for _ in 0..5 {
        cev.push(Counted {
            drops: drops.clone(),
        });
    }
    let mut iter = cev.into_iter();
    assert_eq!(iter.len(), 5);
    drop(iter.next());
    drop(iter.next_back());
    assert_eq!(drops.get(), 2);
    assert_eq!(iter.len(), 3);
    drop(iter);
    assert_eq!(drops.get(), 5);
}

#[test]
fn iterator_takes_from_both_ends() {
    let mut iter = Cev::from_vec(vec![1, 2, 3, 4]).into_iter();
    assert_eq!(iter.next(), Some(1));
    assert_eq!(iter.next_back(), Some(4));
    assert_eq!(iter.next(), Some(2));
    assert_eq!(iter.next_back(), Some(3));
    assert_eq!(iter.next(), None);
    assert_eq!(iter.next_back(), None);
}

#[test]
fn try_reserve_reports_capacity_overflow() {
    let mut cev: Cev<u64> = Cev::from_vec(vec![1, 2]);
    let err = cev.try_reserve(usize::MAX).unwrap_err();
    assert_eq!(err.kind(), TryReserveErrorKind::CapacityOverflow);
    let err = cev.try_reserve(usize::MAX / 8).unwrap_err();
    assert_eq!(err.kind(), TryReserveErrorKind::CapacityOverflow);
    assert_eq!(values(&cev), [1, 2]);
    assert_eq!(cev.capacity(), 2);
    assert!(cev.try_reserve(3).is_ok());
    assert_eq!(cev.capacity(), 5);

    let mut zst: Cev<()> = Cev::new();
    zst.push(());
    let err = zst.try_reserve(usize::MAX).unwrap_err();
    assert_eq!(err.kind(), TryReserveErrorKind::CapacityOverflow);
    assert!(zst.try_reserve(usize::MAX - 1).is_ok());
}

#[test]
fn layout_and_guard() {
    let layout = array_layout::<u32>(10).unwrap();
    assert_eq!(layout.size, 40);
    assert_eq!(layout.align, 4);
    let err = array_layout::<u32>(usize::MAX / 2).unwrap_err();
    assert_eq!(err.kind(), TryReserveErrorKind::CapacityOverflow);
    assert!(alloc_guard(isize::MAX as usize).is_ok());
    assert!(alloc_guard(isize::MAX as usize + 1).is_err());
}

#[test]
fn raw_buffer_grows_at_its_low_end() {
    let mut buf: RawCev<u64> = RawCev::with_capacity(3);
    assert_eq!(buf.capacity(), 3);
    assert_eq!(buf.ptr(), 2);
    buf.reserve_for_push(0);
    assert_eq!(buf.capacity(), 6);
    assert_eq!(buf.ptr(), 5);
    buf.reserve(0, 20);
    assert_eq!(buf.capacity(), 20);
    assert_eq!(buf.ptr(), 19);
    buf.mov_ptr_sub(4);
    assert_eq!(buf.ptr(), 15);
    buf.mov_ptr_add(2);
    assert_eq!(buf.ptr(), 17);
    buf.mov_ptr(0);
    assert_eq!(buf.ptr(), buf.base_ptr());
}

#[test]
fn clone_and_to_cev_have_exact_capacity() {
    let mut cev: Cev<String> = Cev::with_capacity(10);
    cev.push("b".to_string());
    cev.push("a".to_string());
    let copy = cev.clone();
    assert_eq!(values(&copy), ["a", "b"]);
    assert_eq!(copy.capacity(), 2);
    assert_eq!(copy.as_ptr(), 0);

    let made = to_cev(&["x".to_string(), "y".to_string(), "z".to_string()]);
    assert_eq!(values(&made), ["x", "y", "z"]);
    assert_eq!(made.capacity(), 3);
    let empty: Cev<u8> = to_cev(&[]);
    assert_eq!(empty.capacity(), 0);
}

#[test]
fn error_messages() {
    let overflow = TryReserveError::from(TryReserveErrorKind::CapacityOverflow);
    assert_eq!(
        overflow.message(),
        "memory allocation failed because the computed capacity exceeded the collection's maximum"
    );
    let alloc = TryReserveError::from(TryReserveErrorKind::AllocError {
        layout: cev::Layout { size: 8, align: 8 },
    });
    assert_eq!(
        alloc.message(),
        "memory allocation failed because the memory allocator returned an error"
    );
    assert_eq!(AllocError.message(), "memory allocation failed");
}

#[test]
fn get_mut_changes_one_value() {
    let mut cev = Cev::from_vec(vec![1, 2, 3]);
    *cev.get_mut(1) = 20;
    assert_eq!(values(&cev), [1, 20, 3]);
    assert_eq!(cev.as_mut_ptr(), 0);
}

#[test]
fn iterator_reads_and_changes_what_is_left() {
    let mut iter = Cev::from_vec(vec!['a', 'b', 'c']).into_iter();
    assert_eq!(*iter.get(0), 'a');
    *iter.get_mut(0) = 'x';
    *iter.get_mut(1) = 'y';
    assert_eq!(iter.next(), Some('x'));
    assert_eq!(*iter.get(0), 'y');
    assert_eq!(*iter.get(1), 'c');
    assert_eq!(iter.len(), 2);
}

#[test]
fn from_values_keeps_the_given_capacity() {
    let cev = Cev::from_values(vec![1u32, 2, 3], 7);
    assert_eq!(values(&cev), [1, 2, 3]);
    assert_eq!(cev.capacity(), 7);
    assert_eq!(cev.as_ptr(), 4);
    let empty: Cev<u32> = Cev::from_values(Vec::new(), 5);
    assert_eq!(empty.as_ptr(), 4);
    let zst: Cev<()> = Cev::from_values(vec![(), ()], 0);
    assert_eq!(zst.capacity(), usize::MAX);
    assert_eq!(zst.len(), 2);
}

#[test]
fn empty_array_without_allocation_starts_at_the_base() {
    let mut cev: Cev<u64> = to_cev(&[]);
    assert_eq!(cev.as_ptr(), cev.base_ptr());
    assert_eq!(cev.pop(), None);
    cev.truncate(3);
    cev.reserve(0);
    assert_eq!(cev.as_ptr(), 0);
    assert_eq!(cev.capacity(), 0);
}
