use sharedmem::SharedSlice;
use std::ops::Deref;
use std::sync::atomic::AtomicUsize;
use std::sync::atomic::Ordering;
use std::sync::Arc;

struct Counted {
    elements: Box<[u32]>,
    drops: Arc<AtomicUsize>,
}

impl Drop for Counted {
    fn drop(&mut self) {
        self.drops.fetch_add(1, Ordering::SeqCst);
    }
}

impl Deref for Counted {
    type Target = [u32];

    fn deref(&self) -> &[u32] {
        &self.elements
    }
}

fn is_send_and_sync<S: Send + Sync>(_: &S) -> bool {
    true
}

#[test]
fn nested_slices_survive_their_parents() {
    let whole = SharedSlice::new(vec![10, 20, 30, 40, 50]);
    let middle = whole.shared_slice(1, 4);
    assert_eq!(middle.as_slice(), &[20, 30, 40]);
    let inner = middle.shared_slice(1, 3);
    assert_eq!(inner.as_slice(), &[30, 40]);
    let kept = inner.clone();
    drop(whole);
    drop(middle);
    drop(inner);
    assert_eq!(kept.as_slice(), &[30, 40]);
}

#[test]
fn new_views_the_whole_store() {
    let whole = SharedSlice::new(vec![7u8, 8, 9]);
    assert_eq!(whole.len(), 3);
    assert_eq!(whole.as_slice(), &[7, 8, 9]);
}

#[test]
fn a_boxed_slice_is_a_store() {
    let whole = SharedSlice::new(vec![10u32, 20, 30, 40, 50].into_boxed_slice());
    assert_eq!(whole.len(), 5);
    assert_eq!(whole.shared_slice(3, 5).as_slice(), &[40, 50]);
}

#[test]
fn a_view_is_a_store() {
    let inner = SharedSlice::new(vec![1u8, 2, 3, 4]).shared_slice(1, 4);
    let outer = SharedSlice::new(inner);
    assert_eq!(outer.as_slice(), &[2, 3, 4]);
    assert_eq!(outer.shared_slice(1, 2).as_slice(), &[3]);
}

#[test]
fn slicing_twice_is_slicing_once_with_added_offsets() {
    let whole = SharedSlice::new((0u32..10).collect::<Vec<u32>>());
    let twice = whole.shared_slice(2, 8).shared_slice(1, 4);
    let once = whole.shared_slice(3, 6);
    assert_eq!(twice.as_slice(), &[3, 4, 5]);
    assert_eq!(twice.as_slice(), once.as_slice());
    assert_eq!(twice.as_slice().as_ptr(), once.as_slice().as_ptr());
}

#[test]
fn slicing_does_not_copy() {
    let whole = SharedSlice::new(vec![1u64, 2, 3, 4]);
    let tail = whole.shared_slice(1, 4);
    assert_eq!(tail.as_slice().as_ptr(), whole.as_slice()[1..].as_ptr());
    let copy = tail.clone();
    assert_eq!(copy.as_slice().as_ptr(), tail.as_slice().as_ptr());
}

#[test]
fn whole_and_empty_ranges_are_valid() {
    let whole = SharedSlice::new(vec![1, 2, 3]);
    assert_eq!(whole.shared_slice(0, 3).as_slice(), &[1, 2, 3]);
    assert_eq!(whole.shared_slice(0, 0).len(), 0);
    assert_eq!(whole.shared_slice(3, 3).len(), 0);
    assert_eq!(whole.shared_slice(2, 2).as_slice(), &[] as &[i32]);
}

#[test]
fn start_beyond_the_length_is_rejected() {
    let whole = SharedSlice::new(vec![1, 2, 3]);
    assert!(whole.try_shared_slice(4, 4).is_none());
    assert!(whole.try_shared_slice(4, 5).is_none());
    assert!(whole.try_shared_slice(usize::MAX, usize::MAX).is_none());
}

#[test]
fn end_beyond_the_length_is_rejected() {
    let whole = SharedSlice::new(vec![1, 2, 3]);
    assert!(whole.try_shared_slice(0, 4).is_none());
    assert!(whole.try_shared_slice(3, 4).is_none());
    assert!(whole.try_shared_slice(0, usize::MAX).is_none());
}

#[test]
fn start_after_end_is_rejected() {
    let whole = SharedSlice::new(vec![1, 2, 3]);
    assert!(whole.try_shared_slice(2, 1).is_none());
    assert!(whole.try_shared_slice(3, 0).is_none());
}

#[test]
fn bounds_are_those_of_the_view_not_of_the_store() {
    let whole = SharedSlice::new(vec![1, 2, 3, 4, 5, 6]);
    let middle = whole.shared_slice(2, 4);
    assert!(middle.try_shared_slice(0, 3).is_none());
    assert!(middle.try_shared_slice(1, 3).is_none());
    assert_eq!(middle.try_shared_slice(1, 2).unwrap().as_slice(), &[4]);
}

#[test]
fn a_valid_range_is_never_rejected() {
    let whole = SharedSlice::new(vec![5u8, 6, 7, 8]);
    for start in 0..=4usize {
        for end in 0..=5usize {
            let slice = whole.try_shared_slice(start, end);
            if start <= end && end <= 4 {
                assert_eq!(slice.unwrap().as_slice(), &[5u8, 6, 7, 8][start..end]);
            } else {
                assert!(slice.is_none());
            }
        }
    }
}

#[test]
fn an_empty_view_slices_only_to_itself() {
    let empty = SharedSlice::new(Vec::<u16>::new());
    assert_eq!(empty.len(), 0);
    assert_eq!(empty.try_shared_slice(0, 0).unwrap().len(), 0);
    assert!(empty.try_shared_slice(0, 1).is_none());
    assert!(empty.try_shared_slice(1, 1).is_none());
}

#[test]
fn a_clone_reads_what_the_first_handle_read() {
    let first = SharedSlice::new(vec![3u8, 1, 4, 1, 5]).shared_slice(1, 5);
    let before = first.as_slice().to_vec();
    let copy = first.clone();
    drop(first);
    assert_eq!(copy.as_slice(), &before[..]);
    assert_eq!(copy.as_slice(), &[1, 4, 1, 5]);
}

#[test]
fn a_view_derefs_to_its_elements() {
    let view = SharedSlice::new(vec![2i64, 4, 6]).shared_slice(1, 3);
    let by_deref: &[i64] = &view;
    let by_as_ref: &[i64] = view.as_ref();
    assert_eq!(by_deref, &[4, 6]);
    assert_eq!(by_as_ref, &[4, 6]);
    assert_eq!(view[1], 6);
    assert_eq!(view.iter().sum::<i64>(), 10);
}

#[test]
fn a_view_may_cross_threads() {
    let view = SharedSlice::new(vec![1u32, 2, 3]);
    assert!(is_send_and_sync(&view));
}

#[test]
fn a_store_of_ones_own_is_viewed_in_place() {
    let drops = Arc::new(AtomicUsize::new(0));
    let store = Counted { elements: vec![1, 2, 3, 4].into_boxed_slice(), drops };
    let first = store.elements.as_ptr();
    let whole = SharedSlice::new(store);
    assert_eq!(whole.as_slice(), &[1, 2, 3, 4]);
    assert_eq!(whole.as_slice().as_ptr(), first);
    assert_eq!(whole.shared_slice(2, 4).as_slice(), &[3, 4]);
}

#[test]
fn the_store_is_released_with_its_last_view() {
    let drops = Arc::new(AtomicUsize::new(0));
    let store = Counted { elements: vec![10, 20, 30, 40, 50].into_boxed_slice(), drops: drops.clone() };
    let whole = SharedSlice::new(store);
    let middle = whole.shared_slice(1, 4);
    let inner = middle.shared_slice(1, 3);
    let kept = inner.clone();
    drop(whole);
    assert_eq!(drops.load(Ordering::SeqCst), 0);
    drop(inner);
    drop(middle);
    assert_eq!(drops.load(Ordering::SeqCst), 0);
    assert_eq!(kept.as_slice(), &[30, 40]);
    drop(kept);
    assert_eq!(drops.load(Ordering::SeqCst), 1);
}

#[test]
fn a_rejected_range_takes_no_hold_of_the_store() {
    let drops = Arc::new(AtomicUsize::new(0));
    let store = Counted { elements: vec![1, 2].into_boxed_slice(), drops: drops.clone() };
    let whole = SharedSlice::new(store);
    assert!(whole.try_shared_slice(1, 3).is_none());
    drop(whole);
    assert_eq!(drops.load(Ordering::SeqCst), 1);
}
