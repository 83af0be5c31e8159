use liquid_crystal_ui::error::StorageError;
use liquid_crystal_ui::storage::{BoundedDeque, BoundedVec, QueueContainer, StackContainer, TextContainer};
use std::collections::VecDeque;

fn bounded_of(items: &[u32]) -> BoundedVec<u32, 8> {
    let mut v: BoundedVec<u32, 8> = StackContainer::new();
    for &x in items {
        StackContainer::push(&mut v, x).unwrap();
    }
    v
}

#[test]
fn push_then_pop_gives_the_element_back() {
    let mut v: Vec<u32> = StackContainer::new();
    StackContainer::push(&mut v, 1).unwrap();
    StackContainer::push(&mut v, 2).unwrap();
    assert_eq!(StackContainer::pop(&mut v), Some(2));
    assert_eq!(StackContainer::pop(&mut v), Some(1));
    assert_eq!(StackContainer::pop(&mut v), None);
    assert!(StackContainer::is_empty(&v));
}

#[test]
fn a_full_bounded_stack_refuses_more() {
    let mut v: BoundedVec<u32, 2> = StackContainer::new();
    assert_eq!(StackContainer::push(&mut v, 1), Ok(()));
    assert_eq!(StackContainer::push(&mut v, 2), Ok(()));
    assert_eq!(StackContainer::push(&mut v, 3), Err(StorageError::NotEnoughStorage));
    assert_eq!(StackContainer::len(&v), 2);
    assert_eq!(v.get(1), Some(&2));
}

#[test]
fn a_bounded_stack_of_no_room_takes_nothing() {
    let mut v: BoundedVec<u32, 0> = StackContainer::new();
    assert_eq!(StackContainer::push(&mut v, 1), Err(StorageError::NotEnoughStorage));
    assert_eq!(StackContainer::pop(&mut v), None);
}

#[test]
fn get_is_none_out_of_range() {
    let v = bounded_of(&[4, 5]);
    assert_eq!(v.get(0), Some(&4));
    assert_eq!(v.get(2), None);
    let w: Vec<u32> = vec![9];
    assert_eq!(StackContainer::get(&w, 0), Some(&9));
    assert_eq!(StackContainer::get(&w, 1), None);
}

#[test]
fn remove_shifts_later_elements_down() {
    let mut v = bounded_of(&[1, 2, 3, 4]);
    assert_eq!(StackContainer::remove(&mut v, 1), Some(2));
    assert_eq!(v.drain_all(), vec![1, 3, 4]);
    let mut w: Vec<u32> = vec![1, 2, 3, 4];
    assert_eq!(StackContainer::remove(&mut w, 4), None);
    assert_eq!(StackContainer::remove(&mut w, 0), Some(1));
    assert_eq!(w, vec![2, 3, 4]);
}

#[test]
fn swap_remove_moves_the_last_element_in() {
    let mut v = bounded_of(&[1, 2, 3, 4]);
    assert_eq!(StackContainer::swap_remove(&mut v, 0), Some(1));
    assert_eq!(v.drain_all(), vec![4, 2, 3]);
    let mut w: Vec<u32> = vec![1, 2, 3];
    assert_eq!(StackContainer::swap_remove(&mut w, 7), None);
    assert_eq!(StackContainer::swap_remove(&mut w, 2), Some(3));
    assert_eq!(w, vec![1, 2]);
}

#[test]
fn contains_looks_for_an_equal_element() {
    let v = bounded_of(&[3, 5, 7]);
    assert!(StackContainer::contains(&v, &5));
    assert!(!StackContainer::contains(&v, &6));
    let w: Vec<u32> = vec![3, 5, 7];
    assert!(StackContainer::contains(&w, &7));
    assert!(!StackContainer::contains(&w, &1));
}

#[test]
fn remove_elem_removes_the_first_occurrence() {
    let mut v = bounded_of(&[1, 2, 3, 2, 4]);
    assert_eq!(v.remove_elem(&2), Some(2));
    assert_eq!(v.remove_elem(&9), None);
    assert_eq!(v.drain_all(), vec![1, 3, 2, 4]);
    let mut w: Vec<u32> = vec![5, 6, 5];
    assert_eq!(w.remove_elem(&5), Some(5));
    assert_eq!(w, vec![6, 5]);
}

#[test]
fn swap_remove_elem_moves_the_last_element_in() {
    let mut v = bounded_of(&[1, 2, 3, 2, 4]);
    assert_eq!(v.swap_remove_elem(&2), Some(2));
    assert_eq!(v.drain_all(), vec![1, 4, 3, 2]);
    let mut w: Vec<u32> = vec![5, 6, 7];
    assert_eq!(w.swap_remove_elem(&8), None);
    assert_eq!(w, vec![5, 6, 7]);
}

#[test]
fn sort_dedup_sorts_and_drops_repeats() {
    let mut v = bounded_of(&[5, 3, 9, 3, 1, 5, 5, 0]);
    v.sort_dedup();
    assert_eq!(v.drain_all(), vec![0, 1, 3, 5, 9]);
    let mut w: Vec<u32> = vec![4, 4, 2, 8, 2];
    w.sort_dedup();
    assert_eq!(w, vec![2, 4, 8]);
    let mut e: Vec<u32> = vec![];
    e.sort_dedup();
    assert!(e.is_empty());
}

#[test]
fn sort_dedup_of_a_sorted_set_changes_nothing() {
    let mut v = bounded_of(&[1, 2, 3]);
    v.sort_dedup();
    v.sort_dedup();
    assert_eq!(v.drain_all(), vec![1, 2, 3]);
}

#[test]
fn clear_and_drain_all_empty_the_stack() {
    let mut v = bounded_of(&[1, 2]);
    StackContainer::clear(&mut v);
    assert_eq!(StackContainer::len(&v), 0);
    let mut w: Vec<u32> = vec![1, 2];
    assert_eq!(w.drain_all(), vec![1, 2]);
    assert!(w.is_empty());
    let mut x: Vec<u32> = vec![3];
    StackContainer::minimize(&mut x);
    StackContainer::clear(&mut x);
    assert!(x.is_empty());
}

#[test]
fn push_ascii_iter_pushes_what_fits() {
    let mut t: BoundedVec<u8, 4> = StackContainer::new();
    t.push_ascii(b'a').unwrap();
    assert_eq!(t.push_ascii_iter(b"bc"), Ok(()));
    assert_eq!(t.push_ascii_iter(b"def"), Err(StorageError::NotEnoughStorage));
    assert_eq!(t.chars(), b"abcd".to_vec());
    let mut u: Vec<u8> = Vec::new();
    assert_eq!(u.push_ascii_iter(b"xyz"), Ok(()));
    assert_eq!(TextContainer::chars(&u), b"xyz".to_vec());
}

#[test]
fn queues_are_first_in_first_out() {
    let mut q: VecDeque<u32> = QueueContainer::new();
    q.enqueue(1).unwrap();
    q.enqueue(2).unwrap();
    assert_eq!(QueueContainer::peek(&q), Some(&1));
    assert_eq!(q.dequeue(), Some(1));
    assert_eq!(q.dequeue(), Some(2));
    assert_eq!(q.dequeue(), None);
    assert!(QueueContainer::is_empty(&q));
}

#[test]
fn a_full_bounded_queue_refuses_more() {
    let mut q: BoundedDeque<u32, 2> = QueueContainer::new();
    assert_eq!(q.enqueue(1), Ok(()));
    assert_eq!(q.enqueue(2), Ok(()));
    assert_eq!(q.enqueue(3), Err(StorageError::NotEnoughStorage));
    assert_eq!(QueueContainer::len(&q), 2);
    assert_eq!(q.peek(), Some(&1));
    assert_eq!(q.dequeue(), Some(1));
    assert_eq!(q.enqueue(3), Ok(()));
    assert_eq!(q.dequeue(), Some(2));
    assert_eq!(q.dequeue(), Some(3));
    assert_eq!(q.peek(), None);
    q.enqueue(4).unwrap();
    QueueContainer::minimize(&mut q);
    QueueContainer::clear(&mut q);
    assert!(QueueContainer::is_empty(&q));
}

#[test]
fn get_mut_writes_through_to_the_stack() {
    let mut v = bounded_of(&[1, 2, 3]);
    if let Some(x) = v.get_mut(1) {
        *x = 20;
    }
    assert!(v.get_mut(3).is_none());
    assert_eq!(v.drain_all(), vec![1, 20, 3]);
    let mut w: Vec<u32> = vec![1, 2];
    *StackContainer::get_mut(&mut w, 0).unwrap() = 10;
    assert_eq!(w, vec![10, 2]);
}

#[test]
fn peek_mut_writes_through_to_the_front() {
    let mut q: BoundedDeque<u32, 4> = QueueContainer::new();
    assert!(q.peek_mut().is_none());
    q.enqueue(1).unwrap();
    q.enqueue(2).unwrap();
    *q.peek_mut().unwrap() = 7;
    assert_eq!(q.dequeue(), Some(7));
    assert_eq!(q.dequeue(), Some(2));
    let mut d: VecDeque<u32> = QueueContainer::new();
    d.enqueue(3).unwrap();
    *QueueContainer::peek_mut(&mut d).unwrap() += 1;
    assert_eq!(d.dequeue(), Some(4));
}

#[test]
fn minimize_keeps_the_elements() {
    let mut w: Vec<u32> = Vec::with_capacity(64);
    StackContainer::push(&mut w, 1).unwrap();
    StackContainer::push(&mut w, 2).unwrap();
    StackContainer::minimize(&mut w);
    assert_eq!(w, vec![1, 2]);
    let mut d: VecDeque<u32> = VecDeque::with_capacity(64);
    d.enqueue(5).unwrap();
    QueueContainer::minimize(&mut d);
    assert_eq!(d.dequeue(), Some(5));
    let mut b = bounded_of(&[8]);
    StackContainer::minimize(&mut b);
    assert_eq!(b.drain_all(), vec![8]);
}

#[test]
fn a_bounded_stack_never_grows_past_its_capacity() {
    let mut v: BoundedVec<u32, 3> = StackContainer::new();
    for x in 0..10u32 {
        let _ = StackContainer::push(&mut v, x);
        assert!(StackContainer::len(&v) <= 3);
    }
    assert_eq!(v.drain_all(), vec![0, 1, 2]);
}

#[test]
fn pop_undoes_a_push_on_a_bounded_stack() {
    let mut v = bounded_of(&[7, 8]);
    assert_eq!(StackContainer::push(&mut v, 9), Ok(()));
    assert_eq!(StackContainer::pop(&mut v), Some(9));
    assert_eq!(v.drain_all(), vec![7, 8]);
}

#[test]
fn dequeue_after_enqueue_keeps_the_order() {
    let mut q: BoundedDeque<u32, 4> = QueueContainer::new();
    assert_eq!(q.enqueue(5), Ok(()));
    assert_eq!(q.dequeue(), Some(5));
    assert!(QueueContainer::is_empty(&q));
    assert_eq!(q.enqueue(1), Ok(()));
    assert_eq!(q.enqueue(2), Ok(()));
    assert_eq!(q.enqueue(3), Ok(()));
    assert_eq!(q.dequeue(), Some(1));
    assert_eq!(q.peek(), Some(&2));
    assert_eq!(QueueContainer::len(&q), 2);
    let mut d: VecDeque<u32> = QueueContainer::new();
    assert_eq!(d.enqueue(4), Ok(()));
    assert_eq!(d.enqueue(6), Ok(()));
    assert_eq!(d.dequeue(), Some(4));
    assert_eq!(d.dequeue(), Some(6));
    assert_eq!(d.dequeue(), None);
}

#[test]
fn remove_elem_removes_exactly_what_contains_finds() {
    for x in 0..6u32 {
        let mut v = bounded_of(&[1, 3, 3, 5]);
        let found = StackContainer::contains(&v, &x);
        let removed = v.remove_elem(&x);
        assert_eq!(found, removed.is_some());
        if let Some(y) = removed {
            assert_eq!(y, x);
            assert_eq!(StackContainer::len(&v), 3);
        } else {
            assert_eq!(v.drain_all(), vec![1, 3, 3, 5]);
        }
    }
}

#[test]
fn remove_and_swap_remove_leave_the_same_elements() {
    for idx in 0..5usize {
        let mut a: Vec<u32> = vec![10, 20, 30, 40];
        let mut b = a.clone();
        let ra = StackContainer::remove(&mut a, idx);
        let rb = StackContainer::swap_remove(&mut b, idx);
        assert_eq!(ra, rb);
        a.sort();
        b.sort();
        assert_eq!(a, b);
    }
    let mut c = bounded_of(&[2, 9, 4, 9, 6]);
    let mut d = bounded_of(&[2, 9, 4, 9, 6]);
    assert_eq!(c.remove_elem(&9), d.swap_remove_elem(&9));
    let mut left = c.drain_all();
    let mut right = d.drain_all();
    left.sort();
    right.sort();
    assert_eq!(left, right);
}

#[test]
fn text_is_empty_until_a_byte_is_pushed() {
    let mut v: Vec<u8> = StackContainer::new();
    assert!(TextContainer::is_empty(&v));
    v.push_ascii(b'a').unwrap();
    assert!(!TextContainer::is_empty(&v));
    let mut b: BoundedVec<u8, 2> = StackContainer::new();
    assert!(TextContainer::is_empty(&b));
    b.push_ascii(b'z').unwrap();
    assert!(!TextContainer::is_empty(&b));
}

/// An element ordered and compared by its key alone, with a tag that tells
/// equal elements apart.
#[derive(Debug, Clone, Copy)]
struct Keyed {
    key: u8,
    tag: char,
}

impl PartialEq for Keyed {
    fn eq(&self, other: &Self) -> bool {
        self.key == other.key
    }
}

impl Eq for Keyed {}

impl PartialOrd for Keyed {
    fn partial_cmp(&self, other: &Self) -> Option<std::cmp::Ordering> {
        Some(self.cmp(other))
    }
}

impl Ord for Keyed {
    fn cmp(&self, other: &Self) -> std::cmp::Ordering {
        self.key.cmp(&other.key)
    }
}

#[test]
fn sort_dedup_on_vec_keeps_the_first_of_equal_elements() {
    let k = |key: u8, tag: char| Keyed { key, tag };
    let mut v: Vec<Keyed> = vec![k(3, 'a'), k(1, 'b'), k(3, 'c'), k(2, 'd'), k(1, 'e'), k(3, 'f')];
    v.sort_dedup();
    let got: Vec<(u8, char)> = v.iter().map(|x| (x.key, x.tag)).collect();
    assert_eq!(got, vec![(1, 'b'), (2, 'd'), (3, 'a')]);
}
