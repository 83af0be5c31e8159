//! Containers of fixed capacity: they never hold more elements than their
//! capacity, and a push beyond it fails and leaves them as they were. They
//! keep their elements in std's `Vec` and `VecDeque`, so they allocate.

use crate::error::StorageError;
use crate::storage::{QueueContainer, StackContainer, Storage, TextContainer, fits};
use crate::storage::sort::sort_dedup_in_place;
use crate::storage::alloc_impl::vec_deque_front_mut;
use crate::ui::transition::Transition;
use std::collections::VecDeque;
use vstd::prelude::*;
use vstd::std_specs::cmp::PartialEqSpec;

verus! {

/// Tells the screen to use containers of fixed capacity. `MAX_CAPACITY` is
/// the capacity of *all* containers.
pub struct HeaplessStorage<const MAX_CAPACITY: usize>;

impl<const MAX_CAPACITY: usize> Storage for HeaplessStorage<MAX_CAPACITY> {
    type Text = BoundedVec<u8, MAX_CAPACITY>;
    type Queue = BoundedDeque<Transition<BoundedVec<u8, MAX_CAPACITY>>, MAX_CAPACITY>;
}

/// A stack that holds at most `N` elements.
#[derive(Debug)]
pub struct BoundedVec<T, const N: usize> {
    elems: Vec<T>,
}

impl<T, const N: usize> BoundedVec<T, N> {
    /// The stack never holds more than `N` elements.
    #[verifier::type_invariant]
    spec fn within_capacity(self) -> bool {
        self.elems@.len() <= N
    }

    /// Takes the elements out, leaving the stack empty.
    fn take_elems(&mut self) -> (r: Vec<T>)
        ensures
            r@ == old(self).items(),
            final(self).items() == Seq::<T>::empty(),
            r@.len() <= N,
    {
        proof {
            use_type_invariant(&*self);
        }
        let mut taken = Vec::new();
        core::mem::swap(&mut taken, &mut self.elems);
        taken
    }
}

impl<T, const N: usize> Default for BoundedVec<T, N> {
    /// An empty stack.
    fn default() -> (r: Self)
        ensures
            r.items() == Seq::<T>::empty(),
    {
        BoundedVec { elems: Vec::new() }
    }
}

impl<T, const N: usize> StackContainer<T> for BoundedVec<T, N> {
    closed spec fn items(&self) -> Seq<T> {
        self.elems@
    }

    open spec fn capacity() -> Option<nat> {
        Some(N as nat)
    }

    fn new() -> (r: Self) {
        BoundedVec { elems: Vec::new() }
    }

    fn clear(&mut self) {
        let _ = self.take_elems();
    }

    fn minimize(&mut self) {
    }

    fn len(&self) -> (r: usize) {
        proof {
            use_type_invariant(self);
        }
        let r = self.elems.len();
        assert(fits(Self::capacity(), r as nat));
        r
    }

    fn push(&mut self, elem: T) -> (r: Result<(), StorageError>) {
        if self.elems.len() < N {
            let mut v = self.take_elems();
            v.push(elem);
            self.elems = v;
            Ok(())
        } else {
            Err(StorageError::NotEnoughStorage)
        }
    }

    fn pop(&mut self) -> (r: Option<T>) {
        let mut v = self.take_elems();
        let r = v.pop();
        self.elems = v;
        r
    }

    fn get(&self, idx: usize) -> (r: Option<&T>) {
        if idx < self.elems.len() {
            Some(&self.elems[idx])
        } else {
            None
        }
    }

    fn get_mut(&mut self, idx: usize) -> (r: Option<&mut T>) {
        proof {
            use_type_invariant(&*self);
        }
        if idx < self.elems.len() {
            Some(&mut self.elems[idx])
        } else {
            None
        }
    }

    fn drain_all(&mut self) -> (r: Vec<T>) {
        self.take_elems()
    }

    fn contains(&self, elem: &T) -> (r: bool) where T: PartialEq {
        let n = self.elems.len();
        let mut i: usize = 0;
        while i < n
            invariant
                n == self.elems@.len(),
                i <= n,
                T::obeys_eq_spec() ==> forall|j: int| 0 <= j < i ==> !self.elems@[j].eq_spec(elem),
            decreases n - i,
        {
            if self.elems[i] == *elem {
                return true;
            }
            i = i + 1;
        }
        false
    }

    fn remove(&mut self, idx: usize) -> (r: Option<T>) {
        if idx < self.elems.len() {
            let mut v = self.take_elems();
            let r = v.remove(idx);
            self.elems = v;
            Some(r)
        } else {
            None
        }
    }

    fn swap_remove(&mut self, idx: usize) -> (r: Option<T>) {
        if idx < self.elems.len() {
            let mut v = self.take_elems();
            let r = v.swap_remove(idx);
            self.elems = v;
            Some(r)
        } else {
            None
        }
    }

    fn sort_dedup(&mut self) where T: Ord {
        let mut v = self.take_elems();
        sort_dedup_in_place(&mut v);
        self.elems = v;
    }
}

impl<const N: usize> TextContainer for BoundedVec<u8, N> {
    fn is_empty(&self) -> (r: bool) {
        StackContainer::is_empty(self)
    }

    fn push_ascii(&mut self, c: u8) -> (r: Result<(), StorageError>) {
        self.push(c)
    }

    fn chars(&self) -> (r: Vec<u8>) {
        self.elems.clone()
    }
}

/// A queue that holds at most `N` elements.
#[derive(Debug)]
pub struct BoundedDeque<T, const N: usize> {
    elems: VecDeque<T>,
}

impl<T, const N: usize> BoundedDeque<T, N> {
    /// The queue never holds more than `N` elements.
    #[verifier::type_invariant]
    spec fn within_capacity(self) -> bool {
        self.elems@.len() <= N
    }

    /// Takes the elements out, leaving the queue empty.
    fn take_elems(&mut self) -> (r: VecDeque<T>)
        ensures
            r@ == old(self).items(),
            final(self).items() == Seq::<T>::empty(),
            r@.len() <= N,
    {
        proof {
            use_type_invariant(&*self);
        }
        let mut taken = VecDeque::new();
        core::mem::swap(&mut taken, &mut self.elems);
        taken
    }
}

impl<T, const N: usize> Default for BoundedDeque<T, N> {
    /// An empty queue.
    fn default() -> (r: Self)
        ensures
            r.items() == Seq::<T>::empty(),
    {
        BoundedDeque { elems: VecDeque::new() }
    }
}

impl<T, const N: usize> QueueContainer<T> for BoundedDeque<T, N> {
    closed spec fn items(&self) -> Seq<T> {
        self.elems@
    }

    open spec fn capacity() -> Option<nat> {
        Some(N as nat)
    }

    fn new() -> (r: Self) {
        BoundedDeque { elems: VecDeque::new() }
    }

    fn minimize(&mut self) {
    }

    fn clear(&mut self) {
        let _ = self.take_elems();
    }

    fn len(&self) -> (r: usize) {
        proof {
            use_type_invariant(self);
        }
        let r = self.elems.len();
        assert(fits(Self::capacity(), r as nat));
        r
    }

    fn enqueue(&mut self, elem: T) -> (r: Result<(), StorageError>) {
        if self.elems.len() < N {
            let mut v = self.take_elems();
            v.push_back(elem);
            self.elems = v;
            Ok(())
        } else {
            Err(StorageError::NotEnoughStorage)
        }
    }

    fn dequeue(&mut self) -> (r: Option<T>) {
        let mut v = self.take_elems();
        let r = v.pop_front();
        proof {
            if old(self).items().len() > 0 {
                assert(v@ == old(self).items().drop_first());
            }
        }
        self.elems = v;
        r
    }

    fn peek(&self) -> (r: Option<&T>) {
        if self.elems.len() > 0 {
            Some(&self.elems[0])
        } else {
            None
        }
    }

    fn peek_mut(&mut self) -> (r: Option<&mut T>) {
        proof {
            use_type_invariant(&*self);
        }
        vec_deque_front_mut(&mut self.elems)
    }
}

} // verus!
