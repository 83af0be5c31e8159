//! Containers of the `alloc` crate as storage.

use crate::error::StorageError;
use crate::ui::transition::Transition;
use crate::storage::{QueueContainer, StackContainer, Storage, TextContainer, fits};
use crate::storage::sort::{keeps_first_equal, sort_dedup_std};
use std::collections::VecDeque;
use vstd::prelude::*;
use vstd::std_specs::cmp::PartialEqSpec;

verus! {

/// Tells the screen to use the `alloc` crate's containers.
pub struct AllocStorage;

impl Storage for AllocStorage {
    type Text = Vec<u8>;
    type Queue = VecDeque<Transition<Vec<u8>>>;
}

/// Shrinks the capacity of `v` as much as possible (`Vec::shrink_to_fit`),
/// which leaves its elements as they are.
#[verifier::external_body]
fn vec_shrink_to_fit<T>(v: &mut Vec<T>)
    ensures
        final(v)@ == old(v)@,
{
    v.shrink_to_fit();
}

/// Shrinks the capacity of `v` as much as possible
/// (`VecDeque::shrink_to_fit`), which leaves its elements as they are.
#[verifier::external_body]
fn vec_deque_shrink_to_fit<T>(v: &mut VecDeque<T>)
    ensures
        final(v)@ == old(v)@,
{
    v.shrink_to_fit();
}

/// A mutable reference to the front element of `v`, or `None` where `v` is
/// empty (`VecDeque::front_mut`), which does not panic. What is written
/// through it becomes the front element; the rest of `v` stays as it is.
#[verifier::external_body]
pub(crate) fn vec_deque_front_mut<T>(v: &mut VecDeque<T>) -> (r: Option<&mut T>)
    ensures
        old(v)@.len() == 0 ==> r is None && final(v)@ == old(v)@,
        old(v)@.len() > 0 ==> (r matches Some(x) && *x == old(v)@[0] && final(v)@ == old(v)@.update(
            0,
            *final(x),
        )),
    no_unwind
{
    v.front_mut()
}

impl TextContainer for Vec<u8> {
    fn is_empty(&self) -> (r: bool) {
        StackContainer::is_empty(self)
    }

    fn push_ascii(&mut self, c: u8) -> (r: Result<(), StorageError>) {
        self.push(c);
        Ok(())
    }

    fn chars(&self) -> (r: Vec<u8>) {
        self.clone()
    }
}

impl<T> StackContainer<T> for Vec<T> {
    open spec fn items(&self) -> Seq<T> {
        self@
    }

    open spec fn capacity() -> Option<nat> {
        None
    }

    fn new() -> (r: Self) {
        Vec::new()
    }

    fn clear(&mut self) {
        Vec::clear(self);
    }

    fn minimize(&mut self) {
        vec_shrink_to_fit(self);
    }

    fn len(&self) -> (r: usize) {
        Vec::len(self)
    }

    fn push(&mut self, elem: T) -> (r: Result<(), StorageError>) {
        Vec::push(self, elem);
        Ok(())
    }

    fn pop(&mut self) -> (r: Option<T>) {
        Vec::pop(self)
    }

    fn get(&self, idx: usize) -> (r: Option<&T>) {
        if idx < Vec::len(self) {
            Some(&self[idx])
        } else {
            None
        }
    }

    fn get_mut(&mut self, idx: usize) -> (r: Option<&mut T>) {
        if idx < Vec::len(self) {
            Some(&mut self[idx])
        } else {
            None
        }
    }

    fn drain_all(&mut self) -> (r: Vec<T>) {
        let mut taken = Vec::new();
        core::mem::swap(self, &mut taken);
        taken
    }

    fn contains(&self, elem: &T) -> (r: bool) where T: PartialEq {
        let n = Vec::len(self);
        let mut i: usize = 0;
        while i < n
            invariant
                n == self@.len(),
                i <= n,
                T::obeys_eq_spec() ==> forall|j: int| 0 <= j < i ==> !self@[j].eq_spec(elem),
            decreases n - i,
        {
            if self[i] == *elem {
                return true;
            }
            i = i + 1;
        }
        false
    }

    fn remove(&mut self, idx: usize) -> (r: Option<T>) {
        if idx < Vec::len(self) {
            Some(Vec::remove(self, idx))
        } else {
            None
        }
    }

    fn swap_remove(&mut self, idx: usize) -> (r: Option<T>) {
        if idx < Vec::len(self) {
            Some(Vec::swap_remove(self, idx))
        } else {
            None
        }
    }

    /// Of several equal elements, the one that comes first in the stack is
    /// the one kept.
    fn sort_dedup(&mut self) where T: Ord
        ensures
            keeps_first_equal(old(self)@, final(self)@),
    {
        sort_dedup_std(self);
    }
}

impl<T> QueueContainer<T> for VecDeque<T> {
    open spec fn items(&self) -> Seq<T> {
        self@
    }

    open spec fn capacity() -> Option<nat> {
        None
    }

    fn new() -> (r: Self) {
        VecDeque::new()
    }

    fn minimize(&mut self) {
        vec_deque_shrink_to_fit(self);
    }

    fn clear(&mut self) {
        VecDeque::clear(self);
    }

    fn len(&self) -> (r: usize) {
        let r = VecDeque::len(self);
        assert(fits(<VecDeque<T> as QueueContainer<T>>::capacity(), r as nat));
        r
    }

    fn enqueue(&mut self, elem: T) -> (r: Result<(), StorageError>) {
        self.push_back(elem);
        Ok(())
    }

    fn dequeue(&mut self) -> (r: Option<T>) {
        let r = self.pop_front();
        proof {
            if old(self)@.len() > 0 {
                assert(self@ == old(self)@.drop_first());
            }
        }
        r
    }

    fn peek(&self) -> (r: Option<&T>) {
        if VecDeque::len(self) > 0 {
            Some(&self[0])
        } else {
            None
        }
    }

    fn peek_mut(&mut self) -> (r: Option<&mut T>) {
        vec_deque_front_mut(self)
    }
}

} // verus!
