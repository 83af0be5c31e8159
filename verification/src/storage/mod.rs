//! Storage adapters.
//!
//! ### Usage with custom containers
//! If the [`AllocStorage`] or [`HeaplessStorage`] adapters don't suit your use
//! case, e.g. you have custom buffers that you want to use as backing storage,
//! create an adapter struct and implement the [`Storage`] trait on it. The
//! containers named in its associated types implement [`TextContainer`],
//! [`QueueContainer`] and [`StackContainer`]; see the impls for [`AllocStorage`]
//! and [`HeaplessStorage`] for examples.

pub mod alloc_impl;
pub mod bounded;
pub mod charset;
pub mod laws;
pub mod sort;

pub use alloc_impl::AllocStorage;
pub use bounded::{BoundedDeque, BoundedVec, HeaplessStorage};
pub use charset::char_to_ext_ascii_byte;

use crate::error::StorageError;
use crate::ui::transition::Transition;
use crate::storage::charset::ext_ascii_bytes;
use crate::storage::sort::{covers_up_to_eq, is_strictly_sorted, is_total_order};
use vstd::prelude::*;
use vstd::std_specs::cmp::PartialEqSpec;

verus! {

/// Whether a container whose capacity is `capacity` (`None`: unbounded) can
/// hold `n` elements.
pub open spec fn fits(capacity: Option<nat>, n: nat) -> bool {
    match capacity {
        Some(c) => n <= c,
        None => true,
    }
}

/// How many more elements fit into a container that can hold `capacity`
/// elements and holds `n`.
pub open spec fn room(capacity: nat, n: nat) -> nat {
    if n <= capacity { (capacity - n) as nat } else { 0 }
}

/// Whether `k` more elements can be added to a container whose capacity is
/// `capacity` (`None`: unbounded) and that holds `n` elements.
pub open spec fn can_add(capacity: Option<nat>, n: nat, k: nat) -> bool {
    k == 0 || fits(capacity, n + k)
}

/// Whether `i` is the first index at which `s` holds an element equal (by
/// `PartialEq`) to `elem`.
pub open spec fn is_first_match<C: PartialEq>(s: Seq<C>, elem: &C, i: int) -> bool {
    &&& 0 <= i < s.len()
    &&& s[i].eq_spec(elem)
    &&& forall|j: int| 0 <= j < i ==> !s[j].eq_spec(elem)
}

/// Whether `s` holds no element equal (by `PartialEq`) to `elem`.
pub open spec fn has_no_match<C: PartialEq>(s: Seq<C>, elem: &C) -> bool {
    forall|j: int| 0 <= j < s.len() ==> !s[j].eq_spec(elem)
}

/// What adding `elem` to the back of a container of capacity `capacity`
/// (`None`: unbounded) that holds `before` does: where there is room, `elem`
/// is appended and the call succeeds; otherwise it fails and nothing changes.
pub open spec fn pushed<C>(
    capacity: Option<nat>,
    before: Seq<C>,
    elem: C,
    after: Seq<C>,
    r: Result<(), StorageError>,
) -> bool {
    if fits(capacity, before.len() + 1) {
        &&& r is Ok
        &&& after == before.push(elem)
    } else {
        &&& r == Err::<(), StorageError>(StorageError::NotEnoughStorage)
        &&& after == before
    }
}

/// What taking the last element off `before` does: it is returned and
/// removed, or, where there is none, `None` is returned and nothing changes.
pub open spec fn popped<C>(before: Seq<C>, after: Seq<C>, r: Option<C>) -> bool {
    if before.len() == 0 {
        &&& r is None
        &&& after == before
    } else {
        &&& r == Some(before.last())
        &&& after == before.drop_last()
    }
}

/// What taking the first element off `before` does: it is returned and
/// removed, or, where there is none, `None` is returned and nothing changes.
pub open spec fn dequeued<C>(before: Seq<C>, after: Seq<C>, r: Option<C>) -> bool {
    if before.len() == 0 {
        &&& r is None
        &&& after == before
    } else {
        &&& r == Some(before[0])
        &&& after == before.drop_first()
    }
}

/// What removing the element at `idx` of `before` while shifting the later
/// ones down does: it is returned, or, where `idx` is out of range, `None` is
/// returned and nothing changes.
pub open spec fn removed_at<C>(before: Seq<C>, idx: int, after: Seq<C>, r: Option<C>) -> bool {
    if 0 <= idx < before.len() {
        &&& r == Some(before[idx])
        &&& after == before.remove(idx)
    } else {
        &&& r is None
        &&& after == before
    }
}

/// What removing the element at `idx` of `before` while moving the last
/// element into its place does: it is returned, or, where `idx` is out of
/// range, `None` is returned and nothing changes.
pub open spec fn swap_removed_at<C>(before: Seq<C>, idx: int, after: Seq<C>, r: Option<C>) -> bool {
    if 0 <= idx < before.len() {
        &&& r == Some(before[idx])
        &&& after == before.update(idx, before.last()).drop_last()
    } else {
        &&& r is None
        &&& after == before
    }
}

/// What removing the first element of `before` equal to `elem` while shifting
/// the later ones down does: where there is none, `None` is returned and
/// nothing changes.
pub open spec fn removed_first_match<C: PartialEq>(
    before: Seq<C>,
    elem: &C,
    after: Seq<C>,
    r: Option<C>,
) -> bool {
    ||| {
        &&& r is None
        &&& has_no_match(before, elem)
        &&& after == before
    }
    ||| exists|i: int| #[trigger] is_first_match(before, elem, i) && removed_at(before, i, after, r)
}

/// What removing the first element of `before` equal to `elem` while moving
/// the last element into its place does: where there is none, `None` is
/// returned and nothing changes.
pub open spec fn swap_removed_first_match<C: PartialEq>(
    before: Seq<C>,
    elem: &C,
    after: Seq<C>,
    r: Option<C>,
) -> bool {
    ||| {
        &&& r is None
        &&& has_no_match(before, elem)
        &&& after == before
    }
    ||| exists|i: int|
        #[trigger] is_first_match(before, elem, i) && swap_removed_at(before, i, after, r)
}

/// Family of storage containers to use.
pub trait Storage {
    /// ASCII string container. See [`TextContainer`].
    type Text: TextContainer;
    /// Container for the queued transitions of a widget. See
    /// [`QueueContainer`].
    type Queue: QueueContainer<Transition<Self::Text>>;
}

/// A queue container.
pub trait QueueContainer<C>: Sized + Default {
    /// The elements of the queue, front first.
    spec fn items(&self) -> Seq<C>;

    /// How many elements the container can hold (`None`: unbounded).
    spec fn capacity() -> Option<nat>;

    /// Creates an empty container.
    fn new() -> (r: Self)
        ensures
            r.items() == Seq::<C>::empty(),
    ;

    /// Shrinks the queue's allocation to only fit its contents. Containers
    /// that do not allocate do nothing.
    fn minimize(&mut self)
        ensures
            final(self).items() == old(self).items(),
    ;

    /// Clears the queue.
    fn clear(&mut self)
        ensures
            final(self).items() == Seq::<C>::empty(),
    ;

    /// The length of the queue.
    fn len(&self) -> (r: usize)
        ensures
            r == self.items().len(),
            fits(Self::capacity(), r as nat),
    ;

    /// If the queue is empty.
    fn is_empty(&self) -> (r: bool)
        ensures
            r == (self.items().len() == 0),
    {
        self.len() == 0
    }

    /// Enqueues an element onto the end of this queue. Fails, leaving the
    /// queue as it was, where the container is full.
    fn enqueue(&mut self, elem: C) -> (r: Result<(), StorageError>)
        ensures
            pushed(Self::capacity(), old(self).items(), elem, final(self).items(), r),
    ;

    /// Dequeues the element at the front of this queue, if there is one.
    fn dequeue(&mut self) -> (r: Option<C>)
        ensures
            dequeued(old(self).items(), final(self).items(), r),
    ;

    /// Inspects the front of the queue, without dequeueing it.
    fn peek(&self) -> (r: Option<&C>)
        ensures
            self.items().len() == 0 ==> r is None,
            self.items().len() > 0 ==> r == Some(&self.items()[0]),
    ;

    /// A mutable reference to the front of the queue, without dequeueing it.
    fn peek_mut(&mut self) -> (r: Option<&mut C>)
        ensures
            old(self).items().len() == 0 ==> r is None && final(self).items() == old(self).items(),
            old(self).items().len() > 0 ==> (r matches Some(x) && *x == old(self).items()[0]
                && final(self).items() == old(self).items().update(0, *final(x))),
    ;
}

/// A stack (`Vec`-like) container.
pub trait StackContainer<C>: Sized + Default {
    /// The elements of the stack, bottom first.
    spec fn items(&self) -> Seq<C>;

    /// How many elements the container can hold (`None`: unbounded).
    spec fn capacity() -> Option<nat>;

    /// Creates an empty container.
    fn new() -> (r: Self)
        ensures
            r.items() == Seq::<C>::empty(),
    ;

    /// Clears the stack.
    fn clear(&mut self)
        ensures
            final(self).items() == Seq::<C>::empty(),
    ;

    /// Shrinks the stack's allocation to only fit its contents. Containers
    /// that do not allocate do nothing.
    fn minimize(&mut self)
        ensures
            final(self).items() == old(self).items(),
    ;

    /// The length of the stack.
    fn len(&self) -> (r: usize)
        ensures
            r == self.items().len(),
            fits(Self::capacity(), r as nat),
    ;

    /// If the stack is empty.
    fn is_empty(&self) -> (r: bool)
        ensures
            r == (self.items().len() == 0),
    {
        self.len() == 0
    }

    /// Pushes an element onto this stack. Fails, leaving the stack as it was,
    /// where the container is full.
    fn push(&mut self, elem: C) -> (r: Result<(), StorageError>)
        ensures
            pushed(Self::capacity(), old(self).items(), elem, final(self).items(), r),
    ;

    /// Pops the top element off this stack, if there is one.
    fn pop(&mut self) -> (r: Option<C>)
        ensures
            popped(old(self).items(), final(self).items(), r),
    ;

    /// The element at `idx`, counted from the bottom, or `None` where `idx`
    /// is out of range.
    fn get(&self, idx: usize) -> (r: Option<&C>)
        ensures
            idx < self.items().len() ==> r == Some(&self.items()[idx as int]),
            idx >= self.items().len() ==> r is None,
    ;

    /// A mutable reference to the element at `idx`, counted from the bottom,
    /// or `None` where `idx` is out of range.
    fn get_mut(&mut self, idx: usize) -> (r: Option<&mut C>)
        ensures
            idx >= old(self).items().len() ==> r is None && final(self).items() == old(self).items(),
            idx < old(self).items().len() ==> (r matches Some(x) && *x == old(self).items()[idx as int]
                && final(self).items() == old(self).items().update(idx as int, *final(x))),
    ;

    /// Takes all the elements off the stack, bottom first.
    fn drain_all(&mut self) -> (r: Vec<C>)
        ensures
            r@ == old(self).items(),
            final(self).items() == Seq::<C>::empty(),
    ;

    /// If the container holds an element equal to `elem`.
    fn contains(&self, elem: &C) -> (r: bool) where C: PartialEq
        ensures
            C::obeys_eq_spec() ==> (r <==> !has_no_match(self.items(), elem)),
    ;

    /// Removes the item at `idx`, returning it while shifting later elements
    /// down. Returns `None`, leaving the stack as it was, where `idx` is out
    /// of range.
    fn remove(&mut self, idx: usize) -> (r: Option<C>)
        ensures
            removed_at(old(self).items(), idx as int, final(self).items(), r),
    ;

    /// Removes the item at `idx`, returning it and putting the last element in
    /// the vacant spot. Returns `None`, leaving the stack as it was, where
    /// `idx` is out of range.
    fn swap_remove(&mut self, idx: usize) -> (r: Option<C>)
        ensures
            swap_removed_at(old(self).items(), idx as int, final(self).items(), r),
    ;

    /// Sorts the stack and removes duplicate elements: afterwards the elements
    /// are in strictly ascending order, each of them was in the stack before,
    /// and each element that was in the stack before equals one that is in it
    /// afterwards.
    fn sort_dedup(&mut self) where C: Ord
        requires
            is_total_order::<C>(),
        ensures
            is_strictly_sorted(final(self).items()),
            forall|i: int|
                0 <= i < final(self).items().len() ==> old(self).items().contains(
                    #[trigger] final(self).items()[i],
                ),
            covers_up_to_eq(old(self).items(), final(self).items()),
    ;

    /// Removes the first element equal to `elem`, if there is one, shifting
    /// later elements down.
    fn remove_elem(&mut self, elem: &C) -> (r: Option<C>) where C: PartialEq
        ensures
            C::obeys_eq_spec() ==> removed_first_match(old(self).items(), elem, final(self).items(), r),
    {
        let n = self.len();
        let mut i: usize = 0;
        while i < n
            invariant
                n == self.items().len(),
                i <= n,
                self.items() == old(self).items(),
                C::obeys_eq_spec() ==> forall|j: int| 0 <= j < i ==> !self.items()[j].eq_spec(elem),
            decreases n - i,
        {
            let found = match self.get(i) {
                Some(x) => *x == *elem,
                None => false,
            };
            if found {
                proof {
                    assert(C::obeys_eq_spec() ==> is_first_match(self.items(), elem, i as int));
                }
                return self.remove(i);
            }
            i = i + 1;
        }
        None
    }

    /// Removes the first element equal to `elem`, if there is one, moving the
    /// last element into its place.
    fn swap_remove_elem(&mut self, elem: &C) -> (r: Option<C>) where C: PartialEq
        ensures
            C::obeys_eq_spec() ==> swap_removed_first_match(old(self).items(), elem, final(self).items(), r),
    {
        let n = self.len();
        let mut i: usize = 0;
        while i < n
            invariant
                n == self.items().len(),
                i <= n,
                self.items() == old(self).items(),
                C::obeys_eq_spec() ==> forall|j: int| 0 <= j < i ==> !self.items()[j].eq_spec(elem),
            decreases n - i,
        {
            let found = match self.get(i) {
                Some(x) => *x == *elem,
                None => false,
            };
            if found {
                proof {
                    assert(C::obeys_eq_spec() ==> is_first_match(self.items(), elem, i as int));
                }
                return self.swap_remove(i);
            }
            i = i + 1;
        }
        None
    }
}

/// An ASCII text (string) container.
pub trait TextContainer: StackContainer<u8> + core::fmt::Debug {
    /// If the string is empty.
    fn is_empty(&self) -> (r: bool)
        ensures
            r == (StackContainer::items(self).len() == 0),
    ;

    /// Adds the ASCII byte `c` to the container. Fails, leaving the string as
    /// it was, where the container is full.
    fn push_ascii(&mut self, c: u8) -> (r: Result<(), StorageError>)
        ensures
            pushed(Self::capacity(), old(self).items(), c, final(self).items(), r),
    ;

    /// Adds the ASCII bytes `bytes` to the container, in order. Where they do
    /// not all fit, the ones that fit are added and the call fails.
    fn push_ascii_iter(&mut self, bytes: &[u8]) -> (r: Result<(), StorageError>)
        ensures
            can_add(Self::capacity(), old(self).items().len(), bytes@.len()) ==> {
                &&& r is Ok
                &&& final(self).items() == old(self).items() + bytes@
            },
            !can_add(Self::capacity(), old(self).items().len(), bytes@.len()) ==> {
                &&& r == Err::<(), StorageError>(StorageError::NotEnoughStorage)
                &&& Self::capacity() matches Some(c) && final(self).items() == old(self).items()
                    + bytes@.take(room(c, old(self).items().len()) as int)
            },
    {
        let n = bytes.len();
        let mut i: usize = 0;
        while i < n
            invariant
                n == bytes@.len(),
                i <= n,
                i > 0 ==> fits(Self::capacity(), old(self).items().len() + i as nat),
                self.items() == old(self).items() + bytes@.take(i as int),
            decreases n - i,
        {
            let pushed = self.push_ascii(bytes[i]);
            if pushed.is_err() {
                proof {
                    let c = Self::capacity()->0;
                    assert(room(c, old(self).items().len()) == i);
                }
                return Err(StorageError::NotEnoughStorage);
            }
            assert(bytes@.take(i + 1) == bytes@.take(i as int).push(bytes@[i as int]));
            i = i + 1;
        }
        assert(bytes@.take(n as int) == bytes@);
        Ok(())
    }

    /// The ASCII characters of the string.
    fn chars(&self) -> (r: Vec<u8>)
        ensures
            r@ == self.items(),
    ;

    /// Converts an `&str` to a text container. Non-ASCII characters become the
    /// byte for them in the extended character set the display supports (see
    /// the HD44780U data sheet); a character that has no such byte becomes
    /// `'?'`. Fails where the characters do not all fit.
    fn from_str(s: &str) -> (r: Result<Self, StorageError>)
        ensures
            r is Ok <==> fits(Self::capacity(), s@.len()),
            r matches Ok(t) ==> t.items() == ext_ascii_bytes(s@, 0x3f),
            r matches Err(e) ==> e == StorageError::NotEnoughStorage,
    {
        Self::from_utf8_replace(s, 0x3f)
    }

    /// Like [`TextContainer::from_str`], but a character that has no byte in
    /// the display's character set becomes `replacement`.
    fn from_utf8_replace(s: &str, replacement: u8) -> (r: Result<Self, StorageError>)
        ensures
            r is Ok <==> fits(Self::capacity(), s@.len()),
            r matches Ok(t) ==> t.items() == ext_ascii_bytes(s@, replacement),
            r matches Err(e) ==> e == StorageError::NotEnoughStorage,
    {
        let mut new = Self::new();
        let ghost chars = s@;
        for c in it: s.chars()
            invariant
                chars == s@,
                it.seq() == chars,
                new.items() == ext_ascii_bytes(chars.take(it.index() as int), replacement),
                fits(Self::capacity(), it.index() as nat),
        {
            let b = char_to_ext_ascii_byte(c, replacement);
            let pushed = new.push_ascii(b);
            if pushed.is_err() {
                assert(!fits(Self::capacity(), chars.len())) by {
                    assert(!fits(Self::capacity(), (it.index() + 1) as nat));
                }
                return Err(StorageError::NotEnoughStorage);
            }
            assert(chars.take(it.index() + 1) == chars.take(it.index() as int).push(c));
        }
        assert(chars.take(chars.len() as int) == chars);
        Ok(new)
    }
}

} // verus!
