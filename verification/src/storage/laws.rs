//! Laws that relate the operations of the containers to each other.
//!
//! Each container operation states its effect through one of the predicates
//! of the `storage` module ([`pushed`], [`popped`], [`dequeued`], ...); the
//! laws here hold of any two calls whose effects those predicates describe.

use crate::error::StorageError;
use crate::storage::{
    dequeued, fits, has_no_match, is_first_match, popped, pushed, removed_at,
    removed_first_match, swap_removed_at, swap_removed_first_match,
};
use vstd::prelude::*;
use vstd::std_specs::cmp::PartialEqSpec;

verus! {

/// A push never takes a container past its capacity.
pub proof fn lemma_push_keeps_capacity<C>(
    capacity: Option<nat>,
    before: Seq<C>,
    elem: C,
    after: Seq<C>,
    r: Result<(), StorageError>,
)
    requires
        fits(capacity, before.len()),
        pushed(capacity, before, elem, after, r),
    ensures
        fits(capacity, after.len()),
{
}

/// Popping right after a push that succeeded gives back the pushed element
/// and leaves the stack as it was before the push.
pub proof fn lemma_pop_undoes_push<C>(
    capacity: Option<nat>,
    before: Seq<C>,
    elem: C,
    pushed_to: Seq<C>,
    after: Seq<C>,
    r: Option<C>,
)
    requires
        pushed(capacity, before, elem, pushed_to, Ok(())),
        popped(pushed_to, after, r),
    ensures
        r == Some(elem),
        after == before,
{
    assert(before.push(elem).drop_last() =~= before);
}

/// Queues are first in, first out: dequeueing right after an enqueue that
/// succeeded gives the element that was at the front before (the enqueued one
/// where the queue was empty), and the enqueued element waits at the back.
pub proof fn lemma_dequeue_after_enqueue<C>(
    capacity: Option<nat>,
    before: Seq<C>,
    elem: C,
    enqueued: Seq<C>,
    after: Seq<C>,
    r: Option<C>,
)
    requires
        pushed(capacity, before, elem, enqueued, Ok(())),
        dequeued(enqueued, after, r),
    ensures
        before.len() == 0 ==> r == Some(elem) && after == before,
        before.len() > 0 ==> r == Some(before[0]) && after == before.drop_first().push(elem),
{
    if before.len() == 0 {
        assert(before.push(elem).drop_first() =~= before);
    } else {
        assert(before.push(elem).drop_first() =~= before.drop_first().push(elem));
    }
}

/// `remove_elem` takes an element out exactly where `contains` finds one, and
/// what it takes out equals the element looked for; otherwise it changes
/// nothing.
pub proof fn lemma_remove_elem_finds_what_contains_finds<C: PartialEq>(
    before: Seq<C>,
    elem: &C,
    found: bool,
    after: Seq<C>,
    r: Option<C>,
)
    requires
        C::obeys_eq_spec(),
        found <==> !has_no_match(before, elem),
        removed_first_match(before, elem, after, r),
    ensures
        found <==> r is Some,
        r matches Some(x) ==> x.eq_spec(elem) && after.len() + 1 == before.len(),
        r is None ==> after == before,
{
    if exists|i: int| #[trigger] is_first_match(before, elem, i) && removed_at(before, i, after, r) {
        let i = choose|i: int| #[trigger] is_first_match(before, elem, i) && removed_at(before, i, after, r);
        assert(before[i].eq_spec(elem));
        assert(!has_no_match(before, elem));
    }
}

/// `remove` and `swap_remove` at the same index take out the same element and
/// leave the same elements behind, in another order.
pub proof fn lemma_swap_remove_keeps_the_same_elements<C>(
    before: Seq<C>,
    idx: int,
    shifted: Seq<C>,
    r1: Option<C>,
    swapped: Seq<C>,
    r2: Option<C>,
)
    requires
        removed_at(before, idx, shifted, r1),
        swap_removed_at(before, idx, swapped, r2),
    ensures
        r1 == r2,
        shifted.to_multiset() == swapped.to_multiset(),
{
    broadcast use vstd::seq_lib::group_to_multiset_ensures;
    broadcast use vstd::multiset::group_multiset_axioms;

    if 0 <= idx < before.len() {
        let n = before.len() as int;
        let last = before.last();
        if idx == n - 1 {
            assert(before.update(idx, last) =~= before);
            assert(before.drop_last() =~= before.remove(idx));
        } else {
            let u = before.update(idx, last);
            assert(u.drop_last() =~= u.remove(n - 1));
            assert(u[n - 1] == last);
            let m = before.to_multiset();
            let a = before[idx];
            assert(before.contains(a));
            assert(before.contains(last));
            assert(u.remove(n - 1).to_multiset() == m.insert(last).remove(a).remove(last));
            assert(before.remove(idx).to_multiset() == m.remove(a));
            assert(m.insert(last).remove(a).remove(last) =~= m.remove(a));
        }
    }
}

/// `remove_elem` and `swap_remove_elem` take out the same element and leave
/// the same elements behind, in another order.
pub proof fn lemma_swap_remove_elem_agrees<C: PartialEq>(
    before: Seq<C>,
    elem: &C,
    shifted: Seq<C>,
    r1: Option<C>,
    swapped: Seq<C>,
    r2: Option<C>,
)
    requires
        C::obeys_eq_spec(),
        removed_first_match(before, elem, shifted, r1),
        swap_removed_first_match(before, elem, swapped, r2),
    ensures
        r1 == r2,
        shifted.to_multiset() == swapped.to_multiset(),
{
    if has_no_match(before, elem) {
        if exists|i: int| #[trigger] is_first_match(before, elem, i) && removed_at(before, i, shifted, r1) {
            let i = choose|i: int| #[trigger] is_first_match(before, elem, i) && removed_at(before, i, shifted, r1);
            assert(before[i].eq_spec(elem));
        }
        if exists|i: int| #[trigger] is_first_match(before, elem, i) && swap_removed_at(before, i, swapped, r2) {
            let i = choose|i: int| #[trigger] is_first_match(before, elem, i) && swap_removed_at(before, i, swapped, r2);
            assert(before[i].eq_spec(elem));
        }
    } else {
        let i = choose|i: int| #[trigger] is_first_match(before, elem, i) && removed_at(before, i, shifted, r1);
        let j = choose|j: int| #[trigger] is_first_match(before, elem, j) && swap_removed_at(before, j, swapped, r2);
        assert(i == j) by {
            if i < j {
                assert(!before[i].eq_spec(elem));
            } else if j < i {
                assert(!before[j].eq_spec(elem));
            }
        }
        lemma_swap_remove_keeps_the_same_elements(before, i, shifted, r1, swapped, r2);
    }
}

} // verus!
