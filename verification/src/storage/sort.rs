//! Sorting and deduplication of containers.

use vstd::prelude::*;
use vstd::std_specs::cmp::{OrdSpec, PartialEqSpec, PartialOrdSpec};
use vstd::laws_cmp::obeys_cmp;
use core::cmp::Ordering;
use crate::storage::is_first_match;

verus! {

/// `a` is ordered before `b`.
pub open spec fn lt<T: PartialOrd>(a: T, b: T) -> bool {
    a.partial_cmp_spec(&b) == Some(Ordering::Less)
}

/// `a` is ordered before or together with `b`.
pub open spec fn le<T: PartialOrd>(a: T, b: T) -> bool {
    a.partial_cmp_spec(&b) == Some(Ordering::Less) || a.partial_cmp_spec(&b) == Some(
        Ordering::Equal,
    )
}

/// The comparison of `T` is a total order, consistent with its equality.
pub open spec fn is_total_order<T: Ord>() -> bool {
    obeys_cmp::<T>()
}

/// The elements of `s` are in strictly ascending order.
pub open spec fn is_strictly_sorted<T: PartialOrd>(s: Seq<T>) -> bool {
    forall|i: int, j: int| 0 <= i < j < s.len() ==> lt(#[trigger] s[i], #[trigger] s[j])
}

/// The elements of `s` are in ascending order.
pub open spec fn is_sorted<T: PartialOrd>(s: Seq<T>) -> bool {
    forall|i: int, j: int| 0 <= i < j < s.len() ==> le(#[trigger] s[i], #[trigger] s[j])
}

/// `s` holds an element that `x` equals (by `PartialEq`).
pub open spec fn has_equal_in<T: PartialEq>(x: T, s: Seq<T>) -> bool {
    exists|j: int| 0 <= j < s.len() && x.eq_spec(&s[j])
}

/// Every element of `before` equals (by `PartialEq`) some element of `after`.
pub open spec fn covers_up_to_eq<T: PartialEq>(before: Seq<T>, after: Seq<T>) -> bool {
    forall|i: int| 0 <= i < before.len() ==> has_equal_in(#[trigger] before[i], after)
}

/// `s` with each element dropped that equals (by `PartialEq`) the last element
/// kept before it: the result of `Vec::dedup`.
pub open spec fn dedup_seq<T: PartialEq>(s: Seq<T>) -> Seq<T>
    decreases s.len(),
{
    if s.len() == 0 {
        s
    } else {
        let kept = dedup_seq(s.drop_last());
        if kept.len() > 0 && s.last().eq_spec(&kept.last()) {
            kept
        } else {
            kept.push(s.last())
        }
    }
}

/// Basic facts of a total order.
pub proof fn lemma_order_basics<T: Ord>(x: T, y: T)
    requires
        is_total_order::<T>(),
    ensures
        T::obeys_partial_cmp_spec(),
        T::obeys_eq_spec(),
        le(x, x),
        x.eq_spec(&x),
        le(x, y) || lt(y, x),
        lt(x, y) ==> le(x, y) && !x.eq_spec(&y) && !le(y, x),
        le(x, y) && !x.eq_spec(&y) ==> lt(x, y),
        x.eq_spec(&y) ==> le(x, y) && le(y, x) && y.eq_spec(&x),
        le(x, y) && le(y, x) ==> x.eq_spec(&y),
{
    reveal(vstd::laws_cmp::obeys_partial_cmp_spec_properties);
    reveal(vstd::laws_cmp::obeys_cmp_partial_ord);
    reveal(vstd::laws_cmp::obeys_cmp_ord);
    reveal(vstd::laws_eq::obeys_eq_spec_properties);
    assert(x.partial_cmp_spec(&y) == Some(x.cmp_spec(&y)));
    assert(y.partial_cmp_spec(&x) == Some(y.cmp_spec(&x)));
    assert(x.partial_cmp_spec(&x) == Some(x.cmp_spec(&x)));
}

/// Transitivity of a total order.
pub proof fn lemma_order_trans<T: Ord>(x: T, y: T, z: T)
    requires
        is_total_order::<T>(),
    ensures
        le(x, y) && le(y, z) ==> le(x, z),
        lt(x, y) && le(y, z) ==> lt(x, z),
        le(x, y) && lt(y, z) ==> lt(x, z),
        x.eq_spec(&y) && y.eq_spec(&z) ==> x.eq_spec(&z),
{
    reveal(vstd::laws_cmp::obeys_partial_cmp_spec_properties);
    reveal(vstd::laws_cmp::obeys_cmp_partial_ord);
    reveal(vstd::laws_cmp::obeys_cmp_ord);
    reveal(vstd::laws_eq::obeys_eq_spec_properties);
    lemma_order_basics(x, y);
    lemma_order_basics(y, z);
    lemma_order_basics(x, z);
    assert(x.partial_cmp_spec(&y) == Some(x.cmp_spec(&y)));
    assert(y.partial_cmp_spec(&z) == Some(y.cmp_spec(&z)));
    assert(x.partial_cmp_spec(&z) == Some(x.cmp_spec(&z)));
}

/// Dropping the repeats from an ascending sequence leaves a strictly ascending
/// sequence of its elements that still holds an equal of each of them.
#[verifier::rlimit(40)]
pub proof fn lemma_dedup_sorted<T: Ord>(s: Seq<T>)
    requires
        is_total_order::<T>(),
        is_sorted(s),
    ensures
        is_strictly_sorted(dedup_seq(s)),
        forall|i: int| 0 <= i < dedup_seq(s).len() ==> s.contains(#[trigger] dedup_seq(s)[i]),
        covers_up_to_eq(s, dedup_seq(s)),
        s.len() > 0 ==> dedup_seq(s).len() > 0,
    decreases s.len(),
{
    if s.len() > 0 {
        let rest = s.drop_last();
        let x = s.last();
        assert(is_sorted(rest)) by {
            assert forall|i: int, j: int| 0 <= i < j < rest.len() implies le(
                #[trigger] rest[i],
                #[trigger] rest[j],
            ) by {
                assert(rest[i] == s[i] && rest[j] == s[j]);
            }
        }
        lemma_dedup_sorted(rest);
        let kept = dedup_seq(rest);
        let d = dedup_seq(s);
        lemma_order_basics(x, x);
        if kept.len() > 0 && x.eq_spec(&kept.last()) {
            assert(d == kept);
            assert forall|i: int| 0 <= i < d.len() implies s.contains(#[trigger] d[i]) by {
                assert(rest.contains(d[i]));
                let k = choose|k: int| 0 <= k < rest.len() && rest[k] == d[i];
                assert(s[k] == d[i]);
            }
            assert forall|i: int| 0 <= i < s.len() implies has_equal_in(#[trigger] s[i], d) by {
                if i == s.len() - 1 {
                    assert(s[i].eq_spec(&d[d.len() - 1]));
                } else {
                    assert(s[i] == rest[i]);
                    assert(has_equal_in(rest[i], kept));
                }
            }
        } else {
            assert(d == kept.push(x));
            assert forall|i: int| 0 <= i < kept.len() implies lt(#[trigger] kept[i], x) by {
                assert(rest.contains(kept[i]));
                let k = choose|k: int| 0 <= k < rest.len() && rest[k] == kept[i];
                assert(s[k] == kept[i]);
                assert(le(s[k], s[s.len() - 1]));
                let last = kept.last();
                assert(rest.contains(last));
                let m = choose|m: int| 0 <= m < rest.len() && rest[m] == last;
                assert(s[m] == last);
                assert(le(s[m], s[s.len() - 1]));
                lemma_order_basics(last, x);
                assert(lt(last, x));
                if i < kept.len() - 1 {
                    assert(lt(kept[i], last));
                    lemma_order_trans(kept[i], last, x);
                }
            }
            assert forall|i: int, j: int| 0 <= i < j < d.len() implies lt(
                #[trigger] d[i],
                #[trigger] d[j],
            ) by {
                if j < kept.len() {
                    assert(d[i] == kept[i] && d[j] == kept[j]);
                } else {
                    assert(d[i] == kept[i]);
                }
            }
            assert forall|i: int| 0 <= i < d.len() implies s.contains(#[trigger] d[i]) by {
                if i < kept.len() {
                    assert(rest.contains(kept[i]));
                    let k = choose|k: int| 0 <= k < rest.len() && rest[k] == kept[i];
                    assert(s[k] == d[i]);
                } else {
                    assert(s[s.len() - 1] == d[i]);
                }
            }
            assert forall|i: int| 0 <= i < s.len() implies has_equal_in(#[trigger] s[i], d) by {
                if i == s.len() - 1 {
                    assert(s[i].eq_spec(&d[d.len() - 1]));
                } else {
                    assert(s[i] == rest[i]);
                    assert(has_equal_in(rest[i], kept));
                    let j = choose|j: int| 0 <= j < kept.len() && rest[i].eq_spec(&kept[j]);
                    assert(d[j] == kept[j]);
                }
            }
        }
    }
}

/// Swaps the elements at `a` and `b` of `v` (`<[T]>::swap`).
#[verifier::external_body]
fn slice_swap<T>(v: &mut Vec<T>, a: usize, b: usize)
    requires
        a < old(v)@.len(),
        b < old(v)@.len(),
    ensures
        final(v)@ == old(v)@.update(a as int, old(v)@[b as int]).update(b as int, old(v)@[a as int]),
{
    v.swap(a, b);
}

/// Swapping two elements keeps the multiset of elements.
proof fn lemma_swap_multiset<T>(s: Seq<T>, a: int, b: int)
    requires
        0 <= a < s.len(),
        0 <= b < s.len(),
    ensures
        s.update(a, s[b]).update(b, s[a]).to_multiset() == s.to_multiset(),
{
    broadcast use vstd::seq_lib::to_multiset_update;
    broadcast use vstd::seq_lib::to_multiset_contains;
    broadcast use vstd::multiset::group_multiset_axioms;

    let s1 = s.update(a, s[b]);
    assert(s.contains(s[a]));
    assert(s.contains(s[b]));
    assert(s1.to_multiset() == s.to_multiset().insert(s[b]).remove(s[a]));
    if a == b {
        assert(s1.update(b, s[a]) == s);
    } else {
        assert(s1[b] == s[b]);
        assert(s1.update(b, s[a]).to_multiset() == s1.to_multiset().insert(s[a]).remove(s[b]));
        let m = s.to_multiset();
        let m2 = m.insert(s[b]).remove(s[a]).insert(s[a]).remove(s[b]);
        assert forall|x: T| m2.count(x) == m.count(x) by {
            assert(m.count(s[a]) > 0);
            assert(m.count(s[b]) > 0);
        }
        assert(m2 =~= m);
    }
}

/// Every element of `after` in `lo..hi` is an element of `before` in `lo..hi`.
pub open spec fn drawn_from<T>(after: Seq<T>, before: Seq<T>, lo: int, hi: int) -> bool {
    forall|k: int| lo <= k < hi ==> before.subrange(lo, hi).contains(#[trigger] after[k])
}

/// A sequence is drawn from itself.
proof fn lemma_drawn_from_refl<T>(s: Seq<T>, lo: int, hi: int)
    requires
        0 <= lo <= hi <= s.len(),
    ensures
        drawn_from(s, s, lo, hi),
{
    assert forall|k: int| lo <= k < hi implies s.subrange(lo, hi).contains(#[trigger] s[k]) by {
        assert(s.subrange(lo, hi)[k - lo] == s[k]);
    }
}

/// Being drawn from is transitive.
proof fn lemma_drawn_from_trans<T>(a: Seq<T>, b: Seq<T>, c: Seq<T>, lo: int, hi: int)
    requires
        0 <= lo <= hi <= b.len(),
        hi <= c.len(),
        drawn_from(a, b, lo, hi),
        drawn_from(b, c, lo, hi),
    ensures
        drawn_from(a, c, lo, hi),
{
    assert forall|k: int| lo <= k < hi implies c.subrange(lo, hi).contains(#[trigger] a[k]) by {
        assert(b.subrange(lo, hi).contains(a[k]));
        let i = choose|i: int| 0 <= i < hi - lo && b.subrange(lo, hi)[i] == a[k];
        assert(b[lo + i] == a[k]);
        assert(c.subrange(lo, hi).contains(b[lo + i]));
    }
}

/// `after` equals `before` outside `lo..hi`.
pub open spec fn same_outside<T>(after: Seq<T>, before: Seq<T>, lo: int, hi: int) -> bool {
    &&& after.len() == before.len()
    &&& forall|k: int| 0 <= k < after.len() && !(lo <= k < hi) ==> after[k] == before[k]
}

/// Swaps two elements of `v` in `lo..hi`.
fn swap_in_range<T>(v: &mut Vec<T>, a: usize, b: usize, Ghost(lo): Ghost<int>, Ghost(hi): Ghost<int>)
    requires
        0 <= lo <= a < hi <= old(v)@.len(),
        lo <= b < hi,
    ensures
        final(v)@ == old(v)@.update(a as int, old(v)@[b as int]).update(b as int, old(v)@[a as int]),
        final(v)@.to_multiset() == old(v)@.to_multiset(),
        same_outside(final(v)@, old(v)@, lo, hi),
        drawn_from(final(v)@, old(v)@, lo, hi),
{
    proof {
        lemma_swap_multiset(v@, a as int, b as int);
    }
    let ghost before = v@;
    slice_swap(v, a, b);
    assert forall|k: int| lo <= k < hi implies before.subrange(lo, hi).contains(#[trigger] v@[k]) by {
        if k == b {
            assert(before.subrange(lo, hi)[a - lo] == v@[k]);
        } else if k == a {
            assert(before.subrange(lo, hi)[b - lo] == v@[k]);
        } else {
            assert(before.subrange(lo, hi)[k - lo] == v@[k]);
        }
    }
}

/// Partitions `v[lo..hi]` around its last element: returns where that element
/// ends up; the elements before it are ordered before or together with it,
/// the elements after it after it.
fn partition<T: Ord>(v: &mut Vec<T>, lo: usize, hi: usize) -> (p: usize)
    requires
        is_total_order::<T>(),
        lo < hi <= old(v)@.len(),
    ensures
        lo <= p < hi,
        final(v)@.to_multiset() == old(v)@.to_multiset(),
        same_outside(final(v)@, old(v)@, lo as int, hi as int),
        drawn_from(final(v)@, old(v)@, lo as int, hi as int),
        forall|k: int| lo <= k < p ==> le(#[trigger] final(v)@[k], final(v)@[p as int]),
        forall|k: int| p < k < hi ==> lt(final(v)@[p as int], #[trigger] final(v)@[k]),
{
    let ghost start = v@;
    let last = hi - 1;
    let mut i = lo;
    let mut j = lo;
    proof {
        lemma_drawn_from_refl(start, lo as int, hi as int);
    }
    while j < last
        invariant
            is_total_order::<T>(),
            lo <= i <= j <= last,
            last == hi - 1,
            hi <= start.len(),
            v@.to_multiset() == start.to_multiset(),
            same_outside(v@, start, lo as int, hi as int),
            drawn_from(v@, start, lo as int, hi as int),
            v@[last as int] == start[last as int],
            forall|k: int| lo <= k < i ==> le(#[trigger] v@[k], v@[last as int]),
            forall|k: int| i <= k < j ==> !le(#[trigger] v@[k], v@[last as int]),
        decreases last - j,
    {
        proof {
            lemma_order_basics(v@[j as int], v@[last as int]);
        }
        if v[j] <= v[last] {
            let ghost before = v@;
            swap_in_range(v, i, j, Ghost(lo as int), Ghost(hi as int));
            proof {
                lemma_drawn_from_trans(v@, before, start, lo as int, hi as int);
                assert forall|k: int| lo <= k < i + 1 implies le(#[trigger] v@[k], v@[last as int]) by {
                    if k == i {
                        assert(v@[k] == before[j as int]);
                    } else {
                        assert(v@[k] == before[k]);
                    }
                }
                assert forall|k: int| i + 1 <= k < j + 1 implies !le(#[trigger] v@[k], v@[last as int]) by {
                    if k == j {
                        assert(v@[k] == before[i as int]);
                    } else {
                        assert(v@[k] == before[k]);
                    }
                }
            }
            i = i + 1;
        }
        j = j + 1;
    }
    let ghost before = v@;
    swap_in_range(v, i, last, Ghost(lo as int), Ghost(hi as int));
    proof {
        lemma_drawn_from_trans(v@, before, start, lo as int, hi as int);
        assert(v@[i as int] == start[last as int]);
        assert forall|k: int| lo <= k < i implies le(#[trigger] v@[k], v@[i as int]) by {
            assert(v@[k] == before[k]);
        }
        assert forall|k: int| i < k < hi implies lt(v@[i as int], #[trigger] v@[k]) by {
            if k == last {
                assert(v@[k] == before[i as int]);
                lemma_order_basics(before[i as int], start[last as int]);
            } else {
                assert(v@[k] == before[k]);
                lemma_order_basics(before[k], start[last as int]);
            }
        }
    }
    i
}

/// The elements of `s` in `lo..hi` are in ascending order.
pub open spec fn sorted_between<T: PartialOrd>(s: Seq<T>, lo: int, hi: int) -> bool {
    forall|a: int, b: int| lo <= a < b < hi ==> le(#[trigger] s[a], #[trigger] s[b])
}

/// Sorts `v[lo..hi]` in place.
fn quicksort_range<T: Ord>(v: &mut Vec<T>, lo: usize, hi: usize)
    requires
        is_total_order::<T>(),
        lo <= hi <= old(v)@.len(),
    ensures
        final(v)@.to_multiset() == old(v)@.to_multiset(),
        same_outside(final(v)@, old(v)@, lo as int, hi as int),
        drawn_from(final(v)@, old(v)@, lo as int, hi as int),
        sorted_between(final(v)@, lo as int, hi as int),
    decreases hi - lo,
{
    let ghost start = v@;
    if hi - lo <= 1 {
        proof {
            lemma_drawn_from_refl(start, lo as int, hi as int);
        }
        return;
    }
    let p = partition(v, lo, hi);
    let ghost parted = v@;
    quicksort_range(v, lo, p);
    let ghost left_done = v@;
    quicksort_range(v, p + 1, hi);
    proof {
        let pivot = parted[p as int];
        assert(left_done[p as int] == pivot);
        assert(v@[p as int] == pivot);
        // the left part holds elements ordered before or with the pivot
        assert forall|k: int| lo <= k < p implies le(#[trigger] v@[k], pivot) by {
            assert(v@[k] == left_done[k]);
            assert(parted.subrange(lo as int, p as int).contains(left_done[k]));
            let i = choose|i: int|
                0 <= i < p - lo && #[trigger] parted.subrange(lo as int, p as int)[i] == left_done[k];
            assert(parted[lo + i] == left_done[k]);
        }
        // the right part holds elements ordered after the pivot
        assert forall|k: int| p < k < hi implies lt(pivot, #[trigger] v@[k]) by {
            assert(left_done.subrange(p + 1, hi as int).contains(v@[k]));
            let i = choose|i: int|
                0 <= i < hi - (p + 1) && #[trigger] left_done.subrange(p + 1, hi as int)[i] == v@[k];
            assert(left_done[p + 1 + i] == v@[k]);
            assert(parted[p + 1 + i] == v@[k]);
        }
        assert forall|a: int, b: int| lo <= a < b < hi implies le(#[trigger] v@[a], #[trigger] v@[b]) by {
            if b < p {
                assert(v@[a] == left_done[a] && v@[b] == left_done[b]);
            } else if b == p {
            } else if a < p {
                lemma_order_basics(pivot, v@[b]);
                lemma_order_trans(v@[a], pivot, v@[b]);
            } else if a == p {
                lemma_order_basics(pivot, v@[b]);
            } else {
            }
        }
        // every element came from the range
        assert(drawn_from(left_done, parted, lo as int, hi as int)) by {
            assert forall|k: int| lo <= k < hi implies parted.subrange(lo as int, hi as int).contains(
                #[trigger] left_done[k],
            ) by {
                if k < p {
                    assert(parted.subrange(lo as int, p as int).contains(left_done[k]));
                    let i = choose|i: int|
                        0 <= i < p - lo && #[trigger] parted.subrange(lo as int, p as int)[i] == left_done[k];
                    assert(parted.subrange(lo as int, hi as int)[i] == left_done[k]);
                } else {
                    assert(parted.subrange(lo as int, hi as int)[k - lo] == left_done[k]);
                }
            }
        }
        assert(drawn_from(v@, left_done, lo as int, hi as int)) by {
            assert forall|k: int| lo <= k < hi implies left_done.subrange(lo as int, hi as int).contains(
                #[trigger] v@[k],
            ) by {
                if k > p {
                    assert(left_done.subrange(p + 1, hi as int).contains(v@[k]));
                    let i = choose|i: int|
                        0 <= i < hi - (p + 1) && #[trigger] left_done.subrange(p + 1, hi as int)[i] == v@[k];
                    assert(left_done.subrange(lo as int, hi as int)[p + 1 + i - lo] == v@[k]);
                } else {
                    assert(left_done.subrange(lo as int, hi as int)[k - lo] == v@[k]);
                }
            }
        }
        lemma_drawn_from_trans(v@, left_done, parted, lo as int, hi as int);
        lemma_drawn_from_trans(v@, parted, start, lo as int, hi as int);
    }
}

/// Sorts `arr` in place, in ascending order.
fn quicksort_ord<T: Ord>(arr: &mut Vec<T>)
    requires
        is_total_order::<T>(),
    ensures
        final(arr)@.to_multiset() == old(arr)@.to_multiset(),
        is_sorted(final(arr)@),
{
    let n = arr.len();
    quicksort_range(arr, 0, n);
}

/// A non-empty sequence keeps at least one element when its repeats are
/// dropped.
proof fn lemma_dedup_nonempty<T: PartialEq>(s: Seq<T>)
    requires
        s.len() > 0,
    ensures
        dedup_seq(s).len() > 0,
{
    let kept = dedup_seq(s.drop_last());
    if kept.len() > 0 && s.last().eq_spec(&kept.last()) {
    } else {
        assert(dedup_seq(s) == kept.push(s.last()));
    }
}

/// The pass of the dedup partition over `s` from position `r` on, where the
/// `w` elements before position `w` are kept: an element equal to the last
/// one kept stays where it is, any other is swapped with the element at `w`
/// (the first of those left behind) and kept. Gives the arrangement at the
/// end of the pass and how many elements are kept.
pub open spec fn dedup_pass<T: PartialEq>(s: Seq<T>, r: int, w: int) -> (Seq<T>, int)
    decreases s.len() - r,
{
    if r < 0 || w < 1 || w > r || r >= s.len() {
        (s, w)
    } else if s[r].eq_spec(&s[w - 1]) {
        dedup_pass(s, r + 1, w)
    } else {
        dedup_pass(s.update(r, s[w]).update(w, s[r]), r + 1, w + 1)
    }
}

/// The arrangement that the dedup partition leaves of `s`, and how many
/// elements it keeps at the front. For example `[0, 1, 1, 2, 3, 3]` becomes
/// `[0, 1, 2, 3, 1, 3]` with 4 elements kept.
pub open spec fn dedup_partition<T: PartialEq>(s: Seq<T>) -> (Seq<T>, int) {
    if s.len() <= 1 {
        (s, s.len() as int)
    } else {
        dedup_pass(s, 1, 1)
    }
}

/// Moves the elements of `v` that do not equal the element kept before them
/// to the front of `v`, in order, and returns how many they are. The other
/// elements end up behind them, as [`dedup_partition`] says.
fn partition_dedup<T: PartialEq>(v: &mut Vec<T>) -> (w: usize)
    ensures
        w <= final(v)@.len(),
        final(v)@.to_multiset() == old(v)@.to_multiset(),
        T::obeys_eq_spec() ==> final(v)@.take(w as int) == dedup_seq(old(v)@),
        T::obeys_eq_spec() ==> (final(v)@, w as int) == dedup_partition(old(v)@),
{
    let ghost start = v@;
    let len = v.len();
    if len <= 1 {
        proof {
            if len == 1 {
                assert(start.drop_last() == Seq::<T>::empty());
                assert(dedup_seq(start.drop_last()).len() == 0);
                assert(dedup_seq(start) == Seq::<T>::empty().push(start[0]));
                assert(v@.take(1) == dedup_seq(start));
            } else {
                assert(v@.take(0) == dedup_seq(start));
            }
        }
        return len;
    }
    let mut next_read: usize = 1;
    let mut next_write: usize = 1;
    proof {
        assert(start.take(1).drop_last() == Seq::<T>::empty());
        assert(dedup_seq(start.take(1).drop_last()).len() == 0);
        assert(dedup_seq(start.take(1)) == Seq::<T>::empty().push(start[0]));
        assert(v@.take(1) == dedup_seq(start.take(1)));
    }
    while next_read < len
        invariant
            1 <= next_write <= next_read <= len,
            len == start.len(),
            v@.len() == len,
            v@.to_multiset() == start.to_multiset(),
            forall|k: int| next_read <= k < len ==> v@[k] == start[k],
            T::obeys_eq_spec() ==> v@.take(next_write as int) == dedup_seq(start.take(next_read as int)),
            T::obeys_eq_spec() ==> dedup_pass(v@, next_read as int, next_write as int) == dedup_pass(
                start,
                1,
                1,
            ),
        decreases len - next_read,
    {
        let ghost before = v@;
        let ghost r = next_read as int;
        let ghost w = next_write as int;
        proof {
            assert(start.take(r + 1).drop_last() == start.take(r));
            assert(start.take(r + 1).last() == start[r]);
            lemma_dedup_nonempty(start.take(r));
        }
        let same = v[next_read] == v[next_write - 1];
        if !same {
            if next_read != next_write {
                swap_in_range(v, next_read, next_write, Ghost(0int), Ghost(len as int));
            } else {
                assert(before.update(r, before[w]).update(w, before[r]) =~= before);
            }
            proof {
                if T::obeys_eq_spec() {
                    let kept = dedup_seq(start.take(r));
                    assert(kept.last() == before[w - 1]);
                    assert(dedup_seq(start.take(r + 1)) == kept.push(start[r]));
                    assert(v@.take(w + 1) == before.take(w).push(start[r]));
                }
            }
            next_write = next_write + 1;
        } else {
            proof {
                if T::obeys_eq_spec() {
                    let kept = dedup_seq(start.take(r));
                    assert(kept.last() == before[w - 1]);
                    assert(dedup_seq(start.take(r + 1)) == kept);
                }
            }
        }
        next_read = next_read + 1;
    }
    proof {
        assert(start.take(len as int) == start);
    }
    next_write
}

/// Sorting a sequence and then dropping its repeats leaves a strictly ascending
/// sequence of its elements that holds an equal of each of them.
pub proof fn lemma_sort_dedup_result<T: Ord>(before: Seq<T>, sorted: Seq<T>)
    requires
        is_total_order::<T>(),
        sorted.to_multiset() == before.to_multiset(),
        is_sorted(sorted),
    ensures
        is_strictly_sorted(dedup_seq(sorted)),
        forall|i: int|
            0 <= i < dedup_seq(sorted).len() ==> before.contains(#[trigger] dedup_seq(sorted)[i]),
        covers_up_to_eq(before, dedup_seq(sorted)),
{
    broadcast use vstd::seq_lib::to_multiset_contains;

    lemma_dedup_sorted(sorted);
    let d = dedup_seq(sorted);
    assert forall|i: int| 0 <= i < d.len() implies before.contains(#[trigger] d[i]) by {
        assert(sorted.contains(d[i]));
        assert(sorted.to_multiset().count(d[i]) > 0);
    }
    assert forall|i: int| 0 <= i < before.len() implies has_equal_in(#[trigger] before[i], d) by {
        assert(before.contains(before[i]));
        assert(before.to_multiset().count(before[i]) > 0);
        assert(sorted.contains(before[i]));
        let k = choose|k: int| 0 <= k < sorted.len() && sorted[k] == before[i];
        assert(has_equal_in(sorted[k], d));
    }
}

/// The elements of `s` that equal (by `PartialEq`) `x`, in their order in
/// `s`.
pub open spec fn equals_of<T: PartialEq>(s: Seq<T>, x: T) -> Seq<T> {
    s.filter(|y: T| y.eq_spec(&x))
}

/// Elements that are equal keep their order: for each `x`, the elements
/// equal to `x` come in the same order in `after` as in `before`.
pub open spec fn keeps_order_of_equals<T: PartialEq>(before: Seq<T>, after: Seq<T>) -> bool {
    forall|x: T| #[trigger] equals_of(after, x) == equals_of(before, x)
}

/// Of several equal elements of `before`, `after` holds the first: each
/// element of `after` is the first element of `before` that it equals.
pub open spec fn keeps_first_equal<T: PartialEq>(before: Seq<T>, after: Seq<T>) -> bool {
    forall|k: int, i: int|
        0 <= k < after.len() && #[trigger] is_first_match(before, &after[k], i) ==> after[k]
            == before[i]
}

/// Where no element of `s` equals `x`, there are no equals of `x` in `s`.
proof fn lemma_no_equals<T: PartialEq>(s: Seq<T>, x: T)
    requires
        forall|j: int| 0 <= j < s.len() ==> !s[j].eq_spec(&x),
    ensures
        equals_of(s, x).len() == 0,
    decreases s.len(),
{
    reveal(Seq::filter);
    if s.len() > 0 {
        lemma_no_equals(s.drop_last(), x);
    }
}

/// The first of the equals of `x` in `s` is the first element of `s` equal
/// to `x`.
proof fn lemma_first_of_equals<T: PartialEq>(s: Seq<T>, x: T, i: int)
    requires
        is_first_match(s, &x, i),
    ensures
        equals_of(s, x).len() > 0,
        equals_of(s, x)[0] == s[i],
    decreases s.len(),
{
    reveal(Seq::filter);
    let rest = s.drop_last();
    if i == s.len() - 1 {
        lemma_no_equals(rest, x);
        assert(equals_of(s, x) == equals_of(rest, x).push(s.last()));
    } else {
        assert(is_first_match(rest, &x, i));
        lemma_first_of_equals(rest, x, i);
    }
}

/// Where some element of `s` equals `x`, there is a first one.
proof fn lemma_first_match_exists<T: PartialEq>(s: Seq<T>, x: T, m: int)
    requires
        0 <= m < s.len(),
        s[m].eq_spec(&x),
    ensures
        exists|j: int| is_first_match(s, &x, j),
    decreases s.len(),
{
    let rest = s.drop_last();
    assert(forall|j: int| 0 <= j < rest.len() ==> #[trigger] rest[j] == s[j]);
    if exists|j: int| 0 <= j < rest.len() && #[trigger] rest[j].eq_spec(&x) {
        let j = choose|j: int| 0 <= j < rest.len() && #[trigger] rest[j].eq_spec(&x);
        lemma_first_match_exists(rest, x, j);
        let f = choose|f: int| is_first_match(rest, &x, f);
        assert(s[f] == rest[f]);
        assert forall|i: int| 0 <= i < f implies !(#[trigger] s[i]).eq_spec(&x) by {
            assert(rest[i] == s[i]);
            assert(!rest[i].eq_spec(&x));
        }
        assert(is_first_match(s, &x, f));
    } else {
        assert(m == s.len() - 1) by {
            if m < s.len() - 1 {
                assert(rest[m].eq_spec(&x));
            }
        }
        assert(forall|j: int| 0 <= j < s.len() - 1 ==> !(#[trigger] s[j]).eq_spec(&x)) by {
            assert forall|j: int| 0 <= j < s.len() - 1 implies !(#[trigger] s[j]).eq_spec(&x) by {
                assert(rest[j] == s[j]);
            }
        }
        assert(is_first_match(s, &x, s.len() - 1));
    }
}

/// In an ascending sequence, dropping the repeats keeps the first element of
/// each run of equal elements, and the last element kept equals the last
/// element of the sequence.
proof fn lemma_dedup_keeps_first_of_run<T: Ord>(s: Seq<T>)
    requires
        is_total_order::<T>(),
        is_sorted(s),
    ensures
        keeps_first_equal(s, dedup_seq(s)),
        s.len() > 0 ==> dedup_seq(s).last().eq_spec(&s.last()),
    decreases s.len(),
{
    if s.len() > 0 {
        let n = s.len() as int;
        let rest = s.drop_last();
        let x = s.last();
        assert(is_sorted(rest)) by {
            assert forall|i: int, j: int| 0 <= i < j < rest.len() implies le(
                #[trigger] rest[i],
                #[trigger] rest[j],
            ) by {
                assert(rest[i] == s[i] && rest[j] == s[j]);
            }
        }
        lemma_dedup_keeps_first_of_run(rest);
        lemma_dedup_sorted(rest);
        let kept = dedup_seq(rest);
        let d = dedup_seq(s);
        lemma_order_basics(x, x);
        // an element kept from `rest` is, in `s`, the first element it equals
        assert forall|k: int, j: int|
            0 <= k < kept.len() && #[trigger] is_first_match(s, &kept[k], j) implies kept[k]
            == s[j] by {
            assert(rest.contains(kept[k]));
            let m = choose|m: int| 0 <= m < rest.len() && rest[m] == kept[k];
            lemma_order_basics(kept[k], kept[k]);
            assert(s[m] == kept[k]);
            if j > m {
                assert(!s[m].eq_spec(&kept[k]));
            }
            assert(is_first_match(rest, &kept[k], j));
        }
        if kept.len() > 0 && x.eq_spec(&kept.last()) {
            assert(d == kept);
            lemma_order_basics(x, kept.last());
        } else {
            assert(d == kept.push(x));
            assert forall|k: int, j: int|
                0 <= k < d.len() && #[trigger] is_first_match(s, &d[k], j) implies d[k] == s[j] by {
                if k < kept.len() {
                    assert(d[k] == kept[k]);
                    assert(is_first_match(s, &kept[k], j));
                } else {
                    assert(d[k] == x);
                    if j < n - 1 {
                        // `s[j]` equals `x`, so everything from `s[j]` to
                        // `x` equals `x`, and so would the last kept element
                        let y = s[n - 2];
                        assert(s[j].eq_spec(&x));
                        lemma_order_basics(s[j], x);
                        lemma_order_basics(y, x);
                        if j < n - 2 {
                            assert(le(s[j], y));
                        }
                        lemma_order_trans(x, s[j], y);
                        assert(y.eq_spec(&x));
                        assert(kept.last().eq_spec(&rest.last()));
                        lemma_order_trans(kept.last(), y, x);
                        lemma_order_basics(kept.last(), x);
                        assert(false);
                    }
                }
            }
        }
    }
}

/// Sorts `v` and drops its repeats, with the sort of `[T]` and
/// `Vec::dedup`.
pub fn sort_dedup_std<T: Ord>(v: &mut Vec<T>)
    requires
        is_total_order::<T>(),
    ensures
        is_strictly_sorted(final(v)@),
        forall|i: int| 0 <= i < final(v)@.len() ==> old(v)@.contains(#[trigger] final(v)@[i]),
        covers_up_to_eq(old(v)@, final(v)@),
        keeps_first_equal(old(v)@, final(v)@),
{
    let ghost start = v@;
    slice_sort(v);
    let ghost sorted = v@;
    vec_dedup(v);
    proof {
        lemma_order_basics(start[0], start[0]);
        reveal(vstd::laws_cmp::obeys_partial_cmp_spec_properties);
        lemma_sort_dedup_result(start, sorted);
        // of several equal elements, the stable sort puts the first one first
        // among them, and dropping the repeats keeps that one
        lemma_dedup_keeps_first_of_run(sorted);
        lemma_dedup_sorted(sorted);
        let d = v@;
        assert forall|k: int, i: int|
            0 <= k < d.len() && #[trigger] is_first_match(start, &d[k], i) implies d[k]
            == start[i] by {
            assert(sorted.contains(d[k]));
            let m = choose|m: int| 0 <= m < sorted.len() && sorted[m] == d[k];
            lemma_order_basics(d[k], d[k]);
            lemma_first_match_exists(sorted, d[k], m);
            let j = choose|j: int| is_first_match(sorted, &d[k], j);
            lemma_first_of_equals(sorted, d[k], j);
            lemma_first_of_equals(start, d[k], i);
            assert(equals_of(sorted, d[k]) == equals_of(start, d[k]));
        }
    }
}

/// Sorts `v` and drops its repeats, with the quicksort and the partition of
/// this module.
pub fn sort_dedup_in_place<T: Ord>(v: &mut Vec<T>)
    requires
        is_total_order::<T>(),
    ensures
        final(v)@.len() <= old(v)@.len(),
        is_strictly_sorted(final(v)@),
        forall|i: int| 0 <= i < final(v)@.len() ==> old(v)@.contains(#[trigger] final(v)@[i]),
        covers_up_to_eq(old(v)@, final(v)@),
{
    let ghost start = v@;
    quicksort_ord(v);
    let ghost sorted = v@;
    let w = partition_dedup(v);
    proof {
        broadcast use vstd::seq_lib::to_multiset_len;
        assert(sorted.to_multiset().len() == start.to_multiset().len());
        assert(v@.to_multiset().len() == sorted.to_multiset().len());
    }
    v.truncate(w);
    proof {
        lemma_order_basics(start[0], start[0]);
        lemma_sort_dedup_result(start, sorted);
    }
}

/// Sorts `v` in ascending order (the sort of `[T]`). Its documentation allows
/// it to panic where the order of `T` is not total, which the `requires`
/// rules out, and documents the sort as stable: elements that are equal keep
/// the order they had. Under a total order, elements are equal by `Ord`
/// exactly where they are equal by `PartialEq`.
#[verifier::external_body]
fn slice_sort<T: Ord>(v: &mut Vec<T>)
    requires
        is_total_order::<T>(),
    ensures
        final(v)@.to_multiset() == old(v)@.to_multiset(),
        is_sorted(final(v)@),
        keeps_order_of_equals(old(v)@, final(v)@),
{
    v.sort();
}

/// Removes consecutive repeated elements of `v` (`Vec::dedup`): each element
/// that equals the element kept before it is dropped. Stated for types whose
/// equality is an equivalence, where the documentation's "consecutive repeated
/// elements" is unambiguous.
#[verifier::external_body]
fn vec_dedup<T: PartialEq>(v: &mut Vec<T>)
    ensures
        vstd::laws_eq::obeys_eq::<T>() ==> final(v)@ == dedup_seq(old(v)@),
{
    v.dedup();
}

} // verus!
