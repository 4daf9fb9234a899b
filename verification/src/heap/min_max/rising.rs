//! Pushing a value up a min-max heap: over its parent where that fails to
//! bound it, then over its grandparents on one side.

use super::{
    beyond, bounds, get_grandparent, get_level, get_parent, in_order, lemma_bounds_transitive,
    min_max_ordered,
};
use crate::heap::{Heap, MaxMinHeap};
use crate::layout::{lemma_swapped_keeps_contents, swapped};
use crate::order::{lemma_comparisons, total_order};
use crate::tree::{
    grandparent, is_descendant, lemma_descendant_transitive, lemma_grandparent, lemma_parent,
    on_min_level, parent,
};
use vstd::prelude::*;

verus! {

/// The heap property but for how `i` stands to its ancestors on min levels
/// (where `low`) or on max levels (otherwise): those may fail to bound the
/// value at `i`, and nothing else is out of order.
pub open spec fn ordered_except_above<U: PartialOrd>(s: Seq<U>, i: int, low: bool) -> bool {
    forall|a: int, d: int|
        d < s.len() && #[trigger] is_descendant(d, a) && !(d == i && on_min_level(a) == low)
            ==> in_order(s, a, d)
}

/// The layout after the value at `i` has moved up over its grandparents for
/// as long as it lay strictly beyond the next one: before it where `low`,
/// after it otherwise.
pub open spec fn risen<U: PartialOrd>(s: Seq<U>, i: int, low: bool) -> Seq<U>
    decreases i,
{
    if 3 <= i < s.len() && beyond(s[i], s[grandparent(i)], low) {
        risen(swapped(s, i, grandparent(i)), grandparent(i), low)
    } else {
        s
    }
}

/// The layout after the value at `i` has found its side and risen on it: a
/// value that its parent fails to bound first changes places with the parent.
pub open spec fn pushed_up<U: PartialOrd>(s: Seq<U>, i: int) -> Seq<U> {
    if 0 < i < s.len() {
        if beyond(s[i], s[parent(i)], on_min_level(parent(i))) {
            risen(swapped(s, i, parent(i)), parent(i), on_min_level(parent(i)))
        } else {
            risen(s, i, on_min_level(i))
        }
    } else {
        s
    }
}

/// Exchanging `i` with a grandparent that fails to bound it moves the
/// disorder two levels up.
proof fn lemma_rise_step<U: PartialOrd>(s: Seq<U>, i: int, low: bool)
    requires
        total_order::<U>(),
        3 <= i < s.len(),
        on_min_level(i) == low,
        ordered_except_above(s, i, low),
        !bounds(s[grandparent(i)], s[i], low),
    ensures
        ordered_except_above(swapped(s, i, grandparent(i)), grandparent(i), low),
{
    lemma_comparisons::<U>();
    lemma_grandparent(i);
    let p = parent(i);
    let g = grandparent(i);
    let r = swapped(s, i, g);
    assert forall|a: int, d: int|
        d < r.len() && #[trigger] is_descendant(d, a) && !(d == g && on_min_level(a) == low)
        implies in_order(r, a, d) by {
        if d == i {
            if a != p && a != g {
                assert(is_descendant(p, a));
                assert(is_descendant(g, a));
            }
        } else if d == g {
            lemma_descendant_transitive(i, g, a);
        } else if a == i {
            lemma_descendant_transitive(d, i, g);
        } else if a == g {
            lemma_bounds_transitive(s[i], s[g], s[d], low);
        }
    }
}

/// Where `i` has no grandparent, or one that bounds it, no disorder is left.
proof fn lemma_rise_end<U: PartialOrd>(s: Seq<U>, i: int, low: bool)
    requires
        total_order::<U>(),
        0 <= i < s.len(),
        on_min_level(i) == low,
        ordered_except_above(s, i, low),
        i < 3 || bounds(s[grandparent(i)], s[i], low),
    ensures
        min_max_ordered(s),
{
    assert forall|a: int, d: int| d < s.len() && #[trigger] is_descendant(d, a) implies in_order(
        s,
        a,
        d,
    ) by {
        if d == i && on_min_level(a) == low {
            lemma_parent(i);
            if i < 3 {
                assert(!is_descendant(0, a));
            } else {
                lemma_grandparent(i);
                let g = grandparent(i);
                assert(is_descendant(parent(i), a));
                if a != g {
                    assert(is_descendant(g, a));
                    lemma_bounds_transitive(s[a], s[g], s[i], low);
                }
            }
        }
    }
}

/// A last value that its parent fails to bound changes places with the
/// parent; the disorder is then between that value and the ancestors on
/// the levels of the parent's kind.
proof fn lemma_enter_above<U: PartialOrd>(s: Seq<U>, low: bool)
    requires
        total_order::<U>(),
        s.len() >= 2,
        min_max_ordered(s.drop_last()),
        on_min_level(parent(s.len() - 1)) == low,
        !bounds(s[parent(s.len() - 1)], s.last(), low),
    ensures
        ordered_except_above(
            swapped(s, s.len() - 1, parent(s.len() - 1)),
            parent(s.len() - 1),
            low,
        ),
{
    lemma_comparisons::<U>();
    let i = s.len() - 1;
    let p = parent(i);
    let r = swapped(s, i, p);
    lemma_parent(i);
    assert forall|a: int, d: int|
        d < r.len() && #[trigger] is_descendant(d, a) && !(d == p && on_min_level(a) == low)
        implies in_order(r, a, d) by {
        if d == i {
            if a != p {
                assert(is_descendant(p, a));
            }
        } else if d == p {
            lemma_bounds_transitive(s[a], s[p], s[i], !low);
        } else if a == p {
            lemma_bounds_transitive(s[i], s[p], s[d], low);
        }
    }
}

/// A last value that its parent bounds may only be out of order with the
/// ancestors on the levels of its own kind.
proof fn lemma_enter_level<U: PartialOrd>(s: Seq<U>, low: bool)
    requires
        total_order::<U>(),
        s.len() >= 2,
        min_max_ordered(s.drop_last()),
        on_min_level(parent(s.len() - 1)) == low,
        bounds(s[parent(s.len() - 1)], s.last(), low),
    ensures
        ordered_except_above(s, s.len() - 1, !low),
{
    let i = s.len() - 1;
    let p = parent(i);
    lemma_parent(i);
    assert forall|a: int, d: int|
        d < s.len() && #[trigger] is_descendant(d, a) && !(d == i && on_min_level(a) == !low)
        implies in_order(s, a, d) by {
        if d == i && a != p {
            assert(is_descendant(p, a));
            lemma_bounds_transitive(s[a], s[p], s[i], low);
        }
    }
}

/// Rising keeps the contents, and restores the order where only the
/// ancestors of `i` on the levels of its own kind failed to bound it.
pub proof fn lemma_risen<U: PartialOrd>(s: Seq<U>, i: int, low: bool)
    requires
        total_order::<U>(),
        0 <= i < s.len(),
    ensures
        risen(s, i, low).len() == s.len(),
        risen(s, i, low).to_multiset() == s.to_multiset(),
        on_min_level(i) == low && ordered_except_above(s, i, low) ==> min_max_ordered(
            risen(s, i, low),
        ),
    decreases i,
{
    lemma_comparisons::<U>();
    let restorable = on_min_level(i) == low && ordered_except_above(s, i, low);
    if 3 <= i && beyond(s[i], s[grandparent(i)], low) {
        let g = grandparent(i);
        lemma_grandparent(i);
        lemma_swapped_keeps_contents(s, i, g);
        if restorable {
            lemma_rise_step(s, i, low);
        }
        lemma_risen(swapped(s, i, g), g, low);
    } else if restorable {
        lemma_rise_end(s, i, low);
    }
}

/// Pushing up keeps the contents, and restores the order where only the
/// last value was out of order.
pub proof fn lemma_pushed_up<U: PartialOrd>(s: Seq<U>, i: int)
    requires
        total_order::<U>(),
        0 <= i < s.len(),
    ensures
        pushed_up(s, i).len() == s.len(),
        pushed_up(s, i).to_multiset() == s.to_multiset(),
        i == s.len() - 1 && min_max_ordered(s.drop_last()) ==> min_max_ordered(pushed_up(s, i)),
{
    lemma_comparisons::<U>();
    let restorable = i == s.len() - 1 && min_max_ordered(s.drop_last());
    if i > 0 {
        let p = parent(i);
        let low = on_min_level(p);
        lemma_parent(i);
        if beyond(s[i], s[p], low) {
            lemma_swapped_keeps_contents(s, i, p);
            if restorable {
                lemma_enter_above(s, low);
            }
            lemma_risen(swapped(s, i, p), p, low);
        } else {
            if restorable {
                lemma_enter_level(s, low);
            }
            lemma_risen(s, i, !low);
        }
    }
}

/// Moves the value at `i` up over its grandparents while it is strictly
/// smaller than the next one.
pub(crate) fn push_up_min<U: PartialOrd + Copy>(heap: &mut Heap<MaxMinHeap, U>, i: usize)
    requires
        total_order::<U>(),
        i < old(heap)@.len(),
    ensures
        final(heap)@ == risen(old(heap)@, i as int, true),
        final(heap)@.len() == old(heap)@.len(),
        final(heap)@.to_multiset() == old(heap)@.to_multiset(),
        on_min_level(i as int) && ordered_except_above(old(heap)@, i as int, true)
            ==> min_max_ordered(final(heap)@),
{
    proof {
        lemma_risen(heap@, i as int, true);
    }
    let mut node = i;
    loop
        invariant_except_break
            risen(heap@, node as int, true) == risen(old(heap)@, i as int, true),
        invariant
            total_order::<U>(),
            node < heap@.len(),
        ensures
            heap@ == risen(old(heap)@, i as int, true),
        decreases node,
    {
        proof {
            lemma_comparisons::<U>();
        }
        match get_grandparent(node) {
            Some(grandparent) => {
                if heap.get(node) < heap.get(grandparent) {
                    heap.exchange(node, grandparent);
                    node = grandparent;
                } else {
                    break ;
                }
            },
            None => {
                break ;
            },
        }
    }
}

/// Moves the value at `i` up over its grandparents while it is strictly
/// larger than the next one.
pub(crate) fn push_up_max<U: PartialOrd + Copy>(heap: &mut Heap<MaxMinHeap, U>, i: usize)
    requires
        total_order::<U>(),
        i < old(heap)@.len(),
    ensures
        final(heap)@ == risen(old(heap)@, i as int, false),
        final(heap)@.len() == old(heap)@.len(),
        final(heap)@.to_multiset() == old(heap)@.to_multiset(),
        !on_min_level(i as int) && ordered_except_above(old(heap)@, i as int, false)
            ==> min_max_ordered(final(heap)@),
{
    proof {
        lemma_risen(heap@, i as int, false);
    }
    let mut node = i;
    loop
        invariant_except_break
            risen(heap@, node as int, false) == risen(old(heap)@, i as int, false),
        invariant
            total_order::<U>(),
            node < heap@.len(),
        ensures
            heap@ == risen(old(heap)@, i as int, false),
        decreases node,
    {
        proof {
            lemma_comparisons::<U>();
        }
        match get_grandparent(node) {
            Some(grandparent) => {
                if heap.get(node) > heap.get(grandparent) {
                    heap.exchange(node, grandparent);
                    node = grandparent;
                } else {
                    break ;
                }
            },
            None => {
                break ;
            },
        }
    }
}

/// Restores the order after a value was appended at `i`: where its parent
/// fails to bound it the two change places, and the value then rises over
/// the grandparents on the side it has come to.
pub(crate) fn push_up<U: PartialOrd + Copy>(heap: &mut Heap<MaxMinHeap, U>, i: usize)
    requires
        total_order::<U>(),
        i < old(heap)@.len(),
    ensures
        final(heap)@ == pushed_up(old(heap)@, i as int),
        final(heap)@.len() == old(heap)@.len(),
        final(heap)@.to_multiset() == old(heap)@.to_multiset(),
        i == old(heap)@.len() - 1 && min_max_ordered(old(heap)@.drop_last()) ==> min_max_ordered(
            final(heap)@,
        ),
{
    proof {
        lemma_comparisons::<U>();
        lemma_pushed_up(heap@, i as int);
        heap.lemma_len_fits();
    }
    if i != 0 {
        let parent = get_parent(i);
        proof {
            lemma_parent(i as int);
        }
        if get_level(i) % 2 != 0 {
            if heap.get(i) < heap.get(parent) {
                heap.exchange(i, parent);
                push_up_min(heap, parent);
            } else {
                push_up_max(heap, i);
            }
        } else if heap.get(i) > heap.get(parent) {
            heap.exchange(i, parent);
            push_up_max(heap, parent);
        } else {
            push_up_min(heap, i);
        }
    }
}

} // verus!
