//! Pushing a value down a min-max heap: over its grandchildren while it has
//! all four, then once over a child or grandchild.

use super::{
    beyond, bounds, get_left_child, get_parent, get_right_child, in_order,
    lemma_bounds_transitive, min_max_ordered, ordered_except_below,
};
use crate::heap::{Heap, MaxMinHeap};
use crate::layout::{lemma_swapped_keeps_contents, swapped};
use crate::order::{le, lemma_comparisons, total_order};
use crate::tree::{
    is_descendant, lemma_descendant_through_grandchild, lemma_descendant_transitive,
    lemma_grandparent, lemma_near_descendants, lemma_parent, near_descendants, on_min_level,
    parent,
};
use vstd::prelude::*;

verus! {

/// Whether `i` has two children and four grandchildren among `len` nodes.
pub open spec fn has_all_grandchildren(len: int, i: int) -> bool {
    4 * i + 6 < len
}

/// The grandchild of `i` that holds the smallest value (where `low`) or the
/// largest (otherwise), where `i` has all four: the later of a pair only if
/// it lies strictly beyond the earlier, the left pair's winner only if it
/// lies strictly beyond the right pair's.
pub open spec fn extreme_grandchild<U: PartialOrd>(s: Seq<U>, i: int, low: bool) -> int {
    let first = 4 * i + 3;
    let left = if beyond(s[first + 1], s[first], low) {
        first + 1
    } else {
        first
    };
    let right = if beyond(s[first + 3], s[first + 2], low) {
        first + 3
    } else {
        first + 2
    };
    if beyond(s[left], s[right], low) {
        left
    } else {
        right
    }
}

/// Whether the heap holds both children and all four grandchildren of `i`.
pub(crate) fn has_two_children_and_four_grandchildren<U>(
    heap: &Heap<MaxMinHeap, U>,
    i: usize,
) -> (all: bool)
    ensures
        all == has_all_grandchildren(heap@.len() as int, i as int),
{
    let len = heap.len();
    len > 6 && i <= (len - 7) / 4
}

/// Finds the largest of the four grandchildren of `m`: the two of each pair
/// compete first, then the winners.
pub(crate) fn index_of_larger_child_or_grand_child<U: PartialOrd + Copy>(
    heap: &Heap<MaxMinHeap, U>,
    m: usize,
) -> (largest: usize)
    requires
        total_order::<U>(),
        has_all_grandchildren(heap@.len() as int, m as int),
    ensures
        largest == extreme_grandchild(heap@, m as int, false),
        4 * m + 3 <= largest <= 4 * m + 6,
        forall|g: int|
            4 * m + 3 <= g <= 4 * m + 6 ==> le(#[trigger] heap@[g], heap@[largest as int]),
{
    proof {
        lemma_comparisons::<U>();
        lemma_extreme_grandchild(heap@, m as int, false);
    }
    let len = heap.len();
    let start_idx_grand_children = 4 * m + 3;
    let larger_left_grandchildren = if heap.get(start_idx_grand_children + 1) > heap.get(
        start_idx_grand_children,
    ) {
        start_idx_grand_children + 1
    } else {
        start_idx_grand_children
    };
    let larger_right_grandchildren = if heap.get(start_idx_grand_children + 3) > heap.get(
        start_idx_grand_children + 2,
    ) {
        start_idx_grand_children + 3
    } else {
        start_idx_grand_children + 2
    };
    if heap.get(larger_left_grandchildren) > heap.get(larger_right_grandchildren) {
        larger_left_grandchildren
    } else {
        larger_right_grandchildren
    }
}

/// Finds the smallest of the four grandchildren of `m`: the two of each
/// pair compete first, then the winners.
pub(crate) fn index_of_smaller_child_or_grand_child<U: PartialOrd + Copy>(
    heap: &Heap<MaxMinHeap, U>,
    m: usize,
) -> (smallest: usize)
    requires
        total_order::<U>(),
        has_all_grandchildren(heap@.len() as int, m as int),
    ensures
        smallest == extreme_grandchild(heap@, m as int, true),
        4 * m + 3 <= smallest <= 4 * m + 6,
        forall|g: int|
            4 * m + 3 <= g <= 4 * m + 6 ==> le(heap@[smallest as int], #[trigger] heap@[g]),
{
    proof {
        lemma_comparisons::<U>();
        lemma_extreme_grandchild(heap@, m as int, true);
    }
    let len = heap.len();
    let start_idx_grand_children = 4 * m + 3;
    let smaller_left_grandchildren = if heap.get(start_idx_grand_children + 1) < heap.get(
        start_idx_grand_children,
    ) {
        start_idx_grand_children + 1
    } else {
        start_idx_grand_children
    };
    let smaller_right_grandchildren = if heap.get(start_idx_grand_children + 3) < heap.get(
        start_idx_grand_children + 2,
    ) {
        start_idx_grand_children + 3
    } else {
        start_idx_grand_children + 2
    };
    if heap.get(smaller_left_grandchildren) < heap.get(smaller_right_grandchildren) {
        smaller_left_grandchildren
    } else {
        smaller_right_grandchildren
    }
}

/// Counts the children and grandchildren of `i` that the heap holds.
pub(crate) fn get_number_of_descendants<U>(heap: &Heap<MaxMinHeap, U>, i: usize) -> (n:
    usize)
    ensures
        n == near_descendants(heap@.len() as int, i as int),
{
    let heap_len = heap.len();
    if i >= heap_len / 2 {
        return 0;
    }
    let left_child = get_left_child(i);
    if heap_len - left_child <= 2 {
        return heap_len - left_child;
    }
    if left_child >= heap_len / 2 {
        return 2;
    }
    let grandchildren = heap_len - get_left_child(left_child);
    if grandchildren >= 4 {
        6
    } else {
        2 + grandchildren
    }
}

/// One round of sinking at `i`: the value at `i` changes places with the
/// extreme grandchild, and then with that grandchild's parent where it lies
/// strictly beyond the parent on the other side.
pub open spec fn sink_round<U: PartialOrd>(s: Seq<U>, i: int, low: bool) -> Seq<U> {
    let m = extreme_grandchild(s, i, low);
    let t = swapped(s, i, m);
    if beyond(t[m], t[parent(m)], !low) {
        swapped(t, m, parent(m))
    } else {
        t
    }
}

/// Among the children and grandchildren of a node `i` that lacks a
/// grandchild, the one that sinking compares the value at `i` with; `i`
/// itself where `i` has no child. A child that has a child of its own does
/// not compete, and a later candidate wins only if it lies strictly beyond
/// the earlier ones.
pub open spec fn last_pick<U: PartialOrd>(s: Seq<U>, i: int, low: bool) -> int {
    let n = near_descendants(s.len() as int, i);
    let left = 2 * i + 1;
    let right = 2 * i + 2;
    let first = 4 * i + 3;
    if n <= 0 {
        i
    } else if n == 1 {
        left
    } else if n == 2 {
        if beyond(s[right], s[left], low) {
            right
        } else {
            left
        }
    } else if n == 3 {
        if beyond(s[right], s[first], low) {
            right
        } else {
            first
        }
    } else {
        let pair = if beyond(s[first + 1], s[first], low) {
            first + 1
        } else {
            first
        };
        let third = if n == 4 {
            right
        } else {
            first + 2
        };
        if beyond(s[third], s[pair], low) {
            third
        } else {
            pair
        }
    }
}

/// The last step of sinking at a node `i` that lacks a grandchild: one
/// exchange with [`last_pick`] where that lies strictly beyond the value at `i`.
pub open spec fn sink_last<U: PartialOrd>(s: Seq<U>, i: int, low: bool) -> Seq<U> {
    let x = last_pick(s, i, low);
    if x != i && beyond(s[x], s[i], low) {
        swapped(s, i, x)
    } else {
        s
    }
}

/// Whether sinking the value at `i` ends by leaving it in a grandchild's
/// place under a parent that fails to bound it. The last step does not look
/// at that parent, so this is when sinking does not restore the order.
pub open spec fn sink_misplaces<U: PartialOrd>(s: Seq<U>, i: int, low: bool) -> bool
    decreases s.len() - i,
{
    if i < 0 {
        false
    } else if has_all_grandchildren(s.len() as int, i) {
        beyond(s[extreme_grandchild(s, i, low)], s[i], low) && sink_misplaces(
            sink_round(s, i, low),
            extreme_grandchild(s, i, low),
            low,
        )
    } else {
        let x = last_pick(s, i, low);
        x >= 4 * i + 3 && beyond(s[x], s[i], low) && beyond(s[i], s[parent(x)], !low)
    }
}

/// The layout after the value at `i` has sunk: by rounds while `i` has all
/// four grandchildren and the extreme one lies strictly beyond the value,
/// and by the last step at a node that lacks a grandchild.
pub open spec fn sunk<U: PartialOrd>(s: Seq<U>, i: int, low: bool) -> Seq<U>
    decreases s.len() - i,
{
    if i < 0 {
        s
    } else if has_all_grandchildren(s.len() as int, i) {
        if beyond(s[extreme_grandchild(s, i, low)], s[i], low) {
            sunk(sink_round(s, i, low), extreme_grandchild(s, i, low), low)
        } else {
            s
        }
    } else {
        sink_last(s, i, low)
    }
}

/// The extreme grandchild is one of the four, and bounds them all.
proof fn lemma_extreme_grandchild<U: PartialOrd>(s: Seq<U>, i: int, low: bool)
    requires
        total_order::<U>(),
        i >= 0,
        has_all_grandchildren(s.len() as int, i),
    ensures
        4 * i + 3 <= extreme_grandchild(s, i, low) <= 4 * i + 6,
        forall|g: int|
            4 * i + 3 <= g <= 4 * i + 6 ==> bounds(
                s[extreme_grandchild(s, i, low)],
                #[trigger] s[g],
                low,
            ),
{
    lemma_comparisons::<U>();
    let f = 4 * i + 3;
    let left = if beyond(s[f + 1], s[f], low) {
        f + 1
    } else {
        f
    };
    let right = if beyond(s[f + 3], s[f + 2], low) {
        f + 3
    } else {
        f + 2
    };
    let w = s[extreme_grandchild(s, i, low)];
    lemma_bounds_transitive(w, s[left], s[f], low);
    lemma_bounds_transitive(w, s[left], s[f + 1], low);
    lemma_bounds_transitive(w, s[right], s[f + 2], low);
    lemma_bounds_transitive(w, s[right], s[f + 3], low);
}

/// What bounds the four grandchildren of `i` bounds all that lies below `i`.
proof fn lemma_bounded_below<U: PartialOrd>(s: Seq<U>, i: int, v: U, low: bool)
    requires
        total_order::<U>(),
        i >= 0,
        has_all_grandchildren(s.len() as int, i),
        on_min_level(i) == low,
        ordered_except_below(s, i),
        forall|g: int| 4 * i + 3 <= g <= 4 * i + 6 ==> bounds(v, #[trigger] s[g], low),
    ensures
        forall|d: int| d < s.len() && #[trigger] is_descendant(d, i) ==> bounds(v, s[d], low),
{
    lemma_near_descendants(i);
    assert forall|d: int| d < s.len() && #[trigger] is_descendant(d, i) implies bounds(
        v,
        s[d],
        low,
    ) by {
        lemma_descendant_through_grandchild(d, i);
        if 2 * i + 1 <= d <= 2 * i + 2 {
            let g = 2 * d + 1;
            lemma_near_descendants(d);
            lemma_parent(d);
            assert(is_descendant(g, d));
            lemma_bounds_transitive(v, s[g], s[d], low);
        } else if d > 4 * i + 6 {
            let g = choose|g: int| 4 * i + 3 <= g <= 4 * i + 6 && #[trigger] is_descendant(d, g);
            lemma_grandparent(g);
            lemma_bounds_transitive(v, s[g], s[d], low);
        }
    }
}

/// A round of sinking moves the disorder two levels down.
proof fn lemma_sink_round<U: PartialOrd>(s: Seq<U>, i: int, low: bool)
    requires
        total_order::<U>(),
        i >= 0,
        has_all_grandchildren(s.len() as int, i),
        on_min_level(i) == low,
        ordered_except_below(s, i),
        beyond(s[extreme_grandchild(s, i, low)], s[i], low),
    ensures
        ordered_except_below(sink_round(s, i, low), extreme_grandchild(s, i, low)),
        on_min_level(extreme_grandchild(s, i, low)) == low,
{
    lemma_comparisons::<U>();
    lemma_extreme_grandchild(s, i, low);
    lemma_near_descendants(i);
    let m = extreme_grandchild(s, i, low);
    let p = parent(m);
    let r = sink_round(s, i, low);
    lemma_grandparent(m);
    let q = s[p];
    lemma_bounded_below(s, i, s[m], low);
    assert forall|a: int, d: int|
        d < r.len() && #[trigger] is_descendant(d, a) && a != m implies in_order(r, a, d) by {
        if a == p {
            if d != m {
                lemma_bounds_transitive(r[p], q, s[d], !low);
            }
        } else if a != i && (d == i || d == p || d == m) {
            assert(is_descendant(i, a)) by {
                if d == m {
                    assert(is_descendant(p, a));
                }
            }
            lemma_descendant_transitive(p, i, a);
            lemma_descendant_transitive(m, i, a);
        }
    }
}

/// Where no grandchild lies beyond the value at `i`, no disorder is left.
proof fn lemma_sink_settled<U: PartialOrd>(s: Seq<U>, i: int, low: bool)
    requires
        total_order::<U>(),
        i >= 0,
        has_all_grandchildren(s.len() as int, i),
        on_min_level(i) == low,
        ordered_except_below(s, i),
        !beyond(s[extreme_grandchild(s, i, low)], s[i], low),
    ensures
        min_max_ordered(s),
{
    lemma_comparisons::<U>();
    lemma_extreme_grandchild(s, i, low);
    let m = extreme_grandchild(s, i, low);
    assert forall|g: int| 4 * i + 3 <= g <= 4 * i + 6 implies bounds(
        s[i],
        #[trigger] s[g],
        low,
    ) by {
        lemma_bounds_transitive(s[i], s[m], s[g], low);
    }
    lemma_bounded_below(s, i, s[i], low);
}

/// The last step restores the order unless it leaves the value that sank
/// under a parent that fails to bound it.
proof fn lemma_sink_last<U: PartialOrd>(s: Seq<U>, i: int, low: bool)
    requires
        total_order::<U>(),
        i >= 0,
        !has_all_grandchildren(s.len() as int, i),
        on_min_level(i) == low,
        ordered_except_below(s, i),
    ensures
        min_max_ordered(sink_last(s, i, low)) <==> !sink_misplaces(s, i, low),
{
    lemma_comparisons::<U>();
    lemma_near_descendants(i);
    let n = near_descendants(s.len() as int, i);
    let x = last_pick(s, i, low);
    let r = sink_last(s, i, low);
    let left = 2 * i + 1;
    let right = 2 * i + 2;
    let first = 4 * i + 3;
    if i >= s.len() {
        return ;
    }
    let w = s[i];
    // The pick bounds every child and grandchild that is present.
    let pair = if beyond(s[first + 1], s[first], low) {
        first + 1
    } else {
        first
    };
    assert forall|g: int| first <= g < s.len() implies bounds(s[x], #[trigger] s[g], low) by {
        if n >= 4 && g <= first + 1 {
            lemma_bounds_transitive(s[x], s[pair], s[g], low);
        }
    }
    assert forall|d: int| d < s.len() && #[trigger] is_descendant(d, i) implies (left <= d <= right
        || first <= d <= first + 2) && bounds(s[x], s[d], low) by {
        lemma_descendant_through_grandchild(d, i);
        if left <= d <= right && 2 * d + 1 < s.len() {
            lemma_near_descendants(d);
            lemma_parent(d);
            assert(is_descendant(2 * d + 1, d));
            lemma_bounds_transitive(s[x], s[2 * d + 1], s[d], low);
        }
    }
    if x != i && beyond(s[x], w, low) {
        let c = parent(x);
        if x >= first {
            lemma_grandparent(x);
        }
        assert forall|a: int, d: int|
            d < r.len() && #[trigger] is_descendant(d, a) && !(x >= first && a == c && d == x)
            implies in_order(r, a, d) by {
            if a == x {
                lemma_descendant_through_grandchild(d, x);
            } else if a != i && d == x {
                assert(is_descendant(i, a)) by {
                    if x >= first {
                        assert(is_descendant(c, a));
                    }
                }
            } else if d == i {
                lemma_descendant_transitive(x, i, a);
            }
        }
    } else {
        assert forall|a: int, d: int|
            d < s.len() && #[trigger] is_descendant(d, a) implies in_order(s, a, d) by {
            if a == i {
                lemma_bounds_transitive(w, s[x], s[d], low);
            }
        }
    }
}

/// Neither a round of sinking nor its last step changes the contents.
proof fn lemma_sinking_keeps_contents<U: PartialOrd>(s: Seq<U>, i: int, low: bool)
    requires
        0 <= i,
    ensures
        has_all_grandchildren(s.len() as int, i) ==> sink_round(s, i, low).len() == s.len()
            && sink_round(s, i, low).to_multiset() == s.to_multiset(),
        sink_last(s, i, low).len() == s.len(),
        sink_last(s, i, low).to_multiset() == s.to_multiset(),
{
    if has_all_grandchildren(s.len() as int, i) {
        let m = extreme_grandchild(s, i, low);
        let t = swapped(s, i, m);
        lemma_swapped_keeps_contents(s, i, m);
        lemma_swapped_keeps_contents(t, m, parent(m));
    }
    let x = last_pick(s, i, low);
    if x != i {
        lemma_swapped_keeps_contents(s, i, x);
    }
}

/// Sinking keeps the contents. Where only what lies below `i` was out of
/// order it restores the order, unless it ends by leaving the value under a
/// parent that fails to bound it.
pub proof fn lemma_sunk<U: PartialOrd>(s: Seq<U>, i: int, low: bool)
    requires
        total_order::<U>(),
        0 <= i,
    ensures
        sunk(s, i, low).len() == s.len(),
        sunk(s, i, low).to_multiset() == s.to_multiset(),
        on_min_level(i) == low && ordered_except_below(s, i) ==> (min_max_ordered(sunk(s, i, low))
            <==> !sink_misplaces(s, i, low)),
    decreases s.len() - i,
{
    lemma_comparisons::<U>();
    lemma_sinking_keeps_contents(s, i, low);
    let restorable = on_min_level(i) == low && ordered_except_below(s, i);
    if has_all_grandchildren(s.len() as int, i) {
        let m = extreme_grandchild(s, i, low);
        if beyond(s[m], s[i], low) {
            if restorable {
                lemma_sink_round(s, i, low);
            }
            lemma_sunk(sink_round(s, i, low), m, low);
        } else if restorable {
            lemma_sink_settled(s, i, low);
        }
    } else if restorable {
        lemma_sink_last(s, i, low);
    }
}

/// Sinks the value at the max-level node `m`: while `m` has all four
/// grandchildren and the largest is strictly larger, the two change places
/// (and the value then with its new parent, where that is larger). The last
/// step, at a node that lacks a grandchild, is one exchange with the largest
/// child or grandchild that competes.
pub(crate) fn push_down_max<U: PartialOrd + Copy>(heap: &mut Heap<MaxMinHeap, U>, m: usize)
    requires
        total_order::<U>(),
    ensures
        final(heap)@ == sunk(old(heap)@, m as int, false),
        final(heap)@.len() == old(heap)@.len(),
        final(heap)@.to_multiset() == old(heap)@.to_multiset(),
        !on_min_level(m as int) && ordered_except_below(old(heap)@, m as int) ==> (min_max_ordered(
            final(heap)@,
        ) <==> !sink_misplaces(old(heap)@, m as int, false)),
{
    proof {
        lemma_sunk(heap@, m as int, false);
    }
    let mut node = m;
    while has_two_children_and_four_grandchildren(heap, node)
        invariant
            total_order::<U>(),
            heap@.len() == old(heap)@.len(),
            sunk(heap@, node as int, false) == sunk(old(heap)@, m as int, false),
        decreases heap@.len() - node,
    {
        let i = node;
        proof {
            lemma_comparisons::<U>();
        }
        node = index_of_larger_child_or_grand_child(heap, i);
        if heap.get(node) > heap.get(i) {
            heap.exchange(i, node);
            let parent = get_parent(node);
            if heap.get(node) < heap.get(parent) {
                heap.exchange(node, parent);
            }
        } else {
            proof {
                lemma_sunk(old(heap)@, m as int, false);
            }
            return ;
        }
    }
    proof {
        lemma_comparisons::<U>();
        heap.lemma_len_fits();
    }
    let number_of_descendants = get_number_of_descendants(heap, node);
    match number_of_descendants {
        0 => (),
        1 => {
            let left_child = get_left_child(node);
            if heap.get(left_child) > heap.get(node) {
                heap.exchange(node, left_child);
            }
        },
        2 => {
            let left_child = get_left_child(node);
            let right_child = get_right_child(node);
            let max_idx = if heap.get(right_child) > heap.get(left_child) {
                right_child
            } else {
                left_child
            };
            if heap.get(max_idx) > heap.get(node) {
                heap.exchange(node, max_idx);
            }
        },
        3 => {
            let right_child = get_right_child(node);
            let left_left_child = 4 * node + 3;
            let mut max_idx = left_left_child;
            if heap.get(right_child) > heap.get(max_idx) {
                max_idx = right_child;
            }
            if heap.get(max_idx) > heap.get(node) {
                heap.exchange(node, max_idx);
            }
        },
        4 => {
            let right_child = get_right_child(node);
            let left_left_child = 4 * node + 3;
            let left_right_child = 4 * node + 4;
            let mut max_idx = left_left_child;
            if heap.get(left_right_child) > heap.get(max_idx) {
                max_idx = left_right_child;
            }
            if heap.get(right_child) > heap.get(max_idx) {
                max_idx = right_child;
            }
            if heap.get(max_idx) > heap.get(node) {
                heap.exchange(node, max_idx);
            }
        },
        5 => {
            let left_left_child = 4 * node + 3;
            let left_right_child = 4 * node + 4;
            let right_left_child = 4 * node + 5;
            let mut max_idx = left_left_child;
            if heap.get(left_right_child) > heap.get(max_idx) {
                max_idx = left_right_child;
            }
            if heap.get(right_left_child) > heap.get(max_idx) {
                max_idx = right_left_child;
            }
            if heap.get(max_idx) > heap.get(node) {
                heap.exchange(node, max_idx);
            }
        },
        _ => vstd::pervasive::unreached(),
    }
}

/// Sinks the value at the min-level node `m`, as [`push_down_max`] does on a
/// max level, with every comparison reversed.
pub(crate) fn push_down_min<U: PartialOrd + Copy>(heap: &mut Heap<MaxMinHeap, U>, m: usize)
    requires
        total_order::<U>(),
    ensures
        final(heap)@ == sunk(old(heap)@, m as int, true),
        final(heap)@.len() == old(heap)@.len(),
        final(heap)@.to_multiset() == old(heap)@.to_multiset(),
        on_min_level(m as int) && ordered_except_below(old(heap)@, m as int) ==> (min_max_ordered(
            final(heap)@,
        ) <==> !sink_misplaces(old(heap)@, m as int, true)),
{
    proof {
        lemma_sunk(heap@, m as int, true);
    }
    let mut node = m;
    while has_two_children_and_four_grandchildren(heap, node)
        invariant
            total_order::<U>(),
            heap@.len() == old(heap)@.len(),
            sunk(heap@, node as int, true) == sunk(old(heap)@, m as int, true),
        decreases heap@.len() - node,
    {
        let i = node;
        proof {
            lemma_comparisons::<U>();
        }
        node = index_of_smaller_child_or_grand_child(heap, i);
        if heap.get(node) < heap.get(i) {
            heap.exchange(i, node);
            let parent = get_parent(node);
            if heap.get(node) > heap.get(parent) {
                heap.exchange(node, parent);
            }
        } else {
            proof {
                lemma_sunk(old(heap)@, m as int, true);
            }
            return ;
        }
    }
    proof {
        lemma_comparisons::<U>();
        heap.lemma_len_fits();
    }
    let number_of_descendants = get_number_of_descendants(heap, node);
    match number_of_descendants {
        0 => (),
        1 => {
            let left_child = get_left_child(node);
            if heap.get(left_child) < heap.get(node) {
                heap.exchange(node, left_child);
            }
        },
        2 => {
            let left_child = get_left_child(node);
            let right_child = get_right_child(node);
            let min_idx = if heap.get(right_child) < heap.get(left_child) {
                right_child
            } else {
                left_child
            };
            if heap.get(min_idx) < heap.get(node) {
                heap.exchange(node, min_idx);
            }
        },
        3 => {
            let right_child = get_right_child(node);
            let left_left_child = 4 * node + 3;
            let mut min_idx = left_left_child;
            if heap.get(right_child) < heap.get(min_idx) {
                min_idx = right_child;
            }
            if heap.get(min_idx) < heap.get(node) {
                heap.exchange(node, min_idx);
            }
        },
        4 => {
            let right_child = get_right_child(node);
            let left_left_child = 4 * node + 3;
            let left_right_child = 4 * node + 4;
            let mut min_idx = left_left_child;
            if heap.get(left_right_child) < heap.get(min_idx) {
                min_idx = left_right_child;
            }
            if heap.get(right_child) < heap.get(min_idx) {
                min_idx = right_child;
            }
            if heap.get(min_idx) < heap.get(node) {
                heap.exchange(node, min_idx);
            }
        },
        5 => {
            let left_left_child = 4 * node + 3;
            let left_right_child = 4 * node + 4;
            let right_left_child = 4 * node + 5;
            let mut min_idx = left_left_child;
            if heap.get(left_right_child) < heap.get(min_idx) {
                min_idx = left_right_child;
            }
            if heap.get(right_left_child) < heap.get(min_idx) {
                min_idx = right_left_child;
            }
            if heap.get(min_idx) < heap.get(node) {
                heap.exchange(node, min_idx);
            }
        },
        _ => vstd::pervasive::unreached(),
    }
}

} // verus!
