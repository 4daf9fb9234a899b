//! Sifting in the binary max-heap: the children of `i` are `2i + 1` and `2i + 2`.

use super::max_heap::{
    lemma_lower, lemma_settled, lemma_sifted_up, max_heap_ordered, ordered_except_above,
    ordered_except_below, sifted_up,
};
use super::{BinaryHeap, Heap};
use crate::layout::{lemma_swapped_keeps_contents, swapped};
use crate::order::{gt, le, lemma_comparisons, lemma_le_transitive, total_order};
use vstd::prelude::*;

verus! {

/// The child of `i` that holds the larger value: the right one only if it is
/// strictly larger than the left.
pub open spec fn larger_child<U: PartialOrd>(s: Seq<U>, i: int) -> int {
    if 2 * i + 2 < s.len() && gt(s[2 * i + 2], s[2 * i + 1]) {
        2 * i + 2
    } else {
        2 * i + 1
    }
}

/// The layout after the value at `i` has moved down for as long as its
/// larger child was strictly larger.
pub open spec fn sifted_down<U: PartialOrd>(s: Seq<U>, i: int) -> Seq<U>
    decreases s.len() - i,
{
    if 0 <= i && 2 * i + 1 < s.len() && gt(s[larger_child(s, i)], s[i]) {
        sifted_down(swapped(s, i, larger_child(s, i)), larger_child(s, i))
    } else {
        s
    }
}

/// Sifting down keeps the contents, and restores the order where only the
/// children of `i` were out of order.
pub proof fn lemma_sifted_down<U: PartialOrd>(s: Seq<U>, i: int)
    requires
        total_order::<U>(),
        0 <= i,
    ensures
        sifted_down(s, i).len() == s.len(),
        sifted_down(s, i).to_multiset() == s.to_multiset(),
        ordered_except_below(s, 2, i) ==> max_heap_ordered(sifted_down(s, i), 2),
    decreases s.len() - i,
{
    lemma_comparisons::<U>();
    let c = larger_child(s, i);
    if 2 * i + 1 < s.len() && gt(s[c], s[i]) {
        lemma_swapped_keeps_contents(s, i, c);
        if ordered_except_below(s, 2, i) {
            lemma_lower(s, 2, i, c);
        }
        lemma_sifted_down(swapped(s, i, c), c);
    } else if ordered_except_below(s, 2, i) {
        assert forall|k: int| 0 < k < s.len() && (k - 1) / 2 == i implies le(
            #[trigger] s[k],
            s[i],
        ) by {
            lemma_le_transitive(s[k], s[c], s[i]);
        }
        lemma_settled(s, 2, i);
    }
}

/// Moves the value at `i` up while it is strictly larger than the value above it.
pub(crate) fn heapify_up<U: PartialOrd + Copy>(heap: &mut Heap<BinaryHeap, U>, i: usize)
    requires
        total_order::<U>(),
        i < old(heap)@.len(),
    ensures
        final(heap)@ == sifted_up(old(heap)@, 2, i as int),
        final(heap)@.len() == old(heap)@.len(),
        final(heap)@.to_multiset() == old(heap)@.to_multiset(),
        ordered_except_above(old(heap)@, 2, i as int) ==> max_heap_ordered(final(heap)@, 2),
{
    proof {
        lemma_sifted_up(heap@, 2, i as int);
    }
    let mut cur_elem = i;
    while cur_elem != 0
        invariant_except_break
            sifted_up(heap@, 2, cur_elem as int) == sifted_up(old(heap)@, 2, i as int),
        invariant
            total_order::<U>(),
            cur_elem < heap@.len(),
        ensures
            heap@ == sifted_up(old(heap)@, 2, i as int),
        decreases cur_elem,
    {
        proof {
            lemma_comparisons::<U>();
        }
        let parent = (cur_elem - 1) / 2;
        if heap.get(cur_elem) > heap.get(parent) {
            heap.exchange(cur_elem, parent);
            cur_elem = parent;
        } else {
            break ;
        }
    }
}

/// Moves the value at `i` down while one of its children is strictly larger,
/// each time to the place of the larger child, the left one on a tie.
pub(crate) fn heapify_down<U: PartialOrd + Copy>(heap: &mut Heap<BinaryHeap, U>, i: usize)
    requires
        total_order::<U>(),
    ensures
        final(heap)@ == sifted_down(old(heap)@, i as int),
        final(heap)@.len() == old(heap)@.len(),
        final(heap)@.to_multiset() == old(heap)@.to_multiset(),
        ordered_except_below(old(heap)@, 2, i as int) ==> max_heap_ordered(final(heap)@, 2),
{
    proof {
        lemma_sifted_down(heap@, i as int);
    }
    let len = heap.len();
    let mut node = i;
    while node < len / 2
        invariant_except_break
            sifted_down(heap@, node as int) == sifted_down(old(heap)@, i as int),
        invariant
            total_order::<U>(),
            len == heap@.len(),
        ensures
            heap@ == sifted_down(old(heap)@, i as int),
        decreases len - node,
    {
        proof {
            lemma_comparisons::<U>();
        }
        let left_child = 2 * node + 1;
        let right_child = left_child + 1;
        let mut largest = left_child;
        if right_child < len && heap.get(right_child) > heap.get(left_child) {
            largest = right_child;
        }
        if heap.get(largest) > heap.get(node) {
            heap.exchange(node, largest);
            node = largest;
        } else {
            break ;
        }
    }
}

} // verus!
