//! Sifting in the quaternary max-heap: the children of `i` are `4i + 1` to `4i + 4`.

use super::max_heap::{
    lemma_lower, lemma_settled, lemma_sifted_up, max_heap_ordered, ordered_except_above,
    ordered_except_below, sifted_up,
};
use super::{FouraryHeap, Heap};
use crate::layout::{lemma_swapped_keeps_contents, swapped};
use crate::order::{gt, le, lemma_comparisons, lemma_le_transitive, total_order};
use vstd::prelude::*;

verus! {

/// The child of `i` that holds the largest value, where `i` has a child. The
/// children compete in pairs: the later of a pair wins only if it is strictly
/// larger, and the second pair's winner only if it is strictly larger than
/// the first pair's.
pub open spec fn largest_child<U: PartialOrd>(s: Seq<U>, i: int) -> int {
    let child_1 = 4 * i + 1;
    let first = if child_1 + 1 < s.len() && gt(s[child_1 + 1], s[child_1]) {
        child_1 + 1
    } else {
        child_1
    };
    if child_1 + 2 < s.len() {
        let second = if child_1 + 3 < s.len() && gt(s[child_1 + 3], s[child_1 + 2]) {
            child_1 + 3
        } else {
            child_1 + 2
        };
        if gt(s[second], s[first]) {
            second
        } else {
            first
        }
    } else {
        first
    }
}

/// The layout after the value at `i` has moved down for as long as its
/// largest child was strictly larger.
pub open spec fn sifted_down<U: PartialOrd>(s: Seq<U>, i: int) -> Seq<U>
    decreases s.len() - i,
{
    if 0 <= i && 4 * i + 1 < s.len() && gt(s[largest_child(s, i)], s[i]) {
        sifted_down(swapped(s, i, largest_child(s, i)), largest_child(s, i))
    } else {
        s
    }
}

/// The largest child bounds its siblings.
proof fn lemma_largest_child<U: PartialOrd>(s: Seq<U>, i: int)
    requires
        total_order::<U>(),
        0 <= i,
        4 * i + 1 < s.len(),
    ensures
        4 * i + 1 <= largest_child(s, i) <= 4 * i + 4,
        largest_child(s, i) < s.len(),
        forall|k: int|
            0 < k < s.len() && (k - 1) / 4 == i ==> le(#[trigger] s[k], s[largest_child(s, i)]),
{
    lemma_comparisons::<U>();
    let child_1 = 4 * i + 1;
    let first = if child_1 + 1 < s.len() && gt(s[child_1 + 1], s[child_1]) {
        child_1 + 1
    } else {
        child_1
    };
    let second = if child_1 + 3 < s.len() && gt(s[child_1 + 3], s[child_1 + 2]) {
        child_1 + 3
    } else {
        child_1 + 2
    };
    let c = largest_child(s, i);
    assert forall|k: int| 0 < k < s.len() && (k - 1) / 4 == i implies le(#[trigger] s[k], s[c]) by {
        if k <= child_1 + 1 {
            lemma_le_transitive(s[k], s[first], s[c]);
        } else {
            lemma_le_transitive(s[k], s[second], s[c]);
        }
    }
}

/// Sifting down keeps the contents, and restores the order where only the
/// children of `i` were out of order.
pub proof fn lemma_sifted_down<U: PartialOrd>(s: Seq<U>, i: int)
    requires
        total_order::<U>(),
        0 <= i,
    ensures
        sifted_down(s, i).len() == s.len(),
        sifted_down(s, i).to_multiset() == s.to_multiset(),
        ordered_except_below(s, 4, i) ==> max_heap_ordered(sifted_down(s, i), 4),
    decreases s.len() - i,
{
    lemma_comparisons::<U>();
    let c = largest_child(s, i);
    if 4 * i + 1 < s.len() {
        lemma_largest_child(s, i);
    }
    if 4 * i + 1 < s.len() && gt(s[c], s[i]) {
        lemma_swapped_keeps_contents(s, i, c);
        if ordered_except_below(s, 4, i) {
            lemma_lower(s, 4, i, c);
        }
        lemma_sifted_down(swapped(s, i, c), c);
    } else if ordered_except_below(s, 4, i) {
        assert forall|k: int| 0 < k < s.len() && (k - 1) / 4 == i implies le(
            #[trigger] s[k],
            s[i],
        ) by {
            lemma_le_transitive(s[k], s[c], s[i]);
        }
        lemma_settled(s, 4, i);
    }
}

/// Moves the value at `i` up while it is strictly larger than the value above it.
pub(crate) fn heapify_up<U: PartialOrd + Copy>(heap: &mut Heap<FouraryHeap, U>, i: usize)
    requires
        total_order::<U>(),
        i < old(heap)@.len(),
    ensures
        final(heap)@ == sifted_up(old(heap)@, 4, i as int),
        final(heap)@.len() == old(heap)@.len(),
        final(heap)@.to_multiset() == old(heap)@.to_multiset(),
        ordered_except_above(old(heap)@, 4, i as int) ==> max_heap_ordered(final(heap)@, 4),
{
    proof {
        lemma_sifted_up(heap@, 4, i as int);
    }
    let mut node = i;
    while node != 0
        invariant_except_break
            sifted_up(heap@, 4, node as int) == sifted_up(old(heap)@, 4, i as int),
        invariant
            total_order::<U>(),
            node < heap@.len(),
        ensures
            heap@ == sifted_up(old(heap)@, 4, i as int),
        decreases node,
    {
        proof {
            lemma_comparisons::<U>();
        }
        let parent = (node - 1) / 4;
        if heap.get(node) > heap.get(parent) {
            heap.exchange(node, parent);
            node = parent;
        } else {
            break ;
        }
    }
}

/// Moves the value at `i` down while one of its children is strictly larger,
/// each time to the place of the largest child. Of two children that compare
/// as equal the earlier wins within a pair, and the first pair against the second.
pub(crate) fn heapify_down<U: PartialOrd + Copy>(heap: &mut Heap<FouraryHeap, U>, i: usize)
    requires
        total_order::<U>(),
    ensures
        final(heap)@ == sifted_down(old(heap)@, i as int),
        final(heap)@.len() == old(heap)@.len(),
        final(heap)@.to_multiset() == old(heap)@.to_multiset(),
        ordered_except_below(old(heap)@, 4, i as int) ==> max_heap_ordered(final(heap)@, 4),
{
    let len = heap.len();
    let mut node = i;
    while len > 4 && node <= (len - 5) / 4
        invariant
            total_order::<U>(),
            len == heap@.len(),
            sifted_down(heap@, node as int) == sifted_down(old(heap)@, i as int),
        decreases len - node,
    {
        proof {
            lemma_comparisons::<U>();
        }
        let child_1 = 4 * node + 1;
        let child_2 = child_1 + 1;
        let child_3 = child_1 + 2;
        let child_4 = child_1 + 3;
        let largest_1 = if heap.get(child_2) > heap.get(child_1) {
            child_2
        } else {
            child_1
        };
        let largest_2 = if heap.get(child_4) > heap.get(child_3) {
            child_4
        } else {
            child_3
        };
        let mut largest = largest_1;
        if heap.get(largest_2) > heap.get(largest_1) {
            largest = largest_2;
        }
        if heap.get(largest) > heap.get(node) {
            heap.exchange(node, largest);
            node = largest;
        } else {
            proof {
                lemma_sifted_down(old(heap)@, i as int);
            }
            return ;
        }
    }
    if len >= 2 && node <= (len - 2) / 4 {
        proof {
            lemma_comparisons::<U>();
        }
        let child_1 = 4 * node + 1;
        let child_2 = child_1 + 1;
        let mut largest = child_1;
        if child_2 < len {
            if heap.get(child_2) > heap.get(child_1) {
                largest = child_2;
            }
            let child_3 = child_2 + 1;
            if child_3 < len && heap.get(child_3) > heap.get(largest) {
                largest = child_3;
            }
        }
        if heap.get(largest) > heap.get(node) {
            heap.exchange(node, largest);
            assert(sifted_down(heap@, largest as int) == heap@);
        }
    }
    proof {
        lemma_sifted_down(old(heap)@, i as int);
    }
}

} // verus!
