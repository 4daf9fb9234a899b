//! What an insertion and a removal do to the layout of a heap of each
//! variant, and what that means for its contents and its order.

use super::max_heap::{lemma_root_is_greatest, lemma_sifted_up, max_heap_ordered, sifted_up};
use super::min_max::rising::{lemma_pushed_up, pushed_up};
use super::min_max::sinking::{lemma_sunk, sink_misplaces, sunk};
use super::min_max::{
    in_order, lemma_min_max_extremes, lemma_vacate, max_index, min_max_ordered,
};
use super::{binary, fourary, Variant};
use crate::layout::{
    lemma_greatest_of_layout, lemma_least_of_layout, lemma_without_removes, without,
};
use crate::order::{is_greatest, is_least, le, lemma_comparisons, total_order};
use crate::tree::{lemma_first_levels, lemma_parent, on_min_level};
use vstd::prelude::*;

verus! {

/// The heap property of a layout of variant `variant`.
pub open spec fn heap_property<U: PartialOrd>(variant: Variant, s: Seq<U>) -> bool {
    match variant {
        Variant::Binary => max_heap_ordered(s, 2),
        Variant::Quaternary => max_heap_ordered(s, 4),
        Variant::MinMax => min_max_ordered(s),
    }
}

/// Where a layout of variant `variant` keeps its largest element if it has
/// the heap property: at the root of a max-heap, and in a min-max heap where
/// [`max_index`] says.
pub open spec fn top_index<U: PartialOrd>(variant: Variant, s: Seq<U>) -> int {
    match variant {
        Variant::MinMax => max_index(s),
        _ => 0,
    }
}

/// The layout after `value` was inserted into a heap with layout `s`: it is
/// appended and then moved up.
pub open spec fn after_insert<U: PartialOrd>(variant: Variant, s: Seq<U>, value: U) -> Seq<U> {
    match variant {
        Variant::Binary => sifted_up(s.push(value), 2, s.len() as int),
        Variant::Quaternary => sifted_up(s.push(value), 4, s.len() as int),
        Variant::MinMax => pushed_up(s.push(value), s.len() as int),
    }
}

/// The layout after the element at [`top_index`] was removed from a heap
/// with layout `s`: the last element takes its place and is then moved down.
/// An empty layout stays as it is.
pub open spec fn after_pop<U: PartialOrd>(variant: Variant, s: Seq<U>) -> Seq<U> {
    if s.len() == 0 {
        s
    } else {
        match variant {
            Variant::Binary => binary::sifted_down(without(s, 0), 0),
            Variant::Quaternary => fourary::sifted_down(without(s, 0), 0),
            Variant::MinMax => sunk(
                without(s, max_index(s)),
                max_index(s),
                on_min_level(max_index(s)),
            ),
        }
    }
}

/// Whether the removal of the top leaves the heap property of `s` in place.
/// In a max-heap it always does. In a min-max heap the sifting that follows
/// the removal ends with one exchange that does not look at the parent of
/// the place it fills: the order is kept unless that parent fails to bound
/// the value that has come under it.
pub open spec fn pop_keeps<U: PartialOrd>(variant: Variant, s: Seq<U>) -> bool {
    match variant {
        Variant::MinMax => s.len() <= 1 || !sink_misplaces(
            without(s, max_index(s)),
            max_index(s),
            false,
        ),
        _ => true,
    }
}

/// An insertion adds its argument to the contents and keeps the heap property.
pub proof fn lemma_after_insert<U: PartialOrd>(variant: Variant, s: Seq<U>, value: U)
    requires
        total_order::<U>(),
    ensures
        after_insert(variant, s, value).len() == s.len() + 1,
        after_insert(variant, s, value).to_multiset() == s.to_multiset().insert(value),
        heap_property(variant, s) ==> heap_property(variant, after_insert(variant, s, value)),
{
    let t = s.push(value);
    let last = s.len() as int;
    vstd::seq_lib::to_multiset_build(s, value);
    assert(t.drop_last() =~= s);
    match variant {
        Variant::Binary => {
            lemma_sifted_up(t, 2, last);
        },
        Variant::Quaternary => {
            lemma_sifted_up(t, 4, last);
        },
        Variant::MinMax => {
            lemma_pushed_up(t, last);
        },
    }
}

/// A removal takes the element at [`top_index`] out of the contents: of an
/// ordered heap a greatest element. It keeps the heap property exactly where
/// [`pop_keeps`] says.
pub proof fn lemma_after_pop<U: PartialOrd>(variant: Variant, s: Seq<U>)
    requires
        total_order::<U>(),
        s.len() > 0,
    ensures
        0 <= top_index(variant, s) < s.len(),
        after_pop(variant, s).len() == s.len() - 1,
        s.to_multiset().contains(s[top_index(variant, s)]),
        after_pop(variant, s).to_multiset() == s.to_multiset().remove(s[top_index(variant, s)]),
        heap_property(variant, s) ==> is_greatest(s.to_multiset(), s[top_index(variant, s)]),
        heap_property(variant, s) ==> (heap_property(variant, after_pop(variant, s)) <==> pop_keeps(
            variant,
            s,
        )),
{
    let j = top_index(variant, s);
    lemma_without_removes(s, j);
    match variant {
        Variant::Binary => {
            binary::lemma_sifted_down(without(s, 0), 0);
            if max_heap_ordered(s, 2) {
                assert forall|k: int| 0 <= k < s.len() implies le(#[trigger] s[k], s[0]) by {
                    lemma_root_is_greatest(s, 2, k);
                }
            }
        },
        Variant::Quaternary => {
            fourary::lemma_sifted_down(without(s, 0), 0);
            if max_heap_ordered(s, 4) {
                assert forall|k: int| 0 <= k < s.len() implies le(#[trigger] s[k], s[0]) by {
                    lemma_root_is_greatest(s, 4, k);
                }
            }
        },
        Variant::MinMax => {
            lemma_first_levels();
            lemma_sunk(without(s, j), j, on_min_level(j));
            if min_max_ordered(s) {
                lemma_min_max_extremes(s);
                lemma_vacate(s, j);
            }
        },
    }
    if heap_property(variant, s) {
        lemma_greatest_of_layout(s, j);
    }
}

/// The layout after the root was removed from a min-max heap with layout
/// `s`: the last element takes its place and is then moved down. An empty
/// layout stays as it is.
pub open spec fn after_pop_min<U: PartialOrd>(s: Seq<U>) -> Seq<U> {
    if s.len() == 0 {
        s
    } else {
        sunk(without(s, 0), 0, true)
    }
}

/// Whether the removal of the root leaves the heap property of a min-max
/// layout `s` in place: it does unless the sifting that follows the removal
/// ends by leaving a value under a parent that fails to bound it.
pub open spec fn pop_min_keeps<U: PartialOrd>(s: Seq<U>) -> bool {
    s.len() <= 1 || !sink_misplaces(without(s, 0), 0, true)
}

/// A removal of the root takes it out of the contents: of an ordered min-max
/// heap a least element. It keeps the heap property exactly where
/// [`pop_min_keeps`] says.
pub proof fn lemma_after_pop_min<U: PartialOrd>(s: Seq<U>)
    requires
        total_order::<U>(),
        s.len() > 0,
    ensures
        after_pop_min(s).len() == s.len() - 1,
        s.to_multiset().contains(s[0]),
        after_pop_min(s).to_multiset() == s.to_multiset().remove(s[0]),
        min_max_ordered(s) ==> is_least(s.to_multiset(), s[0]),
        min_max_ordered(s) ==> (min_max_ordered(after_pop_min(s)) <==> pop_min_keeps(s)),
{
    lemma_without_removes(s, 0);
    lemma_first_levels();
    lemma_sunk(without(s, 0), 0, true);
    if min_max_ordered(s) {
        lemma_min_max_extremes(s);
        lemma_least_of_layout(s, 0);
        lemma_vacate(s, 0);
    }
}

/// A min-max heap of fewer than ten elements does not lose its order to the
/// removal of the top: what fills the vacated place comes from under the
/// parent that the last exchange would have to look at.
pub proof fn lemma_small_heap_keeps_order<U: PartialOrd>(s: Seq<U>)
    requires
        total_order::<U>(),
        min_max_ordered(s),
        s.len() < 10,
    ensures
        pop_keeps(Variant::MinMax, s),
{
    lemma_comparisons::<U>();
    if s.len() == 9 && max_index(s) == 1 {
        lemma_parent(8);
        lemma_parent(3);
        lemma_parent(1);
        assert(in_order(s, 3, 8));
    }
}

/// A min-max heap of fewer than six elements does not lose its order to the
/// removal of the root.
pub proof fn lemma_small_heap_keeps_order_from_min<U: PartialOrd>(s: Seq<U>)
    requires
        total_order::<U>(),
        min_max_ordered(s),
        s.len() < 6,
    ensures
        pop_min_keeps(s),
{
    lemma_comparisons::<U>();
    if s.len() == 5 {
        lemma_parent(4);
        lemma_parent(1);
        assert(in_order(s, 1, 4));
    }
}

} // verus!
