//! The min-max heap: even levels hold minima of their subtrees, odd levels maxima.

use crate::layout::without;
use crate::order::{gt, le, lemma_comparisons, lemma_le_transitive, lt, total_order};
use crate::tree::{
    grandparent, is_descendant, lemma_descendant_through_child, lemma_level_by_leading_zeros,
    lemma_first_levels, lemma_root_is_above, level, on_min_level, parent,
};
use vstd::prelude::*;

pub mod rising;
pub mod sinking;

verus! {

/// `x` bounds `y`: from below where `low`, from above otherwise.
pub open spec fn bounds<U: PartialOrd>(x: U, y: U, low: bool) -> bool {
    if low {
        le(x, y)
    } else {
        le(y, x)
    }
}

/// `x` lies strictly beyond `y`: before it where `low`, after it otherwise.
pub open spec fn beyond<U: PartialOrd>(x: U, y: U, low: bool) -> bool {
    if low {
        lt(x, y)
    } else {
        gt(x, y)
    }
}

/// Whether ancestor `a` and descendant `d` stand in the order that the level
/// of `a` asks for: on a min level `a` bounds `d` from below, on a max level
/// from above.
pub open spec fn in_order<U: PartialOrd>(s: Seq<U>, a: int, d: int) -> bool {
    bounds(s[a], s[d], on_min_level(a))
}

/// The min-max heap property: a node on an even level is at or before each of
/// its descendants, a node on an odd level at or after each of them.
pub open spec fn min_max_ordered<U: PartialOrd>(s: Seq<U>) -> bool {
    forall|a: int, d: int| d < s.len() && #[trigger] is_descendant(d, a) ==> in_order(s, a, d)
}

/// The heap property but for what lies below `i`: the value at `i` may be
/// out of order with its own descendants, and with nothing else.
pub open spec fn ordered_except_below<U: PartialOrd>(s: Seq<U>, i: int) -> bool {
    forall|a: int, d: int|
        d < s.len() && #[trigger] is_descendant(d, a) && a != i ==> in_order(s, a, d)
}

/// Where an ordered min-max layout keeps its largest element: at the larger
/// child of the root, the left one on a tie, or at the root where it is alone.
pub open spec fn max_index<U: PartialOrd>(s: Seq<U>) -> int {
    if s.len() <= 1 {
        0
    } else if s.len() == 2 {
        1
    } else if gt(s[2], s[1]) {
        2
    } else {
        1
    }
}

/// The index one level up.
pub fn get_parent(i: usize) -> (p: usize)
    requires
        i >= 1,
    ensures
        p == parent(i as int),
{
    (i - 1) / 2
}

/// The index two levels up, where there is one.
pub fn get_grandparent(i: usize) -> (g: Option<usize>)
    ensures
        i < 3 <==> g is None,
        g matches Some(k) ==> k == grandparent(i as int),
{
    if i >= 3 {
        Some((i - 3) / 4)
    } else {
        None
    }
}

/// The depth of `i` below the root.
pub fn get_level(i: usize) -> (l: usize)
    requires
        i < usize::MAX,
    ensures
        l == level(i as int),
{
    let x: u64 = (i + 1) as u64;
    proof {
        lemma_level_by_leading_zeros(x);
        vstd::std_specs::bits::axiom_u64_leading_zeros(x);
    }
    63 - x.leading_zeros() as usize
}

/// The index of the first child.
pub fn get_left_child(i: usize) -> (c: usize)
    requires
        2 * i + 1 <= usize::MAX,
    ensures
        c == 2 * i + 1,
{
    2 * i + 1
}

/// The index of the second child.
pub fn get_right_child(i: usize) -> (c: usize)
    requires
        2 * i + 2 <= usize::MAX,
    ensures
        c == 2 * i + 2,
{
    2 * i + 2
}

/// Bounds from one side chain.
pub proof fn lemma_bounds_transitive<U: PartialOrd>(x: U, y: U, z: U, low: bool)
    requires
        total_order::<U>(),
        bounds(x, y, low),
        bounds(y, z, low),
    ensures
        bounds(x, z, low),
{
    if low {
        lemma_le_transitive(x, y, z);
    } else {
        lemma_le_transitive(z, y, x);
    }
}

/// In an ordered min-max layout nothing is ordered before the root, and
/// nothing after the element at [`max_index`].
pub proof fn lemma_min_max_extremes<U: PartialOrd>(s: Seq<U>)
    requires
        total_order::<U>(),
        min_max_ordered(s),
        s.len() > 0,
    ensures
        forall|k: int| 0 <= k < s.len() ==> le(s[0], #[trigger] s[k]),
        forall|k: int| 0 <= k < s.len() ==> le(#[trigger] s[k], s[max_index(s)]),
{
    lemma_comparisons::<U>();
    let j = max_index(s);
    lemma_first_levels();
    assert forall|k: int| 0 <= k < s.len() implies le(s[0], #[trigger] s[k]) by {
        if k > 0 {
            lemma_root_is_above(k);
        }
    }
    assert forall|k: int| 0 <= k < s.len() implies le(#[trigger] s[k], s[j]) by {
        if k >= 3 {
            lemma_root_is_above(k);
            lemma_descendant_through_child(k, 0);
            let c = if is_descendant(k, 1) {
                1int
            } else {
                2int
            };
            lemma_le_transitive(s[k], s[c], s[j]);
        }
    }
}

/// Taking the value at `j` out of an ordered min-max layout, where `j` is
/// the root or one of its children, leaves a disorder only below `j`.
pub proof fn lemma_vacate<U: PartialOrd>(s: Seq<U>, j: int)
    requires
        min_max_ordered(s),
        0 <= j <= 2,
        j < s.len(),
    ensures
        ordered_except_below(without(s, j), j),
{
    let u = without(s, j);
    let last = s.len() - 1;
    assert forall|a: int, d: int|
        d < u.len() && #[trigger] is_descendant(d, a) && a != j implies in_order(u, a, d) by {
        if d == j {
            assert(!is_descendant(0, a));
            lemma_root_is_above(last);
        }
    }
}

} // verus!
