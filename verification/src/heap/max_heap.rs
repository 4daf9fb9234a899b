//! The max-heap property of a tree with a fixed number of children per node,
//! and how one exchange along a path moves a single disorder up or down.

use crate::layout::{lemma_swapped_keeps_contents, swapped};
use crate::order::{gt, le, lemma_comparisons, lemma_le_transitive, total_order};
use vstd::prelude::*;

verus! {

/// The index above `c` in a tree whose nodes have `arity` children each.
pub open spec fn above(c: int, arity: int) -> int {
    (c - 1) / arity
}

/// The max-heap property: no node is ordered after the node above it.
pub open spec fn max_heap_ordered<U: PartialOrd>(s: Seq<U>, arity: int) -> bool {
    forall|c: int| 0 < c < s.len() ==> le(#[trigger] s[c], s[above(c, arity)])
}

/// The max-heap property but for the place of `i` under the node above it:
/// the value at `i` may be ordered after that node, which still bounds the
/// children of `i`.
pub open spec fn ordered_except_above<U: PartialOrd>(s: Seq<U>, arity: int, i: int) -> bool {
    &&& forall|c: int| 0 < c < s.len() && c != i ==> le(#[trigger] s[c], s[above(c, arity)])
    &&& forall|c: int|
        0 < c < s.len() && above(c, arity) == i && i > 0 ==> le(
            #[trigger] s[c],
            s[above(i, arity)],
        )
}

/// The max-heap property but for the children of `i`: they may be ordered
/// after the value at `i`, and are bounded by the node above `i`.
pub open spec fn ordered_except_below<U: PartialOrd>(s: Seq<U>, arity: int, i: int) -> bool {
    &&& forall|c: int|
        0 < c < s.len() && above(c, arity) != i ==> le(#[trigger] s[c], s[above(c, arity)])
    &&& forall|c: int|
        0 < c < s.len() && above(c, arity) == i && i > 0 ==> le(
            #[trigger] s[c],
            s[above(i, arity)],
        )
}

/// The layout after the value at `i` has moved up for as long as it was
/// strictly larger than the value above it.
pub open spec fn sifted_up<U: PartialOrd>(s: Seq<U>, arity: int, i: int) -> Seq<U>
    decreases i,
{
    if arity >= 2 && 0 < i < s.len() && gt(s[i], s[above(i, arity)]) {
        proof {
            lemma_above(i, arity);
        }
        sifted_up(swapped(s, i, above(i, arity)), arity, above(i, arity))
    } else {
        s
    }
}

/// The node above `c` comes before it, and `c` is one of its `arity` children.
pub proof fn lemma_above(c: int, arity: int)
    requires
        c > 0,
        arity >= 2,
    ensures
        0 <= above(c, arity) < c,
        arity * above(c, arity) + 1 <= c <= arity * above(c, arity) + arity,
{
    vstd::arithmetic::div_mod::lemma_fundamental_div_mod(c - 1, arity);
    vstd::arithmetic::div_mod::lemma_mod_bound(c - 1, arity);
    assert(0 <= above(c, arity) < c) by (nonlinear_arith)
        requires
            c - 1 == arity * above(c, arity) + (c - 1) % arity,
            0 <= (c - 1) % arity < arity,
            arity >= 2,
            c > 0,
    ;
}

/// In a max-heap no child is ordered after its parent.
pub proof fn lemma_children_are_bounded<U: PartialOrd>(s: Seq<U>, arity: int, i: int, c: int)
    requires
        arity >= 2,
        max_heap_ordered(s, arity),
        0 <= i,
        arity * i + 1 <= c <= arity * i + arity,
        c < s.len(),
    ensures
        le(s[c], s[i]),
{
    assert(c - 1 == i * arity + (c - 1 - arity * i)) by (nonlinear_arith);
    vstd::arithmetic::div_mod::lemma_fundamental_div_mod_converse(
        c - 1,
        arity,
        i,
        c - 1 - arity * i,
    );
    assert(0 < c) by (nonlinear_arith)
        requires
            arity * i + 1 <= c,
            arity >= 2,
            i >= 0,
    ;
}

/// In a max-heap nothing is ordered after the root.
pub proof fn lemma_root_is_greatest<U: PartialOrd>(s: Seq<U>, arity: int, k: int)
    requires
        total_order::<U>(),
        arity >= 2,
        max_heap_ordered(s, arity),
        0 <= k < s.len(),
    ensures
        le(s[k], s[0]),
    decreases k,
{
    lemma_comparisons::<U>();
    if k > 0 {
        lemma_above(k, arity);
        lemma_root_is_greatest(s, arity, above(k, arity));
        lemma_le_transitive(s[k], s[above(k, arity)], s[0]);
    }
}

/// Exchanging `i` with the smaller node above it moves the disorder one level up.
pub proof fn lemma_lift<U: PartialOrd>(s: Seq<U>, arity: int, i: int)
    requires
        total_order::<U>(),
        arity >= 2,
        0 < i < s.len(),
        ordered_except_above(s, arity, i),
        gt(s[i], s[above(i, arity)]),
    ensures
        ordered_except_above(swapped(s, i, above(i, arity)), arity, above(i, arity)),
{
    lemma_comparisons::<U>();
    lemma_above(i, arity);
    let p = above(i, arity);
    let r = swapped(s, i, p);
    assert forall|c: int| 0 < c < r.len() && c != p implies le(
        #[trigger] r[c],
        r[above(c, arity)],
    ) by {
        lemma_above(c, arity);
        if c != i && above(c, arity) == p {
            lemma_le_transitive(s[c], s[p], s[i]);
        }
    }
    assert forall|c: int| 0 < c < r.len() && above(c, arity) == p && p > 0 implies le(
        #[trigger] r[c],
        r[above(p, arity)],
    ) by {
        lemma_above(c, arity);
        lemma_above(p, arity);
        if c != i {
            lemma_le_transitive(s[c], s[p], s[above(p, arity)]);
        }
    }
}

/// Exchanging `i` with its largest child, where that is larger, moves the
/// disorder one level down.
pub proof fn lemma_lower<U: PartialOrd>(s: Seq<U>, arity: int, i: int, c: int)
    requires
        total_order::<U>(),
        arity >= 2,
        0 <= i,
        0 < c < s.len(),
        above(c, arity) == i,
        ordered_except_below(s, arity, i),
        gt(s[c], s[i]),
        forall|k: int| 0 < k < s.len() && above(k, arity) == i ==> le(#[trigger] s[k], s[c]),
    ensures
        ordered_except_below(swapped(s, i, c), arity, c),
{
    lemma_comparisons::<U>();
    lemma_above(c, arity);
    let r = swapped(s, i, c);
    assert forall|k: int| 0 < k < r.len() && above(k, arity) != c implies le(
        #[trigger] r[k],
        r[above(k, arity)],
    ) by {
        lemma_above(k, arity);
        if k == i {
            lemma_above(i, arity);
        }
    }
    assert forall|k: int| 0 < k < r.len() && above(k, arity) == c && c > 0 implies le(
        #[trigger] r[k],
        r[above(c, arity)],
    ) by {
        lemma_above(k, arity);
    }
}

/// Where no child of `i` is ordered after it, no disorder is left.
pub proof fn lemma_settled<U: PartialOrd>(s: Seq<U>, arity: int, i: int)
    requires
        ordered_except_below(s, arity, i),
        forall|k: int| 0 < k < s.len() && above(k, arity) == i ==> le(#[trigger] s[k], s[i]),
    ensures
        max_heap_ordered(s, arity),
{
}

/// Sifting up keeps the contents, and restores the order where only the
/// place of `i` under the node above it was out of order.
pub proof fn lemma_sifted_up<U: PartialOrd>(s: Seq<U>, arity: int, i: int)
    requires
        total_order::<U>(),
        arity >= 2,
        0 <= i < s.len(),
    ensures
        sifted_up(s, arity, i).len() == s.len(),
        sifted_up(s, arity, i).to_multiset() == s.to_multiset(),
        ordered_except_above(s, arity, i) ==> max_heap_ordered(sifted_up(s, arity, i), arity),
    decreases i,
{
    lemma_comparisons::<U>();
    if 0 < i && gt(s[i], s[above(i, arity)]) {
        let p = above(i, arity);
        lemma_above(i, arity);
        lemma_swapped_keeps_contents(s, i, p);
        if ordered_except_above(s, arity, i) {
            lemma_lift(s, arity, i);
        }
        lemma_sifted_up(swapped(s, i, p), arity, p);
    }
}

} // verus!
