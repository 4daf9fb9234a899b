//! Index arithmetic of a complete binary tree laid out breadth-first, root at 0.

use vstd::arithmetic::logarithm::log;
use vstd::prelude::*;
use vstd::std_specs::bits::u64_leading_zeros;

verus! {

/// The index above `i`; meaningful for `i >= 1`.
pub open spec fn parent(i: int) -> int {
    (i - 1) / 2
}

/// The index two levels above `i`; meaningful for `i >= 3`.
pub open spec fn grandparent(i: int) -> int {
    (i - 3) / 4
}

/// Depth of `i` below the root: the integer part of the binary logarithm of `i + 1`.
pub open spec fn level(i: int) -> nat
    decreases i,
{
    if i <= 0 {
        0
    } else {
        level(parent(i)) + 1
    }
}

/// Whether `i` lies on an even level, where a min-max heap keeps its minima.
pub open spec fn on_min_level(i: int) -> bool {
    level(i) % 2 == 0
}

/// Whether `a` lies on the path from `d` up to the root, `d` itself excluded.
pub open spec fn is_descendant(d: int, a: int) -> bool
    decreases d,
{
    0 <= a < d && (parent(d) == a || is_descendant(parent(d), a))
}

/// How many of the two children and four grandchildren of `i` lie below `len`.
pub open spec fn near_descendants(len: int, i: int) -> int {
    let children = len - (2 * i + 1);
    let grandchildren = len - (4 * i + 3);
    (if children <= 0 {
        0
    } else if children >= 2 {
        2
    } else {
        children
    }) + (if grandchildren <= 0 {
        0
    } else if grandchildren >= 4 {
        4
    } else {
        grandchildren
    })
}

/// The root lies on a min level and its children on a max level.
pub proof fn lemma_first_levels()
    ensures
        on_min_level(0),
        !on_min_level(1),
        !on_min_level(2),
{
    assert(level(0) == 0);
    assert(level(1) == level(0) + 1);
    assert(level(2) == level(0) + 1);
}

/// How `i` stands to the two nodes above it.
pub proof fn lemma_grandparent(i: int)
    requires
        i >= 3,
    ensures
        parent(parent(i)) == grandparent(i),
        0 <= grandparent(i) < parent(i) < i,
        is_descendant(i, parent(i)),
        is_descendant(parent(i), grandparent(i)),
        is_descendant(i, grandparent(i)),
        on_min_level(grandparent(i)) == on_min_level(i),
        on_min_level(parent(i)) != on_min_level(i),
{
    assert(is_descendant(parent(i), grandparent(i)));
    assert(level(i) == level(parent(i)) + 1);
    assert(level(parent(i)) == level(grandparent(i)) + 1);
}

/// How `i` stands to the node above it.
pub proof fn lemma_parent(i: int)
    requires
        i >= 1,
    ensures
        0 <= parent(i) < i,
        is_descendant(i, parent(i)),
        level(i) == level(parent(i)) + 1,
        on_min_level(parent(i)) != on_min_level(i),
{
}

/// What lies one or two levels below `a`.
pub proof fn lemma_near_descendants(a: int)
    requires
        a >= 0,
    ensures
        forall|d: int|
            2 * a + 1 <= d <= 2 * a + 2 ==> parent(d) == a && #[trigger] is_descendant(d, a),
        forall|d: int|
            4 * a + 3 <= d <= 4 * a + 6 ==> grandparent(d) == a && #[trigger] is_descendant(d, a)
                && is_descendant(d, parent(d)) && 2 * a + 1 <= parent(d) <= 2 * a + 2,
{
    assert forall|d: int| 4 * a + 3 <= d <= 4 * a + 6 implies grandparent(d) == a
        && #[trigger] is_descendant(d, a) && is_descendant(d, parent(d)) && 2 * a + 1 <= parent(d)
        <= 2 * a + 2 by {
        assert(is_descendant(parent(d), a));
    }
}

/// What lies below a descendant of `a` lies below `a`.
pub proof fn lemma_descendant_transitive(d: int, m: int, a: int)
    requires
        is_descendant(d, m),
        is_descendant(m, a),
    ensures
        is_descendant(d, a),
    decreases d,
{
    if parent(d) != m {
        lemma_descendant_transitive(parent(d), m, a);
    }
}

/// A descendant of `a` is a child of `a` or lies below one.
pub proof fn lemma_descendant_through_child(d: int, a: int)
    requires
        is_descendant(d, a),
    ensures
        d == 2 * a + 1 || d == 2 * a + 2 || is_descendant(d, 2 * a + 1) || is_descendant(
            d,
            2 * a + 2,
        ),
    decreases d,
{
    if parent(d) != a {
        lemma_descendant_through_child(parent(d), a);
    }
}

/// A descendant of `a` is a child or grandchild of `a` or lies below a grandchild.
pub proof fn lemma_descendant_through_grandchild(d: int, a: int)
    requires
        is_descendant(d, a),
    ensures
        2 * a + 1 <= d <= 2 * a + 2 || 4 * a + 3 <= d <= 4 * a + 6 || exists|g: int|
            4 * a + 3 <= g <= 4 * a + 6 && #[trigger] is_descendant(d, g),
{
    lemma_descendant_through_child(d, a);
    if is_descendant(d, 2 * a + 1) {
        lemma_descendant_through_child(d, 2 * a + 1);
        assert(d > 4 * a + 4 ==> is_descendant(d, 4 * a + 3) || is_descendant(d, 4 * a + 4));
    } else if is_descendant(d, 2 * a + 2) {
        lemma_descendant_through_child(d, 2 * a + 2);
        assert(d > 4 * a + 6 ==> is_descendant(d, 4 * a + 5) || is_descendant(d, 4 * a + 6));
    }
}

/// Every other node lies below the root.
pub proof fn lemma_root_is_above(d: int)
    requires
        d >= 1,
    ensures
        is_descendant(d, 0),
    decreases d,
{
    if parent(d) != 0 {
        lemma_root_is_above(parent(d));
    }
}

/// The level of `i` is the binary logarithm of `i + 1`, rounded down.
pub proof fn lemma_level_is_logarithm(i: int)
    requires
        i >= 0,
    ensures
        level(i) == log(2, i + 1),
    decreases i,
{
    reveal(log);
    if i > 0 {
        lemma_level_is_logarithm(parent(i));
        assert((i + 1) / 2 == parent(i) + 1);
    }
}

/// The level of `x - 1` from the leading zeros of `x`.
pub proof fn lemma_level_by_leading_zeros(x: u64)
    requires
        x >= 1,
    ensures
        level(x - 1) == 63 - u64_leading_zeros(x),
    decreases x,
{
    reveal(u64_leading_zeros);
    if x == 1 {
        assert(u64_leading_zeros(0) == 64);
        assert(u64_leading_zeros(1) == u64_leading_zeros(0) - 1);
    } else {
        lemma_level_by_leading_zeros(x / 2);
        assert(parent(x - 1) == x / 2 - 1);
    }
}

} // verus!
