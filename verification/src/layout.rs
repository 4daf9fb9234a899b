//! Sequences as heap layouts: exchanging two places, taking a value out,
//! and what that does to the contents.

use crate::order::{is_greatest, is_least, le};
use vstd::prelude::*;

verus! {

/// `s` with the values at `i` and `j` exchanged.
pub open spec fn swapped<U>(s: Seq<U>, i: int, j: int) -> Seq<U> {
    s.update(i, s[j]).update(j, s[i])
}

/// `s` after the value at `i` has left: the last value takes its place.
pub open spec fn without<U>(s: Seq<U>, i: int) -> Seq<U> {
    swapped(s, i, s.len() - 1).drop_last()
}

/// An exchange changes neither the length nor the contents.
pub proof fn lemma_swapped_keeps_contents<U>(s: Seq<U>, i: int, j: int)
    requires
        0 <= i < s.len(),
        0 <= j < s.len(),
    ensures
        swapped(s, i, j).len() == s.len(),
        swapped(s, i, j).to_multiset() == s.to_multiset(),
{
    broadcast use vstd::multiset::group_multiset_axioms;

    let t = s.update(i, s[j]);
    vstd::seq_lib::to_multiset_update(s, i, s[j]);
    vstd::seq_lib::to_multiset_update(t, j, s[i]);
    vstd::seq_lib::to_multiset_contains(s, s[i]);
    vstd::seq_lib::to_multiset_contains(s, s[j]);
    assert(s.contains(s[i]) && s.contains(s[j]));
    assert(swapped(s, i, j).to_multiset() =~= s.to_multiset());
}

/// Taking the value at `i` out removes one occurrence of it from the contents.
pub proof fn lemma_without_removes<U>(s: Seq<U>, i: int)
    requires
        0 <= i < s.len(),
    ensures
        without(s, i).len() == s.len() - 1,
        s.to_multiset().contains(s[i]),
        without(s, i).to_multiset() == s.to_multiset().remove(s[i]),
{
    let last = s.len() - 1;
    let t = swapped(s, i, last);
    lemma_swapped_keeps_contents(s, i, last);
    vstd::seq_lib::to_multiset_remove(t, last);
    assert(t.remove(last) =~= t.drop_last());
    vstd::seq_lib::to_multiset_contains(t, s[i]);
    assert(t.contains(s[i])) by {
        assert(t[last] == s[i]);
    }
}

/// What holds at or after every element of `s` is a greatest of its contents.
pub proof fn lemma_greatest_of_layout<U: PartialOrd>(s: Seq<U>, j: int)
    requires
        0 <= j < s.len(),
        forall|k: int| 0 <= k < s.len() ==> le(#[trigger] s[k], s[j]),
    ensures
        is_greatest(s.to_multiset(), s[j]),
{
    vstd::seq_lib::to_multiset_contains(s, s[j]);
    assert(s.contains(s[j]));
    assert forall|x: U| #[trigger] s.to_multiset().contains(x) implies le(x, s[j]) by {
        vstd::seq_lib::to_multiset_contains(s, x);
        let k = choose|k: int| 0 <= k < s.len() && s[k] == x;
        assert(le(s[k], s[j]));
    }
}

/// What holds at or before every element of `s` is a least of its contents.
pub proof fn lemma_least_of_layout<U: PartialOrd>(s: Seq<U>, j: int)
    requires
        0 <= j < s.len(),
        forall|k: int| 0 <= k < s.len() ==> le(s[j], #[trigger] s[k]),
    ensures
        is_least(s.to_multiset(), s[j]),
{
    vstd::seq_lib::to_multiset_contains(s, s[j]);
    assert(s.contains(s[j]));
    assert forall|x: U| #[trigger] s.to_multiset().contains(x) implies le(s[j], x) by {
        vstd::seq_lib::to_multiset_contains(s, x);
        let k = choose|k: int| 0 <= k < s.len() && s[k] == x;
        assert(le(s[j], s[k]));
    }
}

} // verus!
