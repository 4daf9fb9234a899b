//! What follows for whole runs of insertions and removals from what one
//! insertion and one removal do.

use crate::heap::semantics::{
    after_insert, after_pop, heap_property, lemma_after_insert, lemma_after_pop, pop_keeps,
    top_index,
};
use crate::heap::Variant;
use crate::order::{is_greatest, le, non_increasing, strict_order, total_order};
use vstd::multiset::Multiset;
use vstd::prelude::*;

verus! {

/// What the removals that returned `popped`, in order, leave of `contents`.
pub open spec fn left_over<U>(contents: Multiset<U>, popped: Seq<U>) -> Multiset<U>
    decreases popped.len(),
{
    if popped.len() == 0 {
        contents
    } else {
        left_over(contents, popped.drop_last()).remove(popped.last())
    }
}

/// Whether `popped` can be what as many removals from `contents` returned,
/// in order: each value was among what the earlier removals had left.
pub open spec fn popped_from<U>(contents: Multiset<U>, popped: Seq<U>) -> bool
    decreases popped.len(),
{
    popped.len() == 0 || (popped_from(contents, popped.drop_last()) && left_over(
        contents,
        popped.drop_last(),
    ).contains(popped.last()))
}

/// Whether `popped` can be what as many removals from the top of an ordered
/// heap with `contents` returned, in order: each value was a greatest one of
/// what the earlier removals had left.
pub open spec fn popped_from_top<U: PartialOrd>(contents: Multiset<U>, popped: Seq<U>) -> bool
    decreases popped.len(),
{
    popped.len() == 0 || (popped_from_top(contents, popped.drop_last()) && is_greatest(
        left_over(contents, popped.drop_last()),
        popped.last(),
    ))
}

/// One call on a heap.
pub enum Call<U> {
    /// An insertion of the value.
    Insert(U),
    /// A removal from the top.
    Pop,
}

/// The layout of a heap of variant `variant` that was empty before `calls`
/// were made on it, in order. A removal from an empty heap changes nothing.
pub open spec fn after_calls<U: PartialOrd>(variant: Variant, calls: Seq<Call<U>>) -> Seq<U>
    decreases calls.len(),
{
    if calls.len() == 0 {
        Seq::empty()
    } else {
        let before = after_calls(variant, calls.drop_last());
        match calls.last() {
            Call::Insert(value) => after_insert(variant, before, value),
            Call::Pop => after_pop(variant, before),
        }
    }
}

/// How many of `calls` are insertions.
pub open spec fn insertions<U>(calls: Seq<Call<U>>) -> nat
    decreases calls.len(),
{
    if calls.len() == 0 {
        0
    } else {
        insertions(calls.drop_last()) + if calls.last() is Insert {
            1nat
        } else {
            0nat
        }
    }
}

/// The layout after the elements of `s` were inserted, in order, into an
/// empty heap of variant `variant`.
pub open spec fn filled<U: PartialOrd>(variant: Variant, s: Seq<U>) -> Seq<U>
    decreases s.len(),
{
    if s.len() == 0 {
        Seq::empty()
    } else {
        after_insert(variant, filled(variant, s.drop_last()), s.last())
    }
}

/// The layout after `count` removals from a heap with layout `s`.
pub open spec fn drained<U: PartialOrd>(variant: Variant, s: Seq<U>, count: nat) -> Seq<U>
    decreases count,
{
    if count == 0 {
        s
    } else {
        after_pop(variant, drained(variant, s, (count - 1) as nat))
    }
}

/// What `count` removals from a heap with layout `s` return, in order.
pub open spec fn extracted<U: PartialOrd>(variant: Variant, s: Seq<U>, count: nat) -> Seq<U>
    decreases count,
{
    if count == 0 {
        Seq::empty()
    } else {
        let before = drained(variant, s, (count - 1) as nat);
        extracted(variant, s, (count - 1) as nat).push(before[top_index(variant, before)])
    }
}

/// Removals take what they return, and nothing else, out of the contents.
pub proof fn lemma_left_over<U>(contents: Multiset<U>, popped: Seq<U>)
    requires
        popped_from(contents, popped),
    ensures
        left_over(contents, popped).add(popped.to_multiset()) == contents,
        left_over(contents, popped).len() == contents.len() - popped.len(),
    decreases popped.len(),
{
    broadcast use vstd::multiset::group_multiset_axioms;

    popped.to_multiset_ensures();
    if popped.len() == 0 {
        assert(popped.to_multiset() =~= Multiset::<U>::empty());
        assert(left_over(contents, popped).add(popped.to_multiset()) =~= contents);
    } else {
        let before = popped.drop_last();
        lemma_left_over(contents, before);
        vstd::seq_lib::to_multiset_build(before, popped.last());
        assert(before.push(popped.last()) =~= popped);
        before.to_multiset_ensures();
        assert(left_over(contents, popped).add(popped.to_multiset()) =~= contents);
    }
}

/// Removals from the top come out in non-increasing order, and what they
/// leave is bounded by each of them.
pub proof fn lemma_popped_from_top<U: PartialOrd>(contents: Multiset<U>, popped: Seq<U>)
    requires
        popped_from_top(contents, popped),
    ensures
        popped_from(contents, popped),
        non_increasing(popped),
        forall|x: U, i: int|
            #[trigger] left_over(contents, popped).contains(x) && 0 <= i < popped.len() ==> le(
                x,
                #[trigger] popped[i],
            ),
    decreases popped.len(),
{
    broadcast use vstd::multiset::group_multiset_axioms;

    if popped.len() > 0 {
        let before = popped.drop_last();
        let last = popped.last();
        let rest = left_over(contents, before);
        lemma_popped_from_top(contents, before);
        assert forall|i: int, j: int| 0 <= i < j < popped.len() implies le(
            #[trigger] popped[j],
            #[trigger] popped[i],
        ) by {
            assert(popped[i] == before[i]);
            if j < before.len() {
                assert(popped[j] == before[j]);
            } else {
                assert(rest.contains(last));
            }
        }
        assert forall|x: U, i: int|
            #[trigger] left_over(contents, popped).contains(x) && 0 <= i < popped.len() implies le(
            x,
            #[trigger] popped[i],
        ) by {
            assert(rest.contains(x));
            if i < before.len() {
                assert(popped[i] == before[i]);
            }
        }
    }
}

/// Where values that compare as equal are identical, removals from the top
/// of the same contents return the same values.
pub proof fn lemma_popped_from_top_is_unique<U: PartialOrd>(
    contents: Multiset<U>,
    one: Seq<U>,
    other: Seq<U>,
)
    requires
        strict_order::<U>(),
        popped_from_top(contents, one),
        popped_from_top(contents, other),
        one.len() == other.len(),
    ensures
        one == other,
    decreases one.len(),
{
    if one.len() > 0 {
        lemma_popped_from_top_is_unique(contents, one.drop_last(), other.drop_last());
        assert(le(one.last(), other.last()) && le(other.last(), one.last()));
        assert(one =~= one.drop_last().push(one.last()));
        assert(other =~= other.drop_last().push(other.last()));
    } else {
        assert(one =~= other);
    }
}

/// After any calls a heap has its heap property, provided that each removal
/// kept it: [`pop_keeps`] says which do, and of a binary or quaternary heap
/// all do.
pub proof fn lemma_calls_keep_order<U: PartialOrd>(variant: Variant, calls: Seq<Call<U>>)
    requires
        total_order::<U>(),
        forall|k: int|
            0 <= k < calls.len() && calls[k] is Pop ==> pop_keeps(
                variant,
                #[trigger] after_calls(variant, calls.take(k)),
            ),
    ensures
        heap_property(variant, after_calls(variant, calls)),
    decreases calls.len(),
{
    if calls.len() > 0 {
        let earlier = calls.drop_last();
        let before = after_calls(variant, earlier);
        assert(earlier =~= calls.take(calls.len() - 1));
        assert forall|k: int| 0 <= k < earlier.len() && earlier[k] is Pop implies pop_keeps(
            variant,
            #[trigger] after_calls(variant, earlier.take(k)),
        ) by {
            assert(earlier.take(k) =~= calls.take(k));
        }
        lemma_calls_keep_order(variant, earlier);
        match calls.last() {
            Call::Insert(value) => {
                lemma_after_insert(variant, before, value);
            },
            Call::Pop => {
                if before.len() > 0 {
                    lemma_after_pop(variant, before);
                }
            },
        }
    }
}

/// Each insertion makes a heap one element longer and each removal one
/// shorter: where no removal found the heap empty, it holds as many
/// elements as there were more insertions than removals.
pub proof fn lemma_calls_len<U: PartialOrd>(variant: Variant, calls: Seq<Call<U>>)
    requires
        total_order::<U>(),
        forall|k: int|
            0 <= k < calls.len() && calls[k] is Pop ==> (#[trigger] after_calls(
                variant,
                calls.take(k),
            )).len() > 0,
    ensures
        after_calls(variant, calls).len() == insertions(calls) - (calls.len() - insertions(calls)),
    decreases calls.len(),
{
    if calls.len() > 0 {
        let earlier = calls.drop_last();
        let before = after_calls(variant, earlier);
        assert(earlier =~= calls.take(calls.len() - 1));
        assert forall|k: int| 0 <= k < earlier.len() && earlier[k] is Pop implies (
        #[trigger] after_calls(variant, earlier.take(k))).len() > 0 by {
            assert(earlier.take(k) =~= calls.take(k));
        }
        lemma_calls_len(variant, earlier);
        match calls.last() {
            Call::Insert(value) => {
                lemma_after_insert(variant, before, value);
            },
            Call::Pop => {
                lemma_after_pop(variant, before);
            },
        }
    }
}

/// Insertions alone leave a heap of any variant ordered, with the inserted
/// elements as its contents.
pub proof fn lemma_filled<U: PartialOrd>(variant: Variant, s: Seq<U>)
    requires
        total_order::<U>(),
    ensures
        filled(variant, s).len() == s.len(),
        filled(variant, s).to_multiset() == s.to_multiset(),
        heap_property(variant, filled(variant, s)),
    decreases s.len(),
{
    if s.len() > 0 {
        lemma_filled(variant, s.drop_last());
        lemma_after_insert(variant, filled(variant, s.drop_last()), s.last());
        vstd::seq_lib::to_multiset_build(s.drop_last(), s.last());
        assert(s.drop_last().push(s.last()) =~= s);
    } else {
        assert(s =~= filled(variant, s));
    }
}

/// Each removal from a heap that is not empty makes it one element shorter.
pub proof fn lemma_drained_len<U: PartialOrd>(variant: Variant, s: Seq<U>, count: nat)
    requires
        total_order::<U>(),
        count <= s.len(),
    ensures
        drained(variant, s, count).len() == s.len() - count,
        extracted(variant, s, count).len() == count,
    decreases count,
{
    if count > 0 {
        lemma_drained_len(variant, s, (count - 1) as nat);
        lemma_after_pop(variant, drained(variant, s, (count - 1) as nat));
    }
}

/// After as many removals as there were insertions a heap of any variant
/// is empty.
pub proof fn lemma_round_trip<U: PartialOrd>(variant: Variant, s: Seq<U>)
    requires
        total_order::<U>(),
    ensures
        drained(variant, filled(variant, s), s.len()).len() == 0,
{
    lemma_filled(variant, s);
    lemma_drained_len(variant, filled(variant, s), s.len());
}

/// While removals keep the order, they return greatest elements and leave
/// what the contents held besides.
pub proof fn lemma_extracted_from_top<U: PartialOrd>(variant: Variant, s: Seq<U>, count: nat)
    requires
        total_order::<U>(),
        heap_property(variant, s),
        count <= s.len(),
        forall|k: nat| k < count ==> pop_keeps(variant, #[trigger] drained(variant, s, k)),
    ensures
        heap_property(variant, drained(variant, s, count)),
        popped_from_top(s.to_multiset(), extracted(variant, s, count)),
        drained(variant, s, count).to_multiset() == left_over(
            s.to_multiset(),
            extracted(variant, s, count),
        ),
    decreases count,
{
    if count > 0 {
        let earlier = (count - 1) as nat;
        let before = drained(variant, s, earlier);
        lemma_extracted_from_top(variant, s, earlier);
        lemma_drained_len(variant, s, earlier);
        lemma_after_pop(variant, before);
        assert(pop_keeps(variant, before));
        let popped = extracted(variant, s, count);
        assert(popped.drop_last() =~= extracted(variant, s, earlier));
    }
}

/// Inserting the elements of `s` into a max-heap and then removing from the
/// top until it is empty gives the elements of `s` in non-increasing order.
pub proof fn lemma_extraction_sorts<U: PartialOrd>(variant: Variant, s: Seq<U>)
    requires
        total_order::<U>(),
        variant != Variant::MinMax,
    ensures
        extracted(variant, filled(variant, s), s.len()).len() == s.len(),
        extracted(variant, filled(variant, s), s.len()).to_multiset() == s.to_multiset(),
        non_increasing(extracted(variant, filled(variant, s), s.len())),
{
    broadcast use vstd::multiset::group_multiset_axioms;

    let layout = filled(variant, s);
    let popped = extracted(variant, layout, s.len());
    lemma_filled(variant, s);
    lemma_drained_len(variant, layout, s.len());
    lemma_extracted_from_top(variant, layout, s.len());
    lemma_popped_from_top(layout.to_multiset(), popped);
    lemma_left_over(layout.to_multiset(), popped);
    let rest = left_over(layout.to_multiset(), popped);
    vstd::seq_lib::to_multiset_len(layout);
    assert(rest.len() == 0);
    assert forall|v: U| rest.count(v) == 0 by {
        if rest.count(v) > 0 {
            assert(rest.contains(v));
        }
    }
    assert(rest =~= Multiset::<U>::empty());
    assert(rest.add(popped.to_multiset()) =~= popped.to_multiset());
}

/// Where values that compare as equal are identical, the binary and the
/// quaternary heap return the same sequence for the same elements.
pub proof fn lemma_extraction_agrees<U: PartialOrd>(s: Seq<U>)
    requires
        total_order::<U>(),
        strict_order::<U>(),
    ensures
        extracted(Variant::Binary, filled(Variant::Binary, s), s.len()) == extracted(
            Variant::Quaternary,
            filled(Variant::Quaternary, s),
            s.len(),
        ),
{
    let binary = filled(Variant::Binary, s);
    let quaternary = filled(Variant::Quaternary, s);
    lemma_filled(Variant::Binary, s);
    lemma_filled(Variant::Quaternary, s);
    lemma_drained_len(Variant::Binary, binary, s.len());
    lemma_drained_len(Variant::Quaternary, quaternary, s.len());
    lemma_extracted_from_top(Variant::Binary, binary, s.len());
    lemma_extracted_from_top(Variant::Quaternary, quaternary, s.len());
    lemma_popped_from_top_is_unique(
        s.to_multiset(),
        extracted(Variant::Binary, binary, s.len()),
        extracted(Variant::Quaternary, quaternary, s.len()),
    );
}

} // verus!
