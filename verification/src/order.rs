//! The order that heap elements must carry, and what follows from it.

use core::cmp::Ordering;
use vstd::multiset::Multiset;
use vstd::prelude::*;
use vstd::std_specs::cmp::PartialOrdSpec;

verus! {

/// `a` is ordered at or before `b`.
pub open spec fn le<U: PartialOrd>(a: U, b: U) -> bool {
    a.partial_cmp_spec(&b) matches Some(Ordering::Less | Ordering::Equal)
}

/// `a` is ordered strictly before `b`: what `a < b` computes.
pub open spec fn lt<U: PartialOrd>(a: U, b: U) -> bool {
    a.partial_cmp_spec(&b) == Some(Ordering::Less)
}

/// `a` is ordered strictly after `b`: what `a > b` computes.
pub open spec fn gt<U: PartialOrd>(a: U, b: U) -> bool {
    a.partial_cmp_spec(&b) == Some(Ordering::Greater)
}

/// The contract on element types: comparisons compute what their
/// specification says, any two values are comparable, `<` and `>` mirror
/// each other, and `<=` is transitive. Values that compare as equal need not
/// be identical.
#[verifier::opaque]
pub open spec fn total_order<U: PartialOrd>() -> bool {
    &&& U::obeys_partial_cmp_spec()
    &&& forall|a: U, b: U| (#[trigger] a.partial_cmp_spec(&b)) is Some
    &&& forall|a: U, b: U| #[trigger] lt(a, b) <==> gt(b, a)
    &&& forall|a: U, b: U, c: U| #[trigger] le(a, b) && #[trigger] le(b, c) ==> le(a, c)
}

/// Values that compare as equal are identical.
pub open spec fn strict_order<U: PartialOrd>() -> bool {
    forall|a: U, b: U| #[trigger] le(a, b) && le(b, a) ==> a == b
}

/// `v` occurs in `m` and nothing in `m` is ordered after it.
pub open spec fn is_greatest<U: PartialOrd>(m: Multiset<U>, v: U) -> bool {
    m.contains(v) && forall|x: U| #[trigger] m.contains(x) ==> le(x, v)
}

/// `v` occurs in `m` and nothing in `m` is ordered before it.
pub open spec fn is_least<U: PartialOrd>(m: Multiset<U>, v: U) -> bool {
    m.contains(v) && forall|x: U| #[trigger] m.contains(x) ==> le(v, x)
}

/// Each element of `s` is ordered at or after its successor.
pub open spec fn non_increasing<U: PartialOrd>(s: Seq<U>) -> bool {
    forall|i: int, j: int| 0 <= i < j < s.len() ==> le(#[trigger] s[j], #[trigger] s[i])
}

/// How the three comparisons relate under a total order.
pub proof fn lemma_comparisons<U: PartialOrd>()
    requires
        total_order::<U>(),
    ensures
        U::obeys_partial_cmp_spec(),
        forall|a: U, b: U|
            #![trigger a.partial_cmp_spec(&b)]
            {
                &&& gt(a, b) <==> !le(a, b)
                &&& lt(a, b) <==> !le(b, a)
                &&& le(a, b) || le(b, a)
            },
        forall|a: U| #![trigger a.partial_cmp_spec(&a)] le(a, a),
{
    reveal(total_order);
    assert forall|a: U, b: U| #![trigger a.partial_cmp_spec(&b)] (lt(a, b) <==> !le(b, a)) by {
        assert(b.partial_cmp_spec(&a) is Some);
        assert(lt(b, a) <==> gt(a, b));
        assert(lt(a, b) <==> gt(b, a));
    }
}

/// The order chains.
pub proof fn lemma_le_transitive<U: PartialOrd>(a: U, b: U, c: U)
    requires
        total_order::<U>(),
        le(a, b),
        le(b, c),
    ensures
        le(a, c),
{
    reveal(total_order);
}

/// `u8` meets the contract on element types.
pub proof fn lemma_u8_total_order()
    ensures
        total_order::<u8>(),
        strict_order::<u8>(),
{
    reveal(total_order);
}

/// `u16` meets the contract on element types.
pub proof fn lemma_u16_total_order()
    ensures
        total_order::<u16>(),
        strict_order::<u16>(),
{
    reveal(total_order);
}

/// `u32` meets the contract on element types.
pub proof fn lemma_u32_total_order()
    ensures
        total_order::<u32>(),
        strict_order::<u32>(),
{
    reveal(total_order);
}

/// `u64` meets the contract on element types.
pub proof fn lemma_u64_total_order()
    ensures
        total_order::<u64>(),
        strict_order::<u64>(),
{
    reveal(total_order);
}

/// `u128` meets the contract on element types.
pub proof fn lemma_u128_total_order()
    ensures
        total_order::<u128>(),
        strict_order::<u128>(),
{
    reveal(total_order);
}

/// `usize` meets the contract on element types.
pub proof fn lemma_usize_total_order()
    ensures
        total_order::<usize>(),
        strict_order::<usize>(),
{
    reveal(total_order);
}

/// `i8` meets the contract on element types.
pub proof fn lemma_i8_total_order()
    ensures
        total_order::<i8>(),
        strict_order::<i8>(),
{
    reveal(total_order);
}

/// `i16` meets the contract on element types.
pub proof fn lemma_i16_total_order()
    ensures
        total_order::<i16>(),
        strict_order::<i16>(),
{
    reveal(total_order);
}

/// `i32` meets the contract on element types.
pub proof fn lemma_i32_total_order()
    ensures
        total_order::<i32>(),
        strict_order::<i32>(),
{
    reveal(total_order);
}

/// `i64` meets the contract on element types.
pub proof fn lemma_i64_total_order()
    ensures
        total_order::<i64>(),
        strict_order::<i64>(),
{
    reveal(total_order);
}

/// `i128` meets the contract on element types.
pub proof fn lemma_i128_total_order()
    ensures
        total_order::<i128>(),
        strict_order::<i128>(),
{
    reveal(total_order);
}

/// `isize` meets the contract on element types.
pub proof fn lemma_isize_total_order()
    ensures
        total_order::<isize>(),
        strict_order::<isize>(),
{
    reveal(total_order);
}

} // verus!
