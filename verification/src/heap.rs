//! The heap itself: one array of elements and a marker type that selects
//! the layout and the algorithms that keep it.

use crate::layout::{lemma_swapped_keeps_contents, lemma_without_removes, swapped, without};
use crate::order::{is_greatest, is_least, lemma_comparisons, total_order};
use crate::tree::lemma_first_levels;
use core::marker::PhantomData;
use min_max::rising::push_up;
use min_max::sinking::{push_down_max, push_down_min};
use semantics::{
    after_insert, after_pop, after_pop_min, heap_property, lemma_after_insert, lemma_after_pop,
    lemma_after_pop_min, pop_keeps, pop_min_keeps, top_index,
};
use vstd::prelude::*;

pub mod binary;
pub mod fourary;
mod inner_heap;
pub mod max_heap;
pub mod min_max;
pub mod semantics;

verus! {

/// The closed set of heap layouts.
#[derive(Clone, Copy, Debug, PartialEq, Eq, Structural)]
pub enum Variant {
    /// A max-heap whose nodes have two children each.
    Binary,
    /// A max-heap whose nodes have four children each.
    Quaternary,
    /// A binary tree with minima on its even levels and maxima on its odd ones.
    MinMax,
}

/// Why an operation on a heap did not produce a value.
#[derive(Clone, Copy, Debug, PartialEq, Eq, Structural)]
pub enum HeapError {
    /// The heap holds no element.
    EmptyContainer,
}

/// Marker of the binary max-heap.
pub struct BinaryHeap;

/// Marker of the quaternary max-heap.
pub struct FouraryHeap;

/// Marker of the min-max heap.
pub struct MaxMinHeap;

/// Implemented by the variant markers, and by nothing else: selects the
/// layout and the algorithms of a [`Heap`].
pub trait HeapImpl: inner_heap::Sealed {
    /// The layout this marker stands for.
    spec fn spec_variant() -> Variant;

    /// The layout this marker stands for, as a value to branch on.
    fn variant() -> (v: Variant)
        ensures
            v == Self::spec_variant(),
    ;
}

impl HeapImpl for BinaryHeap {
    open spec fn spec_variant() -> Variant {
        Variant::Binary
    }

    fn variant() -> (v: Variant) {
        Variant::Binary
    }
}

impl HeapImpl for FouraryHeap {
    open spec fn spec_variant() -> Variant {
        Variant::Quaternary
    }

    fn variant() -> (v: Variant) {
        Variant::Quaternary
    }
}

impl HeapImpl for MaxMinHeap {
    open spec fn spec_variant() -> Variant {
        Variant::MinMax
    }

    fn variant() -> (v: Variant) {
        Variant::MinMax
    }
}

/// A priority queue over one growable array: a complete tree laid out
/// breadth first, root at index 0, of the variant that `T` names.
pub struct Heap<T: HeapImpl, U> {
    elements: Vec<U>,
    phantom: PhantomData<T>,
}

impl<T: HeapImpl, U> View for Heap<T, U> {
    type V = Seq<U>;

    /// The elements by their places in the array.
    closed spec fn view(&self) -> Seq<U> {
        self.elements@
    }
}

impl<T: HeapImpl, U> Heap<T, U> {
    /// How many elements the heap holds.
    pub fn len(&self) -> (n: usize)
        ensures
            n == self@.len(),
    {
        self.elements.len()
    }

    /// Whether the heap holds no element.
    pub fn is_empty(&self) -> (empty: bool)
        ensures
            empty == (self@.len() == 0),
    {
        self.elements.len() == 0
    }

    /// The elements by their places in the array.
    pub fn as_slice(&self) -> (elements: &[U])
        ensures
            elements@ == self@,
    {
        self.elements.as_slice()
    }

    /// The length of a heap fits the machine word.
    pub proof fn lemma_len_fits(&self)
        ensures
            self@.len() <= usize::MAX,
    {
        vstd::std_specs::vec::axiom_spec_len(&self.elements);
    }
}

impl<T: HeapImpl, U: Copy> Heap<T, U> {
    /// The value at `i`.
    pub(crate) fn get(&self, i: usize) -> (value: U)
        requires
            i < self@.len(),
        ensures
            value == self@[i as int],
    {
        self.elements[i]
    }

    /// Exchanges the values at `i` and `j`.
    pub(crate) fn exchange(&mut self, i: usize, j: usize)
        requires
            i < old(self)@.len(),
            j < old(self)@.len(),
        ensures
            final(self)@ == swapped(old(self)@, i as int, j as int),
            final(self)@.len() == old(self)@.len(),
            final(self)@.to_multiset() == old(self)@.to_multiset(),
    {
        proof {
            lemma_swapped_keeps_contents(self@, i as int, j as int);
        }
        let a = self.elements[i];
        let b = self.elements[j];
        self.elements.set(i, b);
        self.elements.set(j, a);
    }

    /// Takes the value at `i` out and puts the last value in its place.
    fn take_out(&mut self, i: usize) -> (value: U)
        requires
            i < old(self)@.len(),
        ensures
            value == old(self)@[i as int],
            final(self)@ == without(old(self)@, i as int),
            final(self)@.len() == old(self)@.len() - 1,
            old(self)@.to_multiset().contains(value),
            final(self)@.to_multiset() == old(self)@.to_multiset().remove(value),
    {
        proof {
            lemma_without_removes(self@, i as int);
        }
        let value = self.elements[i];
        let last = self.elements.len() - 1;
        self.exchange(i, last);
        self.elements.pop();
        value
    }
}

impl<T: HeapImpl, U: PartialOrd + Copy> Heap<T, U> {
    /// The heap property of the variant. A new heap has it, and `clear` and
    /// `insert` keep it; so does a removal, but for those from a min-max heap
    /// that [`HeapTrait::pop_keeps_order`] and [`Heap::pop_min_keeps_order`]
    /// tell apart.
    pub open spec fn is_ordered(&self) -> bool {
        heap_property(T::spec_variant(), self@)
    }

    /// An empty heap; `size` is how many elements to make room for.
    pub fn new(size: usize) -> (heap: Self)
        ensures
            heap@ == Seq::<U>::empty(),
            heap.is_ordered(),
    {
        Heap { elements: Vec::with_capacity(size), phantom: PhantomData }
    }

    /// Removes every element and keeps the allocation. Elements are `Copy`,
    /// so there is nothing to run for each of them. On an empty heap it
    /// changes nothing.
    pub fn clear(&mut self)
        ensures
            final(self)@ == Seq::<U>::empty(),
            final(self).is_ordered(),
            old(self)@.len() == 0 ==> final(self)@ == old(self)@,
    {
        self.elements.clear();
    }

    /// The largest element, which stays in the heap: nothing changes. Fails
    /// on an empty heap.
    pub fn max(&mut self) -> (top: Result<U, HeapError>)
        requires
            total_order::<U>(),
        ensures
            final(self)@ == old(self)@,
            old(self)@.len() == 0 ==> top == Err::<U, HeapError>(HeapError::EmptyContainer),
            old(self)@.len() > 0 ==> top == Ok::<U, HeapError>(
                old(self)@[top_index(T::spec_variant(), old(self)@)],
            ),
            old(self).is_ordered() && top is Ok ==> is_greatest(
                old(self)@.to_multiset(),
                top->Ok_0,
            ),
    {
        if self.elements.len() == 0 {
            return Err(HeapError::EmptyContainer);
        }
        proof {
            lemma_after_pop(T::spec_variant(), self@);
        }
        Ok(self.elements[self.index_of_max()])
    }

    /// The index that [`top_index`] names.
    fn index_of_max(&self) -> (top: usize)
        requires
            total_order::<U>(),
            self@.len() > 0,
        ensures
            top == top_index(T::spec_variant(), self@),
            top < self@.len(),
            top <= 2,
    {
        proof {
            lemma_comparisons::<U>();
        }
        match T::variant() {
            Variant::MinMax => {
                let len = self.elements.len();
                if len <= 1 {
                    0
                } else if len == 2 {
                    1
                } else if self.elements[2] > self.elements[1] {
                    2
                } else {
                    1
                }
            },
            _ => 0,
        }
    }
}

impl<U: PartialOrd + Copy> Heap<MaxMinHeap, U> {
    /// Whether [`Heap::pop_min`] on this heap leaves the heap property in
    /// place: it does unless the sifting that follows the removal ends by
    /// leaving a value under a parent that fails to bound it.
    pub open spec fn pop_min_keeps_order(&self) -> bool {
        pop_min_keeps(self@)
    }

    /// The smallest element, which stays in the heap. Fails on an empty heap.
    pub fn min(&self) -> (bottom: Result<U, HeapError>)
        requires
            total_order::<U>(),
        ensures
            self@.len() == 0 ==> bottom == Err::<U, HeapError>(HeapError::EmptyContainer),
            self@.len() > 0 ==> bottom == Ok::<U, HeapError>(self@[0]),
            self.is_ordered() && bottom is Ok ==> is_least(self@.to_multiset(), bottom->Ok_0),
    {
        if self.elements.len() == 0 {
            return Err(HeapError::EmptyContainer);
        }
        proof {
            lemma_after_pop_min(self@);
        }
        Ok(self.elements[0])
    }

    /// Removes the root and returns it: of an ordered heap the least
    /// element. The last element takes its place and is pushed down. Fails
    /// on an empty heap, which it leaves as it is.
    pub fn pop_min(&mut self) -> (popped: Result<U, HeapError>)
        requires
            total_order::<U>(),
        ensures
            old(self)@.len() == 0 ==> popped == Err::<U, HeapError>(HeapError::EmptyContainer)
                && final(self)@ == old(self)@,
            old(self)@.len() > 0 ==> popped == Ok::<U, HeapError>(old(self)@[0]),
            popped is Ok ==> final(self)@ == after_pop_min(old(self)@),
            popped is Ok ==> final(self)@.len() == old(self)@.len() - 1,
            popped is Ok ==> final(self)@.to_multiset() == old(self)@.to_multiset().remove(
                popped->Ok_0,
            ),
            old(self).is_ordered() && popped is Ok ==> is_least(
                old(self)@.to_multiset(),
                popped->Ok_0,
            ),
            old(self).is_ordered() ==> (final(self).is_ordered()
                <==> old(self).pop_min_keeps_order()),
    {
        if self.elements.len() == 0 {
            return Err(HeapError::EmptyContainer);
        }
        proof {
            lemma_after_pop_min(self@);
        }
        let min = self.take_out(0);
        push_down_min(self, 0);
        Ok(min)
    }
}

/// Insertion and removal of the largest element, as each variant does them.
pub trait HeapTrait<U: PartialOrd + Copy> {
    /// The elements by their places in the tree, breadth first.
    spec fn layout(&self) -> Seq<U>;

    /// Whether the layout has the heap property of the variant.
    spec fn ordered(&self) -> bool;

    /// Whether `pop` on this heap leaves the heap property in place.
    spec fn pop_keeps_order(&self) -> bool;

    /// Adds `value`. An ordered heap stays ordered.
    fn insert(&mut self, value: U)
        requires
            total_order::<U>(),
        ensures
            final(self).layout().len() == old(self).layout().len() + 1,
            final(self).layout().to_multiset() == old(self).layout().to_multiset().insert(value),
            old(self).ordered() ==> final(self).ordered(),
    ;

    /// Removes the element at the top and returns it: of an ordered heap a
    /// greatest element. Fails on an empty heap, which it leaves as it is.
    fn pop(&mut self) -> (popped: Result<U, HeapError>)
        requires
            total_order::<U>(),
        ensures
            old(self).layout().len() == 0 ==> popped == Err::<U, HeapError>(
                HeapError::EmptyContainer,
            ) && final(self).layout() == old(self).layout(),
            old(self).layout().len() > 0 ==> popped is Ok,
            popped is Ok ==> final(self).layout().len() == old(self).layout().len() - 1,
            popped is Ok ==> old(self).layout().to_multiset().contains(popped->Ok_0),
            popped is Ok ==> final(self).layout().to_multiset()
                == old(self).layout().to_multiset().remove(popped->Ok_0),
            old(self).ordered() && popped is Ok ==> is_greatest(
                old(self).layout().to_multiset(),
                popped->Ok_0,
            ),
            old(self).ordered() ==> (final(self).ordered() <==> old(self).pop_keeps_order()),
    ;
}

impl<U: PartialOrd + Copy> HeapTrait<U> for Heap<BinaryHeap, U> {
    open spec fn layout(&self) -> Seq<U> {
        self@
    }

    open spec fn ordered(&self) -> bool {
        self.is_ordered()
    }

    open spec fn pop_keeps_order(&self) -> bool {
        pop_keeps(Variant::Binary, self@)
    }

    fn insert(&mut self, value: U)
        ensures
            final(self)@ == after_insert(Variant::Binary, old(self)@, value),
    {
        proof {
            lemma_after_insert(Variant::Binary, self@, value);
        }
        self.elements.push(value);
        let cur_len = self.elements.len();
        binary::heapify_up(self, cur_len - 1);
    }

    fn pop(&mut self) -> (popped: Result<U, HeapError>)
        ensures
            popped matches Ok(max) ==> max == old(self)@[top_index(Variant::Binary, old(self)@)],
            popped is Ok ==> final(self)@ == after_pop(Variant::Binary, old(self)@),
    {
        if self.elements.len() == 0 {
            return Err(HeapError::EmptyContainer);
        }
        proof {
            lemma_after_pop(Variant::Binary, self@);
        }
        let max = self.take_out(0);
        binary::heapify_down(self, 0);
        Ok(max)
    }
}

impl<U: PartialOrd + Copy> HeapTrait<U> for Heap<FouraryHeap, U> {
    open spec fn layout(&self) -> Seq<U> {
        self@
    }

    open spec fn ordered(&self) -> bool {
        self.is_ordered()
    }

    open spec fn pop_keeps_order(&self) -> bool {
        pop_keeps(Variant::Quaternary, self@)
    }

    fn insert(&mut self, value: U)
        ensures
            final(self)@ == after_insert(Variant::Quaternary, old(self)@, value),
    {
        proof {
            lemma_after_insert(Variant::Quaternary, self@, value);
        }
        self.elements.push(value);
        let cur_len = self.elements.len();
        fourary::heapify_up(self, cur_len - 1);
    }

    fn pop(&mut self) -> (popped: Result<U, HeapError>)
        ensures
            popped matches Ok(max) ==> max == old(self)@[top_index(
                Variant::Quaternary,
                old(self)@,
            )],
            popped is Ok ==> final(self)@ == after_pop(Variant::Quaternary, old(self)@),
    {
        if self.elements.len() == 0 {
            return Err(HeapError::EmptyContainer);
        }
        proof {
            lemma_after_pop(Variant::Quaternary, self@);
        }
        let max = self.take_out(0);
        fourary::heapify_down(self, 0);
        Ok(max)
    }
}

impl<U: PartialOrd + Copy> HeapTrait<U> for Heap<MaxMinHeap, U> {
    open spec fn layout(&self) -> Seq<U> {
        self@
    }

    open spec fn ordered(&self) -> bool {
        self.is_ordered()
    }

    open spec fn pop_keeps_order(&self) -> bool {
        pop_keeps(Variant::MinMax, self@)
    }

    fn insert(&mut self, value: U)
        ensures
            final(self)@ == after_insert(Variant::MinMax, old(self)@, value),
    {
        proof {
            lemma_after_insert(Variant::MinMax, self@, value);
        }
        self.elements.push(value);
        let cur_len = self.elements.len();
        push_up(self, cur_len - 1);
    }

    fn pop(&mut self) -> (popped: Result<U, HeapError>)
        ensures
            popped matches Ok(max) ==> max == old(self)@[top_index(Variant::MinMax, old(self)@)],
            popped is Ok ==> final(self)@ == after_pop(Variant::MinMax, old(self)@),
    {
        if self.elements.len() == 0 {
            return Err(HeapError::EmptyContainer);
        }
        proof {
            lemma_after_pop(Variant::MinMax, self@);
            lemma_first_levels();
        }
        let top = self.index_of_max();
        let max = self.take_out(top);
        if top == 0 {
            push_down_min(self, top);
        } else {
            push_down_max(self, top);
        }
        Ok(max)
    }
}

} // verus!
