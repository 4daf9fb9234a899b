use super::{BinaryHeap, FouraryHeap, MaxMinHeap};
use vstd::prelude::*;

verus! {

/// Closes the set of heap variants: only the markers of this crate implement it.
pub trait Sealed {

}

impl Sealed for BinaryHeap {

}

impl Sealed for FouraryHeap {

}

impl Sealed for MaxMinHeap {

}

} // verus!
