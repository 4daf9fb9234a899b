//! Array-backed priority queues: a binary max-heap, a quaternary max-heap and
//! a min-max heap, chosen at compile time by a marker type.

pub mod heap;
pub mod laws;
pub mod layout;
pub mod order;
pub mod tree;
