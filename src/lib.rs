//! An array-backed binary heap with a pluggable priority order.

pub mod heap;
pub mod order;

pub use heap::{Heap, MaxHeap, MinHeap};
pub use order::{Comparator, MaxFirst, MinFirst};
