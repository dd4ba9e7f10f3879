use binheap::{Heap, MaxFirst, MaxHeap, MinFirst, MinHeap};

#[test]
fn test_empty_heap() {
    let mut heap = MaxHeap::new::<i32>();
    assert_eq!(heap.next(), None);
}

#[test]
fn test_min_heap() {
    let mut heap = MinHeap::new();
    heap.add(4);
    heap.add(2);
    heap.add(9);
    heap.add(11);
    assert_eq!(heap.len(), 4);
    assert_eq!(heap.next(), Some(2));
    assert_eq!(heap.next(), Some(4));
    assert_eq!(heap.next(), Some(9));
    heap.add(1);
    assert_eq!(heap.next(), Some(1));
}

#[test]
fn test_max_heap() {
    let mut heap = MaxHeap::new();
    heap.add(4);
    heap.add(2);
    heap.add(9);
    heap.add(11);
    assert_eq!(heap.len(), 4);
    assert_eq!(heap.next(), Some(11));
    assert_eq!(heap.next(), Some(9));
    assert_eq!(heap.next(), Some(4));
    heap.add(1);
    assert_eq!(heap.next(), Some(2));
}

fn drain<C: binheap::Comparator<i64>>(heap: &mut Heap<i64, C>) -> Vec<i64> {
    let mut out = Vec::new();
    while let Some(x) = heap.next() {
        out.push(x);
    }
    out
}

#[test]
fn exhausted_heap_keeps_its_length() {
    let mut heap: Heap<u8, MinFirst> = Heap::new_min();
    assert_eq!(heap.next(), None);
    assert_eq!(heap.len(), 0);
    assert!(heap.is_empty());
    heap.add(7);
    assert_eq!(heap.next(), Some(7));
    assert_eq!(heap.next(), None);
    assert_eq!(heap.next(), None);
    assert_eq!(heap.len(), 0);
}

#[test]
fn is_empty_follows_len() {
    let mut heap: Heap<i32, MaxFirst> = Heap::new_max();
    assert!(heap.is_empty());
    heap.add(3);
    assert!(!heap.is_empty());
    assert_eq!(heap.len(), 1);
    heap.add(3);
    assert_eq!(heap.len(), 2);
    heap.next();
    assert!(!heap.is_empty());
    heap.next();
    assert!(heap.is_empty());
}

#[test]
fn len_counts_insertions_minus_extractions() {
    let mut heap = Heap::new(MinFirst);
    for v in [5i64, -3, 8, 0, 12, 7] {
        heap.add(v);
    }
    assert_eq!(heap.len(), 6);
    heap.next();
    heap.next();
    assert_eq!(heap.len(), 4);
    heap.add(1);
    assert_eq!(heap.len(), 5);
    for _ in 0..10 {
        heap.next();
    }
    assert_eq!(heap.len(), 0);
}

#[test]
fn min_drain_is_sorted_whatever_the_insertion_order() {
    let input = [31i64, -7, 0, 14, 14, 2, 99, -50, 3, 3, 3, 27, 8, -1];
    let mut heap = Heap::new(MinFirst);
    for v in input {
        heap.add(v);
    }
    let out = drain(&mut heap);
    let mut expected = input.to_vec();
    expected.sort();
    assert_eq!(out, expected);
}

#[test]
fn max_drain_is_sorted_whatever_the_insertion_order() {
    let input = [31i64, -7, 0, 14, 14, 2, 99, -50, 3, 3, 3, 27, 8, -1];
    let mut heap = Heap::new(MaxFirst);
    for v in input {
        heap.add(v);
    }
    let out = drain(&mut heap);
    let mut expected = input.to_vec();
    expected.sort();
    expected.reverse();
    assert_eq!(out, expected);
}

#[test]
fn equal_keys_all_come_out() {
    let mut heap = MinHeap::new();
    for _ in 0..5 {
        heap.add(4u32);
    }
    heap.add(1);
    assert_eq!(heap.next(), Some(1));
    for _ in 0..5 {
        assert_eq!(heap.next(), Some(4));
    }
    assert_eq!(heap.next(), None);
}

#[test]
fn single_element_heap_empties() {
    let mut heap = MaxHeap::new();
    heap.add(-2i16);
    assert_eq!(heap.len(), 1);
    assert_eq!(heap.next(), Some(-2));
    assert!(heap.is_empty());
}

#[test]
fn descending_inserts_rise_to_the_root() {
    let mut heap = MinHeap::new();
    for v in (0..1000i64).rev() {
        heap.add(v);
    }
    assert_eq!(heap.len(), 1000);
    for v in 0..1000i64 {
        assert_eq!(heap.next(), Some(v));
    }
    assert_eq!(heap.next(), None);
}

#[test]
fn interleaved_adds_and_extractions() {
    let mut heap = MaxHeap::new();
    heap.add(10u64);
    heap.add(20);
    assert_eq!(heap.next(), Some(20));
    heap.add(15);
    heap.add(5);
    assert_eq!(heap.next(), Some(15));
    heap.add(30);
    assert_eq!(heap.next(), Some(30));
    assert_eq!(heap.next(), Some(10));
    assert_eq!(heap.next(), Some(5));
    assert_eq!(heap.next(), None);
}

#[test]
fn extremes_of_the_value_range() {
    let mut heap = MinHeap::new();
    heap.add(i64::MAX);
    heap.add(i64::MIN);
    heap.add(0);
    assert_eq!(heap.next(), Some(i64::MIN));
    assert_eq!(heap.next(), Some(0));
    assert_eq!(heap.next(), Some(i64::MAX));
}
