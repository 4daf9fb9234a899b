use heap::heap::min_max::{
    get_grandparent, get_left_child, get_level, get_parent, get_right_child,
};
use heap::heap::{
    BinaryHeap, FouraryHeap, Heap, HeapError, HeapImpl, HeapTrait, MaxMinHeap, Variant,
};

struct Sequence(u64);

impl Sequence {
    fn next(&mut self) -> u64 {
        self.0 ^= self.0 << 13;
        self.0 ^= self.0 >> 7;
        self.0 ^= self.0 << 17;
        self.0
    }
}

fn filled(values: &[u64]) -> Heap<MaxMinHeap, u64> {
    let mut heap = Heap::<MaxMinHeap, u64>::new(values.len());
    for value in values {
        heap.insert(*value);
    }
    heap
}

fn for_each_permutation(items: &mut Vec<u64>, from: usize, visit: &mut dyn FnMut(&[u64])) {
    if from == items.len() {
        visit(items);
        return;
    }
    for k in from..items.len() {
        items.swap(from, k);
        for_each_permutation(items, from + 1, visit);
        items.swap(from, k);
    }
}

#[test]
fn markers_name_their_variant() {
    assert_eq!(BinaryHeap::variant(), Variant::Binary);
    assert_eq!(FouraryHeap::variant(), Variant::Quaternary);
    assert_eq!(MaxMinHeap::variant(), Variant::MinMax);
}

#[test]
fn parent_is_half_of_predecessor() {
    assert_eq!(get_parent(1), 0);
    assert_eq!(get_parent(2), 0);
    assert_eq!(get_parent(3), 1);
    assert_eq!(get_parent(4), 1);
    assert_eq!(get_parent(5), 2);
    assert_eq!(get_parent(6), 2);
    assert_eq!(get_parent(14), 6);
    assert_eq!(get_parent(usize::MAX), (usize::MAX - 1) / 2);
}

#[test]
fn grandparent_exists_from_index_three() {
    assert_eq!(get_grandparent(0), None);
    assert_eq!(get_grandparent(1), None);
    assert_eq!(get_grandparent(2), None);
    assert_eq!(get_grandparent(3), Some(0));
    assert_eq!(get_grandparent(6), Some(0));
    assert_eq!(get_grandparent(7), Some(1));
    assert_eq!(get_grandparent(10), Some(1));
    assert_eq!(get_grandparent(11), Some(2));
    assert_eq!(get_grandparent(14), Some(2));
    assert_eq!(get_grandparent(15), Some(3));
}

#[test]
fn level_is_binary_logarithm_of_successor() {
    assert_eq!(get_level(0), 0);
    assert_eq!(get_level(1), 1);
    assert_eq!(get_level(2), 1);
    assert_eq!(get_level(3), 2);
    assert_eq!(get_level(6), 2);
    assert_eq!(get_level(7), 3);
    assert_eq!(get_level(14), 3);
    assert_eq!(get_level(15), 4);
    assert_eq!(get_level(1022), 9);
    assert_eq!(get_level(1023), 10);
    assert_eq!(get_level(usize::MAX - 1), usize::BITS as usize - 1);
}

#[test]
fn children_follow_the_doubled_index() {
    assert_eq!(get_left_child(0), 1);
    assert_eq!(get_right_child(0), 2);
    assert_eq!(get_left_child(1), 3);
    assert_eq!(get_right_child(1), 4);
    assert_eq!(get_left_child(6), 13);
    assert_eq!(get_right_child(6), 14);
    assert_eq!(get_parent(get_left_child(21)), 21);
    assert_eq!(get_parent(get_right_child(21)), 21);
}

#[test]
fn min_max_pops_in_descending_order() {
    let mut heap = filled(&[10, 20, 15, 100]);
    assert_eq!(heap.max(), Ok(100));
    assert_eq!(heap.min(), Ok(10));
    assert_eq!(heap.pop(), Ok(100));
    assert_eq!(heap.len(), 3);
    assert_eq!(heap.pop(), Ok(20));
    assert_eq!(heap.len(), 2);
    assert_eq!(heap.pop(), Ok(15));
    assert_eq!(heap.len(), 1);
    assert_eq!(heap.pop(), Ok(10));
    assert_eq!(heap.len(), 0);
    assert_eq!(heap.pop(), Err(HeapError::EmptyContainer));
}

#[test]
fn min_max_pops_min_in_ascending_order() {
    let mut heap = filled(&[10, 20, 15, 100]);
    assert_eq!(heap.pop_min(), Ok(10));
    assert_eq!(heap.len(), 3);
    assert_eq!(heap.pop_min(), Ok(15));
    assert_eq!(heap.pop_min(), Ok(20));
    assert_eq!(heap.pop_min(), Ok(100));
    assert_eq!(heap.len(), 0);
    assert_eq!(heap.pop_min(), Err(HeapError::EmptyContainer));
}

#[test]
fn min_max_single_element_is_both_extremes() {
    let mut heap = filled(&[42]);
    assert_eq!(heap.max(), Ok(42));
    assert_eq!(heap.min(), Ok(42));
    assert_eq!(heap.pop(), Ok(42));
    assert!(heap.is_empty());
    heap.insert(43);
    assert_eq!(heap.pop_min(), Ok(43));
    assert!(heap.is_empty());
}

#[test]
fn min_max_two_and_three_elements() {
    let mut two = filled(&[5, 3]);
    assert_eq!(two.min(), Ok(3));
    assert_eq!(two.max(), Ok(5));
    let mut three = filled(&[5, 3, 9]);
    assert_eq!(three.min(), Ok(3));
    assert_eq!(three.max(), Ok(9));
    let mut mirrored = filled(&[9, 3, 5]);
    assert_eq!(mirrored.min(), Ok(3));
    assert_eq!(mirrored.max(), Ok(9));
}

#[test]
fn empty_min_max_heap_reports_empty_container() {
    let mut heap = Heap::<MaxMinHeap, u64>::new(4);
    assert_eq!(heap.max(), Err(HeapError::EmptyContainer));
    assert_eq!(heap.min(), Err(HeapError::EmptyContainer));
    assert_eq!(heap.pop(), Err(HeapError::EmptyContainer));
    assert_eq!(heap.pop_min(), Err(HeapError::EmptyContainer));
    assert_eq!(heap.len(), 0);
}

#[test]
fn min_max_clear_is_idempotent() {
    let mut heap = filled(&[3, 1, 4, 1, 5, 9, 2, 6]);
    heap.clear();
    assert!(heap.is_empty());
    heap.clear();
    assert!(heap.is_empty());
    assert_eq!(heap.pop(), Err(HeapError::EmptyContainer));
    heap.insert(8);
    assert_eq!(heap.max(), Ok(8));
}

#[test]
fn peeks_match_linear_scan_while_inserting() {
    let mut sequence = Sequence(0x853C_49E6_748F_EA9B);
    let mut heap = Heap::<MaxMinHeap, u64>::new(0);
    let mut values: Vec<u64> = Vec::new();
    for _ in 0..3000 {
        let value = sequence.next() % 10_000;
        heap.insert(value);
        values.push(value);
        let mut smallest = values[0];
        let mut largest = values[0];
        for seen in &values {
            if *seen < smallest {
                smallest = *seen;
            }
            if *seen > largest {
                largest = *seen;
            }
        }
        assert_eq!(heap.min(), Ok(smallest));
        assert_eq!(heap.max(), Ok(largest));
        assert_eq!(heap.len(), values.len());
    }
}

#[test]
fn every_order_of_eight_values_pops_descending() {
    let mut items: Vec<u64> = (0..8).collect();
    for_each_permutation(&mut items, 0, &mut |order| {
        let mut heap = filled(order);
        for expected in (0..8u64).rev() {
            assert_eq!(heap.max(), Ok(expected));
            assert_eq!(heap.min(), Ok(0));
            assert_eq!(heap.pop(), Ok(expected));
        }
        assert!(heap.is_empty());
    });
}

#[test]
fn every_order_of_five_values_pops_min_ascending() {
    let mut items: Vec<u64> = (0..5).collect();
    for_each_permutation(&mut items, 0, &mut |order| {
        let mut heap = filled(order);
        for expected in 0..5u64 {
            assert_eq!(heap.min(), Ok(expected));
            assert_eq!(heap.max(), Ok(4));
            assert_eq!(heap.pop_min(), Ok(expected));
        }
        assert!(heap.is_empty());
    });
}

#[test]
fn ascending_input_drains_in_order_from_either_end() {
    let input: Vec<u64> = (0..200).collect();
    let mut from_top = filled(&input);
    for expected in (0..200u64).rev() {
        assert_eq!(from_top.pop(), Ok(expected));
    }
    assert!(from_top.is_empty());
    let mut from_bottom = filled(&input);
    for expected in 0..200u64 {
        assert_eq!(from_bottom.pop_min(), Ok(expected));
    }
    assert!(from_bottom.is_empty());
}

#[test]
fn descending_input_drains_in_order_from_either_end() {
    let input: Vec<u64> = (0..200).rev().collect();
    let mut from_top = filled(&input);
    for expected in (0..200u64).rev() {
        assert_eq!(from_top.pop(), Ok(expected));
    }
    let mut from_bottom = filled(&input);
    for expected in 0..200u64 {
        assert_eq!(from_bottom.pop_min(), Ok(expected));
    }
}

// The last exchange of a removal does not look at the parent of the place it
// fills. The first removal below leaves 10 under a larger element of a min
// level; from then on the heap is out of order, and the fourth removal
// returns 19 while 20 is still in the heap.
#[test]
fn removal_that_skips_the_parent_loses_the_order() {
    let mut heap = filled(&[19, 28, 14, 20, 11, 10, 13, 27, 22, 1, 9]);
    assert_eq!(heap.as_slice(), &[1, 28, 19, 20, 9, 11, 13, 27, 22, 14, 10]);
    assert_eq!(heap.max(), Ok(28));
    assert_eq!(heap.min(), Ok(1));
    assert_eq!(heap.pop(), Ok(28));
    assert_eq!(heap.as_slice(), &[1, 27, 19, 20, 9, 11, 13, 10, 22, 14]);
    let mut popped = Vec::new();
    while let Ok(value) = heap.pop() {
        popped.push(value);
    }
    assert_eq!(popped, vec![27, 22, 19, 14, 20, 13, 11, 10, 9, 1]);
}

// The same from the other end: the first removal leaves 5 under the 3 of a
// max level, and the fourth returns 4 while 3 is still in the heap.
#[test]
fn removal_of_min_that_skips_the_parent_loses_the_order() {
    let mut heap = filled(&[0, 1, 4, 2, 3, 5, 6]);
    assert_eq!(heap.as_slice(), &[0, 3, 6, 1, 2, 4, 5]);
    assert_eq!(heap.pop_min(), Ok(0));
    assert_eq!(heap.as_slice(), &[1, 3, 6, 5, 2, 4]);
    let mut popped = Vec::new();
    while let Ok(value) = heap.pop_min() {
        popped.push(value);
    }
    assert_eq!(popped, vec![1, 2, 4, 3, 5, 6]);
}

#[test]
fn as_many_pops_as_inserts_leave_min_max_empty() {
    let mut sequence = Sequence(0x1234_5678_9ABC_DEF1);
    let mut heap = Heap::<MaxMinHeap, u64>::new(0);
    let mut sum_in: u128 = 0;
    for _ in 0..1000 {
        let value = sequence.next();
        sum_in += value as u128;
        heap.insert(value);
    }
    assert_eq!(heap.len(), 1000);
    let mut sum_out: u128 = 0;
    for _ in 0..500 {
        sum_out += heap.pop().unwrap() as u128;
        sum_out += heap.pop_min().unwrap() as u128;
    }
    assert!(heap.is_empty());
    assert_eq!(sum_in, sum_out);
    assert_eq!(heap.pop(), Err(HeapError::EmptyContainer));
    assert_eq!(heap.pop_min(), Err(HeapError::EmptyContainer));
}
