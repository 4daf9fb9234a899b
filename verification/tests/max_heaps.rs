use heap::heap::{BinaryHeap, FouraryHeap, Heap, HeapError, HeapTrait};
use std::collections::BinaryHeap as Reference;

const TEST_SIZE: usize = 100_000;

struct Random(u64);

impl Random {
    fn next_u64(&mut self) -> u64 {
        self.0 ^= self.0 << 13;
        self.0 ^= self.0 >> 7;
        self.0 ^= self.0 << 17;
        self.0
    }

    fn next_f64(&mut self) -> f64 {
        (self.next_u64() >> 11) as f64 / (1u64 << 53) as f64
    }
}

fn drain<H: HeapTrait<u64>>(heap: &mut H, count: usize) -> Vec<u64> {
    let mut out = Vec::with_capacity(count);
    for _ in 0..count {
        out.push(heap.pop().unwrap());
    }
    out
}

#[test]
fn binary_pops_in_descending_order() {
    let mut heap = Heap::<BinaryHeap, u64>::new(4);
    for value in [10u64, 20, 15, 100] {
        heap.insert(value);
    }
    assert_eq!(heap.max(), Ok(100));
    assert_eq!(heap.pop(), Ok(100));
    assert_eq!(heap.len(), 3);
    assert_eq!(heap.pop(), Ok(20));
    assert_eq!(heap.len(), 2);
    assert_eq!(heap.pop(), Ok(15));
    assert_eq!(heap.len(), 1);
    assert_eq!(heap.pop(), Ok(10));
    assert_eq!(heap.len(), 0);
    assert_eq!(heap.pop(), Err(HeapError::EmptyContainer));
}

#[test]
fn fourary_pops_in_descending_order() {
    let mut heap = Heap::<FouraryHeap, u64>::new(4);
    for value in [10u64, 20, 15, 100] {
        heap.insert(value);
    }
    assert_eq!(heap.max(), Ok(100));
    assert_eq!(heap.pop(), Ok(100));
    assert_eq!(heap.len(), 3);
    assert_eq!(heap.pop(), Ok(20));
    assert_eq!(heap.len(), 2);
    assert_eq!(heap.pop(), Ok(15));
    assert_eq!(heap.len(), 1);
    assert_eq!(heap.pop(), Ok(10));
    assert_eq!(heap.len(), 0);
    assert_eq!(heap.pop(), Err(HeapError::EmptyContainer));
}

#[test]
fn binary_single_element() {
    let mut heap = Heap::<BinaryHeap, u64>::new(0);
    heap.insert(7);
    assert_eq!(heap.max(), Ok(7));
    assert_eq!(heap.len(), 1);
    assert_eq!(heap.pop(), Ok(7));
    assert!(heap.is_empty());
}

#[test]
fn fourary_single_element() {
    let mut heap = Heap::<FouraryHeap, u64>::new(0);
    heap.insert(7);
    assert_eq!(heap.max(), Ok(7));
    assert_eq!(heap.len(), 1);
    assert_eq!(heap.pop(), Ok(7));
    assert!(heap.is_empty());
}

#[test]
fn empty_heaps_report_empty_container() {
    let mut binary = Heap::<BinaryHeap, i32>::new(8);
    assert_eq!(binary.max(), Err(HeapError::EmptyContainer));
    assert_eq!(binary.pop(), Err(HeapError::EmptyContainer));
    assert_eq!(binary.len(), 0);
    assert!(binary.is_empty());
    let mut fourary = Heap::<FouraryHeap, i32>::new(8);
    assert_eq!(fourary.max(), Err(HeapError::EmptyContainer));
    assert_eq!(fourary.pop(), Err(HeapError::EmptyContainer));
    assert_eq!(fourary.len(), 0);
    assert!(fourary.is_empty());
}

#[test]
fn failed_pop_leaves_heap_usable() {
    let mut heap = Heap::<BinaryHeap, u64>::new(1);
    assert_eq!(heap.pop(), Err(HeapError::EmptyContainer));
    heap.insert(3);
    heap.insert(5);
    assert_eq!(heap.pop(), Ok(5));
    assert_eq!(heap.pop(), Ok(3));
    assert_eq!(heap.pop(), Err(HeapError::EmptyContainer));
}

#[test]
fn heap_grows_beyond_initial_capacity() {
    let mut heap = Heap::<FouraryHeap, u64>::new(2);
    for value in 0..1000u64 {
        heap.insert(value);
    }
    assert_eq!(heap.len(), 1000);
    assert_eq!(heap.max(), Ok(999));
}

#[test]
fn clear_empties_and_is_idempotent() {
    let mut heap = Heap::<BinaryHeap, u64>::new(16);
    for value in [4u64, 8, 15, 16, 23, 42] {
        heap.insert(value);
    }
    heap.clear();
    assert_eq!(heap.len(), 0);
    assert_eq!(heap.pop(), Err(HeapError::EmptyContainer));
    heap.clear();
    assert_eq!(heap.len(), 0);
    assert_eq!(heap.max(), Err(HeapError::EmptyContainer));
    let mut fresh = Heap::<FouraryHeap, u64>::new(0);
    fresh.clear();
    assert!(fresh.is_empty());
}

#[test]
fn cleared_heap_can_be_filled_again() {
    let mut heap = Heap::<FouraryHeap, u64>::new(4);
    for value in [9u64, 1, 5] {
        heap.insert(value);
    }
    heap.clear();
    for value in [2u64, 7, 3] {
        heap.insert(value);
    }
    assert_eq!(drain(&mut heap, 3), vec![7, 3, 2]);
}

#[test]
fn as_many_pops_as_inserts_leave_binary_empty() {
    let mut random = Random(0x9E37_79B9_7F4A_7C15);
    let mut heap = Heap::<BinaryHeap, u64>::new(0);
    for _ in 0..1000 {
        heap.insert(random.next_u64());
    }
    assert_eq!(heap.len(), 1000);
    for _ in 0..1000 {
        assert!(heap.pop().is_ok());
    }
    assert!(heap.is_empty());
    assert_eq!(heap.pop(), Err(HeapError::EmptyContainer));
}

#[test]
fn as_many_pops_as_inserts_leave_fourary_empty() {
    let mut random = Random(0x9E37_79B9_7F4A_7C15);
    let mut heap = Heap::<FouraryHeap, u64>::new(0);
    for _ in 0..1000 {
        heap.insert(random.next_u64());
    }
    assert_eq!(heap.len(), 1000);
    for _ in 0..1000 {
        assert!(heap.pop().is_ok());
    }
    assert!(heap.is_empty());
    assert_eq!(heap.pop(), Err(HeapError::EmptyContainer));
}

#[test]
fn both_max_heaps_sort_the_same_input() {
    let input: Vec<u64> = vec![5, 3, 9, 9, 1, 0, 7, 3, 12, 8, 8, 8, 2, 11, 6, 4, 10, 5, 1, 9];
    let mut expected = input.clone();
    expected.sort();
    expected.reverse();
    let mut binary = Heap::<BinaryHeap, u64>::new(input.len());
    let mut fourary = Heap::<FouraryHeap, u64>::new(input.len());
    for value in &input {
        binary.insert(*value);
        fourary.insert(*value);
    }
    let from_binary = drain(&mut binary, input.len());
    let from_fourary = drain(&mut fourary, input.len());
    assert_eq!(from_binary, expected);
    assert_eq!(from_fourary, expected);
    assert_eq!(
        expected,
        vec![12, 11, 10, 9, 9, 9, 8, 8, 8, 7, 6, 5, 5, 4, 3, 3, 2, 1, 1, 0]
    );
}

#[test]
fn equal_values_all_come_out() {
    let mut binary = Heap::<BinaryHeap, u8>::new(0);
    let mut fourary = Heap::<FouraryHeap, u8>::new(0);
    for _ in 0..50 {
        binary.insert(3);
        fourary.insert(3);
    }
    for _ in 0..50 {
        assert_eq!(binary.pop(), Ok(3));
        assert_eq!(fourary.pop(), Ok(3));
    }
    assert!(binary.is_empty());
    assert!(fourary.is_empty());
}

#[test]
fn sorted_inputs_come_out_descending() {
    let mut binary = Heap::<BinaryHeap, i64>::new(0);
    let mut fourary = Heap::<FouraryHeap, i64>::new(0);
    for value in -100..100i64 {
        binary.insert(value);
        fourary.insert(-value);
    }
    for expected in (-100..100i64).rev() {
        assert_eq!(binary.pop(), Ok(expected));
    }
    for expected in (-99..=100i64).rev() {
        assert_eq!(fourary.pop(), Ok(expected));
    }
}

#[test]
fn binary_matches_reference_on_random_u64() {
    let mut random = Random(0x2545_F491_4F6C_DD1D);
    let mut heap = Heap::<BinaryHeap, u64>::new(TEST_SIZE);
    let mut reference = Reference::new();
    for _ in 0..TEST_SIZE {
        let value = random.next_u64();
        heap.insert(value);
        reference.push(value);
        assert_eq!(heap.max().unwrap(), *reference.peek().unwrap());
    }
    for _ in 0..TEST_SIZE - 1 {
        assert_eq!(heap.max().unwrap(), *reference.peek().unwrap());
        assert_eq!(heap.pop().unwrap(), reference.pop().unwrap());
        assert_eq!(heap.max().unwrap(), *reference.peek().unwrap());
    }
    assert_eq!(heap.pop().unwrap(), reference.pop().unwrap());
    assert!(heap.is_empty());
}

#[test]
fn fourary_matches_reference_on_random_u64() {
    let mut random = Random(0x2545_F491_4F6C_DD1D);
    let mut heap = Heap::<FouraryHeap, u64>::new(TEST_SIZE);
    let mut reference = Reference::new();
    for _ in 0..TEST_SIZE {
        let value = random.next_u64();
        heap.insert(value);
        reference.push(value);
        assert_eq!(heap.max().unwrap(), *reference.peek().unwrap());
    }
    for _ in 0..TEST_SIZE - 1 {
        assert_eq!(heap.max().unwrap(), *reference.peek().unwrap());
        assert_eq!(heap.pop().unwrap(), reference.pop().unwrap());
        assert_eq!(heap.max().unwrap(), *reference.peek().unwrap());
    }
    assert_eq!(heap.pop().unwrap(), reference.pop().unwrap());
    assert!(heap.is_empty());
}

#[test]
fn binary_matches_sorted_random_f64() {
    let mut random = Random(0x0123_4567_89AB_CDEF);
    let mut heap = Heap::<BinaryHeap, f64>::new(TEST_SIZE);
    let mut values = Vec::with_capacity(TEST_SIZE);
    let mut largest = f64::MIN;
    for _ in 0..TEST_SIZE {
        let value = random.next_f64();
        heap.insert(value);
        values.push(value);
        if value > largest {
            largest = value;
        }
        assert_eq!(heap.max(), Ok(largest));
    }
    values.sort_by(|a, b| b.partial_cmp(a).unwrap());
    for expected in values {
        assert_eq!(heap.max(), Ok(expected));
        assert_eq!(heap.pop(), Ok(expected));
    }
    assert!(heap.is_empty());
}

#[test]
fn fourary_matches_sorted_random_f64() {
    let mut random = Random(0x0123_4567_89AB_CDEF);
    let mut heap = Heap::<FouraryHeap, f64>::new(TEST_SIZE);
    let mut values = Vec::with_capacity(TEST_SIZE);
    let mut largest = f64::MIN;
    for _ in 0..TEST_SIZE {
        let value = random.next_f64();
        heap.insert(value);
        values.push(value);
        if value > largest {
            largest = value;
        }
        assert_eq!(heap.max(), Ok(largest));
    }
    values.sort_by(|a, b| b.partial_cmp(a).unwrap());
    for expected in values {
        assert_eq!(heap.max(), Ok(expected));
        assert_eq!(heap.pop(), Ok(expected));
    }
    assert!(heap.is_empty());
}

#[test]
fn interleaved_inserts_and_pops_match_reference() {
    let mut random = Random(0xDEAD_BEEF_CAFE_F00D);
    let mut binary = Heap::<BinaryHeap, u64>::new(0);
    let mut fourary = Heap::<FouraryHeap, u64>::new(0);
    let mut reference = Reference::new();
    for _ in 0..20_000 {
        let roll = random.next_u64();
        if roll % 3 == 0 {
            let expected = reference.pop().ok_or(HeapError::EmptyContainer);
            assert_eq!(binary.pop(), expected);
            assert_eq!(fourary.pop(), expected);
        } else {
            let value = roll % 1000;
            binary.insert(value);
            fourary.insert(value);
            reference.push(value);
        }
        assert_eq!(binary.len(), reference.len());
        assert_eq!(fourary.len(), reference.len());
        let top = reference.peek().copied().ok_or(HeapError::EmptyContainer);
        assert_eq!(binary.max(), top);
        assert_eq!(fourary.max(), top);
    }
}
