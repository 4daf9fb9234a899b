use heap::heap::{BinaryHeap, FouraryHeap, Heap, HeapTrait, MaxMinHeap};

const INPUT: [u64; 20] = [5, 3, 9, 9, 1, 0, 7, 3, 12, 8, 8, 8, 2, 11, 6, 4, 10, 5, 1, 9];

#[derive(Clone, Copy, Debug)]
struct Tagged {
    key: u32,
    tag: u32,
}

impl PartialEq for Tagged {
    fn eq(&self, other: &Self) -> bool {
        self.key == other.key
    }
}

impl PartialOrd for Tagged {
    fn partial_cmp(&self, other: &Self) -> Option<std::cmp::Ordering> {
        self.key.partial_cmp(&other.key)
    }
}

struct Sequence(u64);

impl Sequence {
    fn next(&mut self) -> u64 {
        self.0 ^= self.0 << 13;
        self.0 ^= self.0 >> 7;
        self.0 ^= self.0 << 17;
        self.0
    }
}

fn is_max_heap(elements: &[u64], arity: usize) -> bool {
    (1..elements.len()).all(|child| elements[child] <= elements[(child - 1) / arity])
}

fn level(index: usize) -> u32 {
    (index + 1).ilog2()
}

fn is_min_max_heap(elements: &[u64]) -> bool {
    for descendant in 1..elements.len() {
        let mut ancestor = descendant;
        while ancestor > 0 {
            ancestor = (ancestor - 1) / 2;
            let in_order = if level(ancestor) % 2 == 0 {
                elements[ancestor] <= elements[descendant]
            } else {
                elements[ancestor] >= elements[descendant]
            };
            if !in_order {
                return false;
            }
        }
    }
    true
}

fn tags(elements: &[Tagged]) -> Vec<u32> {
    elements.iter().map(|element| element.tag).collect()
}

#[test]
fn binary_layout_after_inserts_and_pops() {
    let mut heap = Heap::<BinaryHeap, u64>::new(0);
    for value in [10u64, 20, 15, 100] {
        heap.insert(value);
    }
    assert_eq!(heap.as_slice(), &[100, 20, 15, 10]);
    assert_eq!(heap.pop(), Ok(100));
    assert_eq!(heap.as_slice(), &[20, 10, 15]);
    let mut larger = Heap::<BinaryHeap, u64>::new(INPUT.len());
    for value in INPUT {
        larger.insert(value);
    }
    assert_eq!(
        larger.as_slice(),
        &[12, 10, 11, 9, 9, 7, 8, 9, 5, 8, 8, 0, 2, 5, 6, 3, 4, 3, 1, 1]
    );
    assert_eq!(larger.pop(), Ok(12));
    assert_eq!(larger.pop(), Ok(11));
    assert_eq!(larger.pop(), Ok(10));
    assert_eq!(
        larger.as_slice(),
        &[9, 9, 8, 5, 9, 7, 6, 4, 3, 8, 8, 0, 2, 5, 1, 3, 1]
    );
}

#[test]
fn fourary_layout_after_inserts_and_pops() {
    let mut heap = Heap::<FouraryHeap, u64>::new(0);
    for value in [10u64, 20, 15, 100] {
        heap.insert(value);
    }
    assert_eq!(heap.as_slice(), &[100, 10, 15, 20]);
    assert_eq!(heap.pop(), Ok(100));
    assert_eq!(heap.as_slice(), &[20, 10, 15]);
    let mut larger = Heap::<FouraryHeap, u64>::new(INPUT.len());
    for value in INPUT {
        larger.insert(value);
    }
    assert_eq!(
        larger.as_slice(),
        &[12, 9, 8, 11, 9, 0, 3, 3, 7, 5, 8, 8, 2, 9, 6, 4, 10, 1, 1, 5]
    );
    assert_eq!(larger.pop(), Ok(12));
    assert_eq!(larger.pop(), Ok(11));
    assert_eq!(larger.pop(), Ok(10));
    assert_eq!(
        larger.as_slice(),
        &[9, 7, 8, 9, 9, 0, 3, 3, 1, 5, 8, 8, 2, 1, 6, 4, 5]
    );
}

#[test]
fn min_max_layout_after_inserts_and_pop() {
    let mut heap = Heap::<MaxMinHeap, u64>::new(0);
    for value in [10u64, 20, 15, 100] {
        heap.insert(value);
    }
    assert_eq!(heap.as_slice(), &[10, 100, 15, 20]);
    assert_eq!(heap.pop(), Ok(100));
    assert_eq!(heap.as_slice(), &[10, 20, 15]);
}

#[test]
fn new_and_cleared_heaps_have_empty_layout() {
    let mut heap = Heap::<MaxMinHeap, u64>::new(32);
    assert!(heap.as_slice().is_empty());
    heap.insert(1);
    heap.insert(2);
    heap.clear();
    assert!(heap.as_slice().is_empty());
}

#[test]
fn equal_keys_never_change_places_in_binary() {
    let mut heap = Heap::<BinaryHeap, Tagged>::new(0);
    for tag in 0..6 {
        heap.insert(Tagged { key: 5, tag });
    }
    assert_eq!(tags(heap.as_slice()), vec![0, 1, 2, 3, 4, 5]);
    let mut popped = Vec::new();
    while let Ok(element) = heap.pop() {
        popped.push(element.tag);
    }
    assert_eq!(popped, vec![0, 5, 4, 3, 2, 1]);
}

#[test]
fn equal_keys_never_change_places_in_fourary() {
    let mut heap = Heap::<FouraryHeap, Tagged>::new(0);
    for tag in 0..6 {
        heap.insert(Tagged { key: 5, tag });
    }
    assert_eq!(tags(heap.as_slice()), vec![0, 1, 2, 3, 4, 5]);
    let mut popped = Vec::new();
    while let Ok(element) = heap.pop() {
        popped.push(element.tag);
    }
    assert_eq!(popped, vec![0, 5, 4, 3, 2, 1]);
}

#[test]
fn equal_keys_never_change_places_in_min_max() {
    let mut heap = Heap::<MaxMinHeap, Tagged>::new(0);
    for tag in 0..8 {
        heap.insert(Tagged { key: 5, tag });
    }
    assert_eq!(tags(heap.as_slice()), vec![0, 1, 2, 3, 4, 5, 6, 7]);
    assert_eq!(heap.max().map(|element| element.tag), Ok(1));
    assert_eq!(heap.min().map(|element| element.tag), Ok(0));
    assert_eq!(heap.pop().map(|element| element.tag), Ok(1));
    assert_eq!(tags(heap.as_slice()), vec![0, 7, 2, 3, 4, 5, 6]);
    assert_eq!(heap.pop_min().map(|element| element.tag), Ok(0));
    assert_eq!(tags(heap.as_slice()), vec![6, 7, 2, 3, 4, 5]);
}

#[test]
fn max_heaps_keep_the_heap_order() {
    let mut sequence = Sequence(0xA5A5_5A5A_1234_4321);
    let mut binary = Heap::<BinaryHeap, u64>::new(0);
    let mut fourary = Heap::<FouraryHeap, u64>::new(0);
    for _ in 0..5000 {
        let roll = sequence.next();
        if roll % 4 == 0 {
            let from_binary = binary.pop();
            let from_fourary = fourary.pop();
            assert_eq!(from_binary, from_fourary);
        } else {
            binary.insert(roll % 500);
            fourary.insert(roll % 500);
        }
        assert!(is_max_heap(binary.as_slice(), 2));
        assert!(is_max_heap(fourary.as_slice(), 4));
    }
}

#[test]
fn min_max_heap_keeps_the_order_under_inserts() {
    let mut sequence = Sequence(0x0F0F_F0F0_9876_6789);
    let mut heap = Heap::<MaxMinHeap, u64>::new(0);
    for _ in 0..2000 {
        heap.insert(sequence.next() % 500);
        assert!(is_min_max_heap(heap.as_slice()));
    }
}

#[test]
fn min_max_heap_keeps_the_order_below_ten_elements() {
    let mut sequence = Sequence(0x1357_9BDF_0246_8ACE);
    let mut heap = Heap::<MaxMinHeap, u64>::new(0);
    for _ in 0..5000 {
        let roll = sequence.next();
        if heap.len() == 9 || (roll % 3 == 0 && !heap.is_empty()) {
            let largest = *heap.as_slice().iter().max().unwrap();
            assert_eq!(heap.pop(), Ok(largest));
        } else {
            heap.insert(roll % 50);
        }
        assert!(is_min_max_heap(heap.as_slice()));
    }
}

#[test]
fn min_max_removal_can_leave_the_order() {
    let mut heap = Heap::<MaxMinHeap, u64>::new(0);
    for value in [19u64, 28, 14, 20, 11, 10, 13, 27, 22, 1, 9] {
        heap.insert(value);
    }
    assert!(is_min_max_heap(heap.as_slice()));
    assert_eq!(heap.pop(), Ok(28));
    assert!(!is_min_max_heap(heap.as_slice()));
    assert_eq!(heap.as_slice()[7], 10);
    assert_eq!(heap.as_slice()[3], 20);
}
