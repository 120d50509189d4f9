use snek::forest_flame::gc::{
    snek_gc, snek_gc_compute_forwarding_addresses, snek_gc_get_root, snek_gc_move_objects,
    snek_gc_ready, snek_gc_update_references, snek_gc_update_stack, snek_try_gc,
};
use snek::forest_flame::{snek_str, ErrCode};
use std::collections::HashSet;
use snek::memory::Memory;

const START: u64 = 8000;

fn addr(word: u64) -> u64 {
    START + 8 * word
}

/// Object A at word 0 holds a reference to C and the number 2; object B at
/// word 4 holds 3 and is not reached; object C at word 7 holds nil and a
/// reference back to A. The heap pointer is at word 11.
fn sample_heap() -> Memory {
    let mut words = vec![0, 2, addr(7) + 1, 4, 0, 1, 6, 0, 2, 1, addr(0) + 1];
    words.extend_from_slice(&[77, 78, 79, 80, 81]);
    Memory { start: START, words }
}

fn sample_stack() -> Memory {
    Memory { start: 4000, words: vec![addr(0) + 1, 6, 3] }
}

#[test]
fn gc_get_root_gathers_roots_by_object() {
    let heap = sample_heap();
    let stack = Memory { start: 4000, words: vec![addr(0) + 1, 6, addr(7) + 1, addr(0) + 1] };
    let roots = snek_gc_get_root(&heap, &stack);
    assert_eq!(roots.len(), 2);
    assert_eq!(roots.get(&addr(0)), Some(&vec![4024, 4000]));
    assert_eq!(roots.get(&addr(7)), Some(&vec![4016]));
}

#[test]
fn gc_phases_one_by_one() {
    let mut heap = sample_heap();
    heap.words[0] = 1;
    heap.words[7] = 1;
    snek_gc_compute_forwarding_addresses(&mut heap, addr(11));
    assert_eq!(heap.words[0], addr(0));
    assert_eq!(heap.words[4], 0);
    assert_eq!(heap.words[7], addr(4));
    snek_gc_update_references(&mut heap, addr(11));
    assert_eq!(heap.words[2], addr(4) + 1);
    assert_eq!(heap.words[10], addr(0) + 1);
    assert_eq!(heap.words[6], 6);
    let mut stack = sample_stack();
    let roots = snek_gc_get_root(&heap, &stack);
    snek_gc_update_stack(&mut stack, roots, &heap);
    assert_eq!(stack.words, vec![addr(0) + 1, 6, 3]);
    let before = heap.words.clone();
    let new_ptr = snek_gc_move_objects(&mut heap, addr(11));
    assert_eq!(new_ptr, addr(8));
    assert_eq!(&heap.words[0..8], &[0, 2, addr(4) + 1, 4, 0, 2, 1, addr(0) + 1]);
    assert_eq!(&heap.words[8..], &before[8..]);
}

#[test]
fn gc_keeps_what_the_roots_reach() {
    let mut heap = sample_heap();
    let mut stack = sample_stack();
    let new_ptr = snek_gc(&mut heap, addr(11), &mut stack);
    assert_eq!(new_ptr, addr(8));
    assert_eq!(&heap.words[0..8], &[0, 2, addr(4) + 1, 4, 0, 2, 1, addr(0) + 1]);
    assert_eq!(&heap.words[8..11], &[2, 1, addr(0) + 1]);
    assert_eq!(&heap.words[11..], &[77, 78, 79, 80, 81]);
    assert_eq!(stack.words, vec![addr(0) + 1, 6, 3]);
}

#[test]
fn gc_moves_roots_with_their_objects() {
    // Only C is a root; A is reached through it and B is not.
    let mut heap = sample_heap();
    heap.words[2] = 8;
    let mut stack = Memory { start: 4000, words: vec![5, addr(7) + 1] };
    let new_ptr = snek_gc(&mut heap, addr(11), &mut stack);
    assert_eq!(new_ptr, addr(8));
    assert_eq!(&heap.words[0..8], &[0, 2, 8, 4, 0, 2, 1, addr(0) + 1]);
    assert_eq!(stack.words, vec![5, addr(4) + 1]);
}

#[test]
fn gc_with_no_roots_empties_the_heap() {
    let mut heap = sample_heap();
    let mut stack = Memory { start: 4000, words: vec![4, 3, 7] };
    assert_eq!(snek_gc(&mut heap, addr(11), &mut stack), START);
    assert_eq!(stack.words, vec![4, 3, 7]);
}

#[test]
fn try_gc_gives_room_or_out_of_memory() {
    let mut heap = sample_heap();
    let mut stack = sample_stack();
    assert_eq!(snek_try_gc(8, &mut heap, addr(11), &mut stack), Ok(addr(8)));
    let mut heap = sample_heap();
    let mut stack = sample_stack();
    assert_eq!(snek_try_gc(9, &mut heap, addr(11), &mut stack), Err(ErrCode::OutOfMemory));
}

#[test]
fn gc_keeps_printed_roots() {
    let mut heap = sample_heap();
    let mut stack = Memory { start: 4000, words: vec![addr(7) + 1, addr(0) + 1] };
    let before_a = snek_str(addr(0) + 1, &mut HashSet::new(), &heap);
    let before_c = snek_str(addr(7) + 1, &mut HashSet::new(), &heap);
    assert_eq!(before_a, "[[nil, [...]], 2]");
    assert_eq!(before_c, "[nil, [[...], 2]]");
    snek_gc(&mut heap, addr(11), &mut stack);
    assert_eq!(stack.words, vec![addr(4) + 1, addr(0) + 1]);
    assert_eq!(snek_str(stack.words[1], &mut HashSet::new(), &heap), before_a);
    assert_eq!(snek_str(stack.words[0], &mut HashSet::new(), &heap), before_c);
}

#[test]
fn gc_keeps_booleans_in_live_vectors() {
    // A holds a reference to C and true; C holds false and a reference to A.
    let mut heap = Memory { start: START, words: vec![0, 2, addr(7) + 1, 7, 0, 1, 6, 0, 2, 3, addr(0) + 1, 99] };
    let mut stack = Memory { start: 4000, words: vec![addr(7) + 1] };
    let before = snek_str(addr(7) + 1, &mut HashSet::new(), &heap);
    assert_eq!(before, "[false, [[...], true]]");
    let new_ptr = snek_gc(&mut heap, addr(11), &mut stack);
    assert_eq!(new_ptr, addr(8));
    assert_eq!(&heap.words[0..8], &[0, 2, addr(4) + 1, 7, 0, 2, 3, addr(0) + 1]);
    assert_eq!(stack.words, vec![addr(4) + 1]);
    assert_eq!(snek_str(stack.words[0], &mut HashSet::new(), &heap), before);
}

#[test]
fn gc_ready_tells_collectable_heaps() {
    assert!(snek_gc_ready(&sample_heap(), addr(11), &sample_stack()));
    // The heap pointer cuts object C in two.
    assert!(!snek_gc_ready(&sample_heap(), addr(10), &sample_stack()));
    // A gc word that is not clear.
    let mut heap = sample_heap();
    heap.words[4] = 1;
    assert!(!snek_gc_ready(&heap, addr(11), &sample_stack()));
    // A reference into the middle of an object.
    let mut heap = sample_heap();
    heap.words[2] = addr(1) + 1;
    assert!(!snek_gc_ready(&heap, addr(11), &sample_stack()));
    // A root that names no object.
    let stack = Memory { start: 4000, words: vec![addr(2) + 1] };
    assert!(!snek_gc_ready(&sample_heap(), addr(11), &stack));
    // Booleans in live vectors are fine.
    let heap = Memory { start: START, words: vec![0, 2, 7, 3] };
    assert!(snek_gc_ready(&heap, addr(4), &Memory { start: 4000, words: vec![addr(0) + 1] }));
}
