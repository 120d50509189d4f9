//! What a collection keeps of the values that the program can reach: every
//! root prints after a collection as it printed before.
use vstd::prelude::*;

use crate::forest_flame::gc::{
    chain_ok, collected, gc_ready, heap_end, is_obj, is_root, lemma_gc_keeps_order, lemma_is_obj_bounds,
    lemma_reaches_snoc, live_words, marks, moved_ref, names_obj, new_pos, next_obj, reached, reaches, roots_moved,
    target, word_of, child, is_ref, lemma_lengths_frame, lemma_live_words_bound, lemma_objects_disjoint,
};
use crate::forest_flame::{items_text, lemma_snek_text_any_fuel, printable, snek_text, value_text};
use crate::memory::Memory;

verus! {

/// A word that a collection keeps track of: a number, nil, a boolean, or a
/// reference to an object reached from the roots.
pub open spec fn kept_value(w: Seq<u64>, start: int, end: int, h: int, s: Seq<u64>, v: u64) -> bool {
    ||| v & 1 == 0
    ||| v == 1
    ||| v == 3
    ||| v == 7
    ||| is_ref(start, end, v) && names_obj(w, start, h, v) && reached(w, start, end, h, s, target(start, v))
}

/// Every word of an object reached from the roots is a number, nil, a
/// boolean, or a reference.
pub open spec fn reached_words_ok(heap: Memory, heap_ptr: u64, stack: Memory) -> bool {
    let w = heap.words@;
    let start = heap.start as int;
    let end = heap_end(heap);
    let h = word_of(heap, heap_ptr as int);
    let s = stack.words@;
    forall|o: int, j: int|
        #![trigger reached(w, start, end, h, s, o), w[j]]
        is_obj(w, 0, h, o) && reached(w, start, end, h, s, o) && o + 2 <= j < next_obj(w, o) ==> {
            ||| w[j] & 1 == 0
            ||| w[j] == 1
            ||| w[j] == 3
            ||| w[j] == 7
            ||| is_ref(start, end, w[j])
        }
}

/// What is known of the heaps before and after a collection, word by word:
/// where each reached object went, and that its words are kept values.
pub open spec fn moved_facts(heap0: Memory, heap1: Memory, h: int, s: Seq<u64>) -> bool {
    let w = heap0.words@;
    let start = heap0.start as int;
    let end = heap_end(heap0);
    &&& heap1.start == heap0.start
    &&& heap1.words@.len() == w.len()
    &&& heap0.start % 8 == 0
    &&& heap0.start > 0
    &&& heap0.below_i64_max()
    &&& 0 <= h <= w.len()
    &&& forall|o: int|
        #![trigger reached(w, start, end, h, s, o)]
        is_obj(w, 0, h, o) && reached(w, start, end, h, s, o) ==> {
            let p = new_pos(w, start, end, h, s, o);
            &&& 0 <= p
            &&& p + (next_obj(w, o) - o) <= h
            &&& o + 2 <= next_obj(w, o) <= h
            &&& heap1.words@[p + 1] == w[o + 1]
            &&& forall|i: int|
                2 <= i < next_obj(w, o) - o ==> #[trigger] heap1.words@[p + i] == moved_ref(w, start, end, h, s, w[o + i])
            &&& forall|i: int|
                2 <= i < next_obj(w, o) - o ==> kept_value(w, start, end, h, s, #[trigger] w[o + i])
        }
    &&& forall|o1: int, o2: int|
        #![trigger reached(w, start, end, h, s, o1), reached(w, start, end, h, s, o2)]
        is_obj(w, 0, h, o1) && reached(w, start, end, h, s, o1) && is_obj(w, 0, h, o2) && reached(
            w,
            start,
            end,
            h,
            s,
            o2,
        ) && o1 != o2 ==> new_pos(w, start, end, h, s, o1) != new_pos(w, start, end, h, s, o2)
}

/// The values as they read after the collection.
pub open spec fn moved_set(w: Seq<u64>, start: int, end: int, h: int, s: Seq<u64>, seen: Set<u64>) -> Set<u64> {
    seen.map(|u: u64| moved_ref(w, start, end, h, s, u))
}

proof fn lemma_moved_ref_facts(heap0: Memory, heap1: Memory, h: int, s: Seq<u64>, v: u64)
    requires
        moved_facts(heap0, heap1, h, s),
        kept_value(heap0.words@, heap0.start as int, heap_end(heap0), h, s, v),
        is_ref(heap0.start as int, heap_end(heap0), v),
    ensures
        ({
            let w = heap0.words@;
            let start = heap0.start as int;
            let end = heap_end(heap0);
            let t = target(start, v);
            let m = moved_ref(w, start, end, h, s, v);
            &&& v == start + 8 * t + 1
            &&& m == start + 8 * new_pos(w, start, end, h, s, t) + 1
            &&& is_obj(w, 0, h, t)
            &&& reached(w, start, end, h, s, t)
            &&& v != 7 && v != 3 && m != 7 && m != 3 && m != 1
            &&& m & 1 == 1
        }),
{
    let w = heap0.words@;
    let start = heap0.start as int;
    let end = heap_end(heap0);
    let t = target(start, v);
    lemma_is_obj_bounds(w, 0, h, t);
    let p = new_pos(w, start, end, h, s, t);
    let m = moved_ref(w, start, end, h, s, v);
    assert(m == start + 8 * p + 1);
    let m8 = m;
    assert(m8 % 8 == 1);
    assert(m8 % 8 == 1 ==> m8 & 1 == 1) by (bit_vector);
}

proof fn lemma_moved_injective(heap0: Memory, heap1: Memory, h: int, s: Seq<u64>, u: u64, v: u64)
    requires
        moved_facts(heap0, heap1, h, s),
        kept_value(heap0.words@, heap0.start as int, heap_end(heap0), h, s, u),
        kept_value(heap0.words@, heap0.start as int, heap_end(heap0), h, s, v),
        moved_ref(heap0.words@, heap0.start as int, heap_end(heap0), h, s, u) == moved_ref(
            heap0.words@,
            heap0.start as int,
            heap_end(heap0),
            h,
            s,
            v,
        ),
    ensures
        u == v,
{
    let w = heap0.words@;
    let start = heap0.start as int;
    let end = heap_end(heap0);
    if is_ref(start, end, u) {
        lemma_moved_ref_facts(heap0, heap1, h, s, u);
    }
    if is_ref(start, end, v) {
        lemma_moved_ref_facts(heap0, heap1, h, s, v);
    }
    if is_ref(start, end, u) && is_ref(start, end, v) {
        let tu = target(start, u);
        let tv = target(start, v);
        if tu != tv {
            assert(new_pos(w, start, end, h, s, tu) != new_pos(w, start, end, h, s, tv));
        }
    }
}

proof fn lemma_value_text_moved(heap0: Memory, heap1: Memory, h: int, s: Seq<u64>, v: u64, seen: Set<u64>, fuel: nat)
    requires
        moved_facts(heap0, heap1, h, s),
        kept_value(heap0.words@, heap0.start as int, heap_end(heap0), h, s, v),
        forall|u: u64| #[trigger] seen.contains(u) ==> kept_value(heap0.words@, heap0.start as int, heap_end(heap0), h, s, u),
    ensures
        value_text(
            heap1,
            moved_ref(heap0.words@, heap0.start as int, heap_end(heap0), h, s, v),
            moved_set(heap0.words@, heap0.start as int, heap_end(heap0), h, s, seen),
            fuel,
        ) == value_text(heap0, v, seen, fuel),
    decreases fuel, 0int,
{
    let w = heap0.words@;
    let start = heap0.start as int;
    let end = heap_end(heap0);
    let m = moved_ref(w, start, end, h, s, v);
    let seen1 = moved_set(w, start, end, h, s, seen);
    assert(v & 1 == 0 ==> v != 7 && v != 3) by (bit_vector);
    if is_ref(start, end, v) {
        lemma_moved_ref_facts(heap0, heap1, h, s, v);
        let t = target(start, v);
        let p = new_pos(w, start, end, h, s, t);
        assert(seen1.contains(m) == seen.contains(v)) by {
            if seen.contains(v) {
                assert(seen1.contains(m));
            }
            if seen1.contains(m) {
                let u = choose|u: u64| seen.contains(u) && moved_ref(w, start, end, h, s, u) == m;
                lemma_moved_injective(heap0, heap1, h, s, u, v);
            }
        }
        if !seen.contains(v) && fuel > 0 {
            let size = w[t + 1] as int;
            assert(heap0.holds(v - 1 + 8));
            assert(heap1.holds(m - 1 + 8));
            assert(heap0.at(v - 1 + 8) == w[t + 1]);
            assert(heap1.at(m - 1 + 8) == heap1.words@[p + 1]);
            let inner = seen.insert(v);
            assert forall|u: u64| #[trigger] inner.contains(u) implies kept_value(w, start, end, h, s, u) by {
            }
            lemma_items_text_moved(heap0, heap1, h, s, t, size, size, inner, (fuel - 1) as nat);
            let f = |u: u64| moved_ref(w, start, end, h, s, u);
            assert forall|x: u64| #[trigger] inner.map(f).contains(x) == seen1.insert(m).contains(x) by {
                if seen1.contains(x) {
                    let u = choose|u: u64| seen.contains(u) && f(u) == x;
                    assert(inner.contains(u));
                }
                if x == m {
                    assert(inner.contains(v) && f(v) == x);
                }
                if inner.map(f).contains(x) {
                    let u = choose|u: u64| inner.contains(u) && f(u) == x;
                    if u != v {
                        assert(seen.contains(u) && f(u) == x);
                    }
                }
            }
            assert(moved_set(w, start, end, h, s, inner) =~= seen1.insert(m));
            assert(v - 1 == start + 8 * t);
            assert(m - 1 == start + 8 * p);
            assert(items_text(heap1, m - 1, size, size, seen1.insert(m), (fuel - 1) as nat) == items_text(
                heap0,
                v - 1,
                size,
                size,
                inner,
                (fuel - 1) as nat,
            ));
            assert(value_text(heap0, v, seen, fuel) == match items_text(heap0, v - 1, size, size, inner, (fuel - 1) as nat) {
                Some(x) => Some("["@ + x + "]"@),
                None => None,
            });
            assert(value_text(heap1, m, seen1, fuel) == match items_text(heap1, m - 1, size, size, seen1.insert(m), (fuel - 1) as nat) {
                Some(x) => Some("["@ + x + "]"@),
                None => None,
            });
        } else if seen.contains(v) {
            assert(value_text(heap0, v, seen, fuel) == Some("[...]"@));
            assert(value_text(heap1, m, seen1, fuel) == Some("[...]"@));
        } else {
            assert(value_text(heap0, v, seen, fuel) is None);
            assert(value_text(heap1, m, seen1, fuel) is None);
        }
    } else {
        assert(v & 1 != 1 ==> v & 1 == 0) by (bit_vector);
        assert(m == v);
    }
}

proof fn lemma_items_text_moved(
    heap0: Memory,
    heap1: Memory,
    h: int,
    s: Seq<u64>,
    t: int,
    size: int,
    count: int,
    seen: Set<u64>,
    fuel: nat,
)
    requires
        moved_facts(heap0, heap1, h, s),
        is_obj(heap0.words@, 0, h, t),
        reached(heap0.words@, heap0.start as int, heap_end(heap0), h, s, t),
        size == heap0.words@[t + 1],
        count <= size,
        forall|u: u64| #[trigger] seen.contains(u) ==> kept_value(heap0.words@, heap0.start as int, heap_end(heap0), h, s, u),
    ensures
        items_text(
            heap1,
            heap0.start + 8 * new_pos(heap0.words@, heap0.start as int, heap_end(heap0), h, s, t),
            size,
            count,
            moved_set(heap0.words@, heap0.start as int, heap_end(heap0), h, s, seen),
            fuel,
        ) == items_text(heap0, heap0.start + 8 * t, size, count, seen, fuel),
    decreases fuel, count + 1,
{
    let w = heap0.words@;
    let start = heap0.start as int;
    let end = heap_end(heap0);
    let p = new_pos(w, start, end, h, s, t);
    lemma_is_obj_bounds(w, 0, h, t);
    if count > 0 {
        let i = count - 1;
        let a0 = start + 8 * t + 8 * (2 + i);
        let a1 = start + 8 * p + 8 * (2 + i);
        assert(heap0.holds(a0));
        assert(heap1.holds(a1));
        assert(heap0.at(a0) == w[t + (2 + i)]);
        assert(heap1.at(a1) == heap1.words@[p + (2 + i)]);
        assert(heap1.words@[p + (2 + i)] == moved_ref(w, start, end, h, s, w[t + (2 + i)]));
        assert(kept_value(w, start, end, h, s, w[t + (2 + i)]));
        lemma_items_text_moved(heap0, heap1, h, s, t, size, count - 1, seen, fuel);
        lemma_value_text_moved(heap0, heap1, h, s, w[t + (2 + i)], seen, fuel);
    }
}

proof fn lemma_moved_facts(heap0: Memory, heap_ptr: u64, stack0: Memory, heap1: Memory, stack1: Memory)
    requires
        gc_ready(heap0, heap_ptr, stack0),
        heap0.start % 8 == 0,
        reached_words_ok(heap0, heap_ptr, stack0),
        collected(heap0, heap_ptr, stack0, heap1, stack1),
    ensures
        moved_facts(heap0, heap1, word_of(heap0, heap_ptr as int), stack0.words@),
{
    let w = heap0.words@;
    let start = heap0.start as int;
    let end = heap_end(heap0);
    let h = word_of(heap0, heap_ptr as int);
    let s = stack0.words@;
    let w1 = marks(w, start, end, h, s);
    assert forall|o: int| #[trigger] is_obj(w, 0, h, o) implies w[o + 1] == w1[o + 1] by {
        lemma_is_obj_bounds(w, 0, h, o);
        if is_obj(w, 0, h, o + 1) {
            lemma_objects_disjoint(w, 0, h, o, o + 1);
        }
    }
    lemma_lengths_frame(w, w1, 0, h);
    lemma_live_words_bound(w1, 0, h, h);
    assert forall|o: int|
        #![trigger reached(w, start, end, h, s, o)]
        is_obj(w, 0, h, o) && reached(w, start, end, h, s, o) implies {
            let p = new_pos(w, start, end, h, s, o);
            &&& 0 <= p
            &&& p + (next_obj(w, o) - o) <= h
            &&& o + 2 <= next_obj(w, o) <= h
            &&& heap1.words@[p + 1] == w[o + 1]
            &&& forall|i: int|
                2 <= i < next_obj(w, o) - o ==> #[trigger] heap1.words@[p + i] == moved_ref(w, start, end, h, s, w[o + i])
            &&& forall|i: int|
                2 <= i < next_obj(w, o) - o ==> kept_value(w, start, end, h, s, #[trigger] w[o + i])
        } by {
        lemma_is_obj_bounds(w, 0, h, o);
        lemma_live_words_bound(w1, 0, h, o);
        lemma_gc_keeps_order(heap0, heap_ptr, stack0, o, o);
        assert forall|i: int| 2 <= i < next_obj(w, o) - o implies kept_value(w, start, end, h, s, #[trigger] w[o + i]) by {
            let j = o + i;
            let v = w[j];
            assert(v & 1 != 1 ==> v & 1 == 0) by (bit_vector);
            assert(o + 2 <= j < next_obj(w, o));
            assert(is_obj(w, 0, h, o) && reached(w, start, end, h, s, o));
            if is_ref(start, end, v) {
                assert(names_obj(w, start, h, w[j]));
                let t = target(start, v);
                lemma_is_obj_bounds(w, 0, h, t);
                assert(is_ref(start, end, v));
                assert(child(w, start, end, h, o, t));
                let n = choose|n: int|
                    0 <= n < s.len() && #[trigger] is_root(start, end, s[n]) && crate::forest_flame::gc::reachable(
                        w,
                        start,
                        end,
                        h,
                        target(start, s[n]),
                        o,
                    );
                let m = choose|m: nat| reaches(w, start, end, h, target(start, s[n]), o, m);
                lemma_reaches_snoc(w, start, end, h, target(start, s[n]), o, t, m);
                assert(reached(w, start, end, h, s, t));
            }
        }
    }
    assert forall|o1: int, o2: int|
        #![trigger reached(w, start, end, h, s, o1), reached(w, start, end, h, s, o2)]
        is_obj(w, 0, h, o1) && reached(w, start, end, h, s, o1) && is_obj(w, 0, h, o2) && reached(
            w,
            start,
            end,
            h,
            s,
            o2,
        ) && o1 != o2 implies new_pos(w, start, end, h, s, o1) != new_pos(w, start, end, h, s, o2) by {
        lemma_is_obj_bounds(w, 0, h, o1);
        lemma_is_obj_bounds(w, 0, h, o2);
        lemma_gc_keeps_order(heap0, heap_ptr, stack0, o1, o2);
        lemma_gc_keeps_order(heap0, heap_ptr, stack0, o2, o1);
    }
}

/// After a collection every root prints as it printed before, at every
/// depth of nesting: the vectors it reaches have moved, but their elements
/// (numbers, nil, booleans and vectors) read the same, and so does each
/// vector met again inside itself.
pub proof fn lemma_gc_keeps_printed_roots(
    heap0: Memory,
    heap_ptr: u64,
    stack0: Memory,
    heap1: Memory,
    stack1: Memory,
    n: int,
)
    requires
        gc_ready(heap0, heap_ptr, stack0),
        heap0.start % 8 == 0,
        reached_words_ok(heap0, heap_ptr, stack0),
        collected(heap0, heap_ptr, stack0, heap1, stack1),
        0 <= n < stack0.words@.len(),
        is_root(heap0.start as int, heap_end(heap0), stack0.words@[n]),
    ensures
        forall|fuel: nat|
            #[trigger] value_text(heap1, stack1.words@[n], Set::empty(), fuel) == value_text(
                heap0,
                stack0.words@[n],
                Set::empty(),
                fuel,
            ),
        printable(heap1, stack1.words@[n], Set::empty()) == printable(heap0, stack0.words@[n], Set::empty()),
        printable(heap0, stack0.words@[n], Set::empty()) ==> snek_text(heap1, stack1.words@[n], Set::empty())
            == snek_text(heap0, stack0.words@[n], Set::empty()),
{
    let w = heap0.words@;
    let start = heap0.start as int;
    let end = heap_end(heap0);
    let h = word_of(heap0, heap_ptr as int);
    let s = stack0.words@;
    let v = s[n];
    lemma_moved_facts(heap0, heap_ptr, stack0, heap1, stack1);
    assert(names_obj(w, start, h, v));
    let t = target(start, v);
    lemma_is_obj_bounds(w, 0, h, t);
    assert(reaches(w, start, end, h, t, t, 0));
    assert(reached(w, start, end, h, s, t));
    assert(v & 3 == 1 ==> v & 1 == 1) by (bit_vector);
    assert(kept_value(w, start, end, h, s, v));
    assert(stack1.words@[n] == roots_moved(w, start, end, h, s)[n]);
    assert(stack1.words@[n] == moved_ref(w, start, end, h, s, v));
    let empty = Set::<u64>::empty();
    assert(moved_set(w, start, end, h, s, empty) =~= empty);
    assert forall|fuel: nat|
        #[trigger] value_text(heap1, stack1.words@[n], empty, fuel) == value_text(heap0, v, empty, fuel) by {
        lemma_value_text_moved(heap0, heap1, h, s, v, empty, fuel);
    }
    let v1 = stack1.words@[n];
    if printable(heap0, v, empty) {
        let c = choose|f: nat| value_text(heap0, v, empty, f) is Some;
        assert(value_text(heap1, v1, empty, c) == value_text(heap0, v, empty, c));
        lemma_snek_text_any_fuel(heap0, v, empty, c);
        lemma_snek_text_any_fuel(heap1, v1, empty, c);
    }
    if printable(heap1, v1, empty) {
        let c = choose|f: nat| value_text(heap1, v1, empty, f) is Some;
        assert(value_text(heap1, v1, empty, c) == value_text(heap0, v, empty, c));
        lemma_snek_text_any_fuel(heap0, v, empty, c);
    }
}

} // verus!
