//! The Forest Flame garbage collector: a mark and compact collector over
//! the heap words.
//!
//! An object of the heap is a gc word, a length word and that many element
//! words; the objects lie one after the other from the heap's first word up
//! to the heap pointer. A word that is odd and lies within the heap's bounds
//! refers to the object whose address is one below it.
use vstd::prelude::*;
use vstd::std_specs::iter::IteratorSpec;

use crate::forest_flame::ErrCode;
use crate::memory::Memory;
use std::collections::HashMap;
use std::collections::HashSet;

verus! {

broadcast use vstd::std_specs::hash::group_hash_axioms;

/// The word just past the object at word `k`.
pub open spec fn next_obj(w: Seq<u64>, k: int) -> int {
    k + 2 + w[k + 1]
}

/// From word `k` on, up to word `h`, the words are whole objects one after
/// the other.
pub open spec fn chain_ok(w: Seq<u64>, k: int, h: int) -> bool
    decreases h - k,
{
    if k < h {
        next_obj(w, k) <= h && chain_ok(w, next_obj(w, k), h)
    } else {
        k == h
    }
}

/// Word `o` is the start of one of the objects from word `k` on, up to word
/// `h`.
pub open spec fn is_obj(w: Seq<u64>, k: int, h: int, o: int) -> bool
    decreases h - k,
{
    if k < h && next_obj(w, k) <= h {
        o == k || is_obj(w, next_obj(w, k), h, o)
    } else {
        false
    }
}

/// The number of words that the live objects (those with a gc word other
/// than 0) take from word `k` on, before word `o`.
pub open spec fn live_words(w: Seq<u64>, k: int, h: int, o: int) -> int
    decreases h - k,
{
    if k < o && k < h && next_obj(w, k) <= h {
        (if w[k] != 0 {
            next_obj(w, k) - k
        } else {
            0
        }) + live_words(w, next_obj(w, k), h, o)
    } else {
        0
    }
}

/// The word index of a byte address in the heap.
pub open spec fn word_of(heap: Memory, addr: int) -> int {
    (addr - heap.start) / 8
}

/// The heap below `heap_ptr` is a run of whole objects, and the heap lies
/// below the largest `i64`.
pub open spec fn heap_ok(heap: Memory, heap_ptr: u64) -> bool {
    &&& heap.below_i64_max()
    &&& heap.start <= heap_ptr
    &&& (heap_ptr - heap.start) % 8 == 0
    &&& word_of(heap, heap_ptr as int) <= heap.words@.len()
    &&& chain_ok(heap.words@, 0, word_of(heap, heap_ptr as int))
}

/// The words after the forwarding addresses are computed: the gc word of
/// each live object holds the address to which it will move, the heap's
/// start plus the words of the live objects before it.
pub open spec fn forwarded(w: Seq<u64>, start: int, h: int) -> Seq<u64> {
    Seq::new(
        w.len(),
        |j: int|
            if is_obj(w, 0, h, j) && w[j] != 0 {
                (start + 8 * live_words(w, 0, h, j)) as u64
            } else {
                w[j]
            },
    )
}

pub proof fn lemma_is_obj_bounds(w: Seq<u64>, k: int, h: int, o: int)
    requires
        is_obj(w, k, h, o),
    ensures
        k <= o,
        o + 2 <= next_obj(w, o) <= h,
    decreases h - k,
{
    if o != k {
        lemma_is_obj_bounds(w, next_obj(w, k), h, o);
    }
}

/// Two objects of a chain do not overlap.
pub proof fn lemma_objects_disjoint(w: Seq<u64>, k: int, h: int, o1: int, o2: int)
    requires
        is_obj(w, k, h, o1),
        is_obj(w, k, h, o2),
        o1 < o2,
    ensures
        next_obj(w, o1) <= o2,
    decreases h - k,
{
    if o1 == k {
        lemma_is_obj_bounds(w, next_obj(w, k), h, o2);
    } else {
        lemma_is_obj_bounds(w, k, h, o1);
        lemma_objects_disjoint(w, next_obj(w, k), h, o1, o2);
    }
}

/// Writes into each live object's gc word the address to which the object
/// will move.
pub fn snek_gc_compute_forwarding_addresses(heap: &mut Memory, heap_ptr: u64)
    requires
        heap_ok(*old(heap), heap_ptr),
    ensures
        final(heap).start == old(heap).start,
        final(heap).words@ == forwarded(
            old(heap).words@,
            old(heap).start as int,
            word_of(*old(heap), heap_ptr as int),
        ),
{
    let ghost w = heap.words@;
    let ghost start = heap.start as int;
    let d: u64 = (heap_ptr - heap.start) / 8;
    assert(d == word_of(*old(heap), heap_ptr as int));
    assert(d <= heap.words.len());
    let h: usize = d as usize;
    let mut k: usize = 0;
    let mut new: usize = 0;
    while k < h
        invariant
            heap.start == start,
            heap.below_i64_max(),
            heap.words@.len() == w.len(),
            h == word_of(*old(heap), heap_ptr as int),
            h <= w.len(),
            new <= k <= h,
            chain_ok(w, k as int, h as int),
            forall|j: int| k <= j < w.len() ==> heap.words@[j] == w[j],
            forall|j: int| 0 <= j < k ==> heap.words@[j] == #[trigger] forwarded(w, start, h as int)[j],
            forall|j: int| k <= j ==> is_obj(w, 0, h as int, j) == #[trigger] is_obj(w, k as int, h as int, j),
            forall|j: int|
                k <= j && #[trigger] is_obj(w, k as int, h as int, j) ==> live_words(w, 0, h as int, j)
                    == new + live_words(w, k as int, h as int, j),
            is_obj(w, k as int, h as int, k as int) ==> live_words(w, 0, h as int, k as int) == new,
        decreases h - k,
    {
        let length = heap.words[k + 1];
        let n = k + 2 + length as usize;
        assert(n == next_obj(w, k as int));
        assert(is_obj(w, k as int, h as int, k as int));
        assert(is_obj(w, 0, h as int, k as int));
        let ghost before = new;
        if heap.words[k] != 0 {
            heap.words[k] = heap.start + 8 * (new as u64);
            new = new + 2 + length as usize;
        }
        proof {
            assert forall|j: int| k <= j < n implies heap.words@[j] == #[trigger] forwarded(
                w,
                start,
                h as int,
            )[j] by {
                assert(is_obj(w, 0, h as int, j) == is_obj(w, k as int, h as int, j));
                if j > k && is_obj(w, n as int, h as int, j) {
                    lemma_is_obj_bounds(w, n as int, h as int, j);
                }
            }
            assert forall|j: int| n <= j implies is_obj(w, 0, h as int, j) == #[trigger] is_obj(
                w,
                n as int,
                h as int,
                j,
            ) by {
                assert(is_obj(w, 0, h as int, j) == is_obj(w, k as int, h as int, j));
            }
            assert forall|j: int| n <= j && #[trigger] is_obj(w, n as int, h as int, j) implies live_words(
                w,
                0,
                h as int,
                j,
            ) == new + live_words(w, n as int, h as int, j) by {
                assert(is_obj(w, k as int, h as int, j));
            }
        }
        k = n;
    }
    proof {
        assert forall|j: int| h <= j < w.len() implies heap.words@[j] == #[trigger] forwarded(
            w,
            start,
            h as int,
        )[j] by {
            assert(!is_obj(w, h as int, h as int, j));
        }
    }
    assert(heap.words@ =~= forwarded(w, start, h as int));
}


/// The address just past the heap's last word.
pub open spec fn heap_end(heap: Memory) -> int {
    heap.start + 8 * heap.words@.len()
}

/// A word that the collector follows: odd, and within the heap's bounds.
pub open spec fn is_ref(start: int, end: int, v: u64) -> bool {
    v & 1 == 1 && start <= v < end
}

/// The word index of the object that a reference names, the one whose
/// address is one below it.
pub open spec fn target(start: int, v: u64) -> int {
    (v - 1 - start) / 8
}

/// The byte address of word `o`.
pub open spec fn addr(start: int, o: int) -> u64 {
    (start + 8 * o) as u64
}

/// The reference `v` names the start of an object.
pub open spec fn names_obj(w: Seq<u64>, start: int, h: int, v: u64) -> bool {
    start <= v - 1 && (v - 1 - start) % 8 == 0 && is_obj(w, 0, h, target(start, v))
}

/// Every reference among the elements of the objects names an object.
pub open spec fn refs_ok(w: Seq<u64>, start: int, end: int, h: int) -> bool {
    forall|o: int, i: int|
        #![trigger is_obj(w, 0, h, o), w[i]]
        is_obj(w, 0, h, o) && o + 2 <= i < next_obj(w, o) && is_ref(start, end, w[i]) ==> names_obj(
            w,
            start,
            h,
            w[i],
        )
}

/// Object `c` is a child of object `o`: an element of `o` refers to it.
pub open spec fn child(w: Seq<u64>, start: int, end: int, h: int, o: int, c: int) -> bool {
    &&& is_obj(w, 0, h, o)
    &&& exists|i: int|
        #![trigger w[i]]
        o + 2 <= i < next_obj(w, o) && is_ref(start, end, w[i]) && target(start, w[i]) == c
}

/// Object `b` is reached from object `a` in at most `n` steps from an object
/// to a child.
pub open spec fn reaches(w: Seq<u64>, start: int, end: int, h: int, a: int, b: int, n: nat) -> bool
    decreases n,
{
    a == b || (n > 0 && exists|c: int|
        #![trigger child(w, start, end, h, a, c)]
        child(w, start, end, h, a, c) && reaches(w, start, end, h, c, b, (n - 1) as nat))
}

/// Object `b` is reached from object `a`.
pub open spec fn reachable(w: Seq<u64>, start: int, end: int, h: int, a: int, b: int) -> bool {
    exists|n: nat| reaches(w, start, end, h, a, b, n)
}

/// Every address in `m` is that of an object.
pub open spec fn obj_addrs(w: Seq<u64>, start: int, h: int, m: Set<u64>) -> bool {
    forall|a: u64|
        #[trigger] m.contains(a) ==> start <= a && (a - start) % 8 == 0 && is_obj(
            w,
            0,
            h,
            (a - start) / 8,
        )
}

/// The words once the objects whose addresses are in `m` are marked: their
/// gc word is 1.
pub open spec fn marked_words(w: Seq<u64>, start: int, h: int, m: Set<u64>) -> Seq<u64> {
    Seq::new(
        w.len(),
        |j: int|
            if is_obj(w, 0, h, j) && m.contains(addr(start, j)) {
                1
            } else {
                w[j]
            },
    )
}

/// The objects whose addresses are not in `m`.
pub open spec fn unmarked(w: Seq<u64>, start: int, h: int, m: Set<u64>) -> Set<int> {
    Set::new(|o: int| is_obj(w, 0, h, o) && !m.contains(addr(start, o)))
}

proof fn lemma_unmarked_shrinks(w: Seq<u64>, start: int, h: int, m1: Set<u64>, m2: Set<u64>, o: int)
    requires
        0 <= h,
        is_obj(w, 0, h, o),
        !m1.contains(addr(start, o)),
        m1.subset_of(m2),
        m2.contains(addr(start, o)),
    ensures
        unmarked(w, start, h, m2).len() < unmarked(w, start, h, m1).len(),
{
    let u1 = unmarked(w, start, h, m1);
    let u2 = unmarked(w, start, h, m2);
    vstd::set_lib::lemma_int_range(0, h);
    assert forall|x: int| u1.contains(x) implies vstd::set_lib::set_int_range(0, h).contains(x) by {
        lemma_is_obj_bounds(w, 0, h, x);
    }
    vstd::set_lib::lemma_len_subset(u1, vstd::set_lib::set_int_range(0, h));
    assert(u2.subset_of(u1.remove(o)));
    vstd::set::axiom_set_remove_len(u1, o);
    vstd::set_lib::lemma_len_subset(u2, u1.remove(o));
}

/// Marks the object at `vec_start` and, depth first, every object that it
/// reaches and that is not marked yet: each gets 1 in its gc word and its
/// address in `marked`. `w0` is the heap before any object was marked, and
/// the objects end at word `h`.
fn snek_gc_mark(
    heap: &mut Memory,
    vec_start: u64,
    marked: &mut HashSet<u64>,
    Ghost(w0): Ghost<Seq<u64>>,
    Ghost(h): Ghost<int>,
)
    requires
        old(heap).below_i64_max(),
        w0.len() == old(heap).words@.len(),
        0 <= h <= w0.len(),
        chain_ok(w0, 0, h),
        refs_ok(w0, old(heap).start as int, heap_end(*old(heap)), h),
        old(heap).words@ == marked_words(w0, old(heap).start as int, h, old(marked)@),
        obj_addrs(w0, old(heap).start as int, h, old(marked)@),
        old(heap).start <= vec_start,
        (vec_start - old(heap).start) % 8 == 0,
        is_obj(w0, 0, h, word_of(*old(heap), vec_start as int)),
    ensures
        final(heap).start == old(heap).start,
        final(heap).words@ == marked_words(w0, old(heap).start as int, h, final(marked)@),
        obj_addrs(w0, old(heap).start as int, h, final(marked)@),
        old(marked)@.subset_of(final(marked)@),
        final(marked)@.contains(vec_start),
        forall|a: u64|
            #[trigger] final(marked)@.contains(a) && !old(marked)@.contains(a) ==> reachable(
                w0,
                old(heap).start as int,
                heap_end(*old(heap)),
                h,
                word_of(*old(heap), vec_start as int),
                word_of(*old(heap), a as int),
            ),
        forall|a: u64, c: int|
            final(marked)@.contains(a) && !old(marked)@.contains(a) && #[trigger] child(
                w0,
                old(heap).start as int,
                heap_end(*old(heap)),
                h,
                word_of(*old(heap), a as int),
                c,
            ) ==> final(marked)@.contains(addr(old(heap).start as int, c)),
    decreases unmarked(w0, old(heap).start as int, h, old(marked)@).len(),
{
    let ghost start = heap.start as int;
    let ghost end = heap_end(*heap);
    let ghost m0 = marked@;
    let ghost o = word_of(*heap, vec_start as int);
    if marked.contains(&vec_start) {
        return;
    }
    marked.insert(vec_start);
    proof { lemma_is_obj_bounds(w0, 0, h, o); }
    let len = heap.words.len();
    assert(0 <= o < len);
    let d: u64 = (vec_start - heap.start) / 8;
    assert(d == o);
    let k: usize = d as usize;
    assert(k == o);
    assert(addr(start, o) == vec_start);
    heap.words[k] = 1;
    assert(heap.words@ =~= marked_words(w0, start, h, marked@));
    let vec_length = heap.words[k + 1];
    assert(vec_length == w0[o + 1]) by {
        if is_obj(w0, 0, h, o + 1) {
            lemma_objects_disjoint(w0, 0, h, o, o + 1);
        }
    }
    let heap_start = heap.start;
    let heap_end_addr = heap.start + 8 * (heap.words.len() as u64);
    let mut i: u64 = 1;
    assert((vec_start - start) / 8 == o);
    assert(reaches(w0, start, end, h, o, o, 0));
    while i <= vec_length
        invariant
            1 <= i <= vec_length + 1,
            len == w0.len(),
            m0 == old(marked)@,
            start == old(heap).start,
            vec_length == w0[o + 1],
            k == o,
            heap_start == start,
            heap_end_addr == end,
            heap.start == start,
            end == start + 8 * w0.len(),
            heap.below_i64_max(),
            w0.len() == heap.words@.len(),
            0 <= h <= w0.len(),
            chain_ok(w0, 0, h),
            refs_ok(w0, start, end, h),
            is_obj(w0, 0, h, o),
            next_obj(w0, o) <= h,
            vec_start == addr(start, o),
            heap.words@ == marked_words(w0, start, h, marked@),
            obj_addrs(w0, start, h, marked@),
            m0.subset_of(marked@),
            !m0.contains(vec_start),
            marked@.contains(vec_start),
            forall|a: u64|
                #[trigger] marked@.contains(a) && !m0.contains(a) ==> reachable(
                    w0,
                    start,
                    end,
                    h,
                    o,
                    (a - start) / 8,
                ),
            forall|a: u64, c: int|
                marked@.contains(a) && !m0.contains(a) && a != vec_start && #[trigger] child(
                    w0,
                    start,
                    end,
                    h,
                    (a - start) / 8,
                    c,
                ) ==> marked@.contains(addr(start, c)),
            forall|j: int|
                o + 2 <= j < o + 1 + i && #[trigger] is_ref(start, end, w0[j]) ==> marked@.contains(
                    (w0[j] - 1) as u64,
                ),
        decreases vec_length + 1 - i,
    {
        let ghost j = o + 1 + i;
        assert(j < next_obj(w0, o));
        let idx = k + 1 + (i as usize);
        let val = heap.words[idx];
        assert(val == w0[j]) by {
            if is_obj(w0, 0, h, j) {
                lemma_objects_disjoint(w0, 0, h, o, j);
            }
        }
        if val & 1 == 1 && val >= heap_start && val < heap_end_addr {
            assert(is_ref(start, end, val));
            assert(names_obj(w0, start, h, val));
            let ghost c = target(start, val);
            proof {
                lemma_unmarked_shrinks(w0, start, h, m0, marked@, o);
            }
            let ghost before = marked@;
            snek_gc_mark(heap, val - 1, marked, Ghost(w0), Ghost(h));
            proof {
                assert(child(w0, start, end, h, o, c));
                assert forall|a: u64| #[trigger] marked@.contains(a) && !m0.contains(a) implies reachable(
                    w0,
                    start,
                    end,
                    h,
                    o,
                    (a - start) / 8,
                ) by {
                    if !before.contains(a) {
                        let n = choose|n: nat| #[trigger] reaches(w0, start, end, h, c, (a - start) / 8, n);
                        assert(reaches(w0, start, end, h, o, (a - start) / 8, n + 1));
                    }
                }
            }
        }
        i = i + 1;
    }
    proof {
        assert forall|a: u64, c: int|
            marked@.contains(a) && !m0.contains(a) && #[trigger] child(
                w0,
                start,
                end,
                h,
                (a - start) / 8,
                c,
            ) implies marked@.contains(addr(start, c)) by {
            if a == vec_start {
                let j = choose|j: int|
                    #![trigger w0[j]]
                    o + 2 <= j < next_obj(w0, o) && is_ref(start, end, w0[j]) && target(start, w0[j]) == c;
                assert(is_ref(start, end, w0[j]));
                assert(names_obj(w0, start, h, w0[j]));
                assert(addr(start, c) == (w0[j] - 1) as u64);
            }
        }
        assert(reaches(w0, start, end, h, o, o, 0));
    }
}

/// A stack word that the collector takes as a root: tagged as a vector and
/// within the heap's bounds.
pub open spec fn is_root(start: int, end: int, v: u64) -> bool {
    v & 3 == 1 && start <= v < end
}

/// The addresses of the stack words from index `n` up that are roots naming
/// the object at address `key`, from the highest down, the order in which
/// the scan meets them.
pub open spec fn slots_above(s: Seq<u64>, sstart: int, start: int, end: int, key: u64, n: int) -> Seq<u64>
    decreases s.len() - n,
{
    if 0 <= n < s.len() {
        let rest = slots_above(s, sstart, start, end, key, n + 1);
        if is_root(start, end, s[n]) && s[n] - 1 == key {
            rest.push(addr(sstart, n))
        } else {
            rest
        }
    } else {
        Seq::empty()
    }
}

/// `m` maps the address of each object that a root of the stack `s` names
/// to the addresses of the stack words that name it, from the highest down.
pub open spec fn roots_of(m: Map<u64, Vec<u64>>, s: Seq<u64>, sstart: int, start: int, end: int) -> bool {
    &&& forall|k: u64| #[trigger]
        m.contains_key(k) <==> slots_above(s, sstart, start, end, k, 0).len() > 0
    &&& forall|k: u64| #[trigger]
        m.contains_key(k) ==> m[k]@ == slots_above(s, sstart, start, end, k, 0)
}

/// Scans the stack from its base (its last word) down to its top (its first
/// word) for roots, and gathers them by the object they name.
pub fn snek_gc_get_root(heap: &Memory, stack: &Memory) -> (r: HashMap<u64, Vec<u64>>)
    requires
        heap.below_i64_max(),
        stack.below_i64_max(),
    ensures
        roots_of(r@, stack.words@, stack.start as int, heap.start as int, heap_end(*heap)),
{
    let ghost s = stack.words@;
    let ghost ss = stack.start as int;
    let ghost st = heap.start as int;
    let ghost en = heap_end(*heap);
    let heap_start = heap.start;
    let heap_end_addr = heap.start + 8 * (heap.words.len() as u64);
    let mut root_temp: HashMap<u64, Vec<u64>> = HashMap::new();
    let mut n: usize = stack.words.len();
    while n > 0
        invariant
            n <= s.len(),
            s == stack.words@,
            ss == stack.start,
            st == heap_start,
            en == heap_end_addr,
            en == heap_end(*heap),
            stack.below_i64_max(),
            forall|k: u64| #[trigger]
                root_temp@.contains_key(k) <==> slots_above(s, ss, st, en, k, n as int).len() > 0,
            forall|k: u64| #[trigger]
                root_temp@.contains_key(k) ==> root_temp@[k]@ == slots_above(s, ss, st, en, k, n as int),
        decreases n,
    {
        n = n - 1;
        let val = stack.words[n];
        let slot = stack.start + 8 * (n as u64);
        assert(slot == addr(ss, n as int));
        if val & 3 == 1 && val >= heap_start && val < heap_end_addr {
            assert(val & 3 == 1 ==> val >= 1) by (bit_vector);
            let key = val - 1;
            match root_temp.remove(&key) {
                Some(mut t) => {
                    t.push(slot);
                    root_temp.insert(key, t);
                },
                None => {
                    let mut t: Vec<u64> = Vec::new();
                    t.push(slot);
                    root_temp.insert(key, t);
                },
            }
        }
    }
    root_temp
}

/// Word `j` is one of the elements of a live object.
pub open spec fn live_elem(w: Seq<u64>, h: int, j: int) -> bool {
    exists|o: int|
        #![trigger is_obj(w, 0, h, o)]
        is_obj(w, 0, h, o) && w[o] != 0 && o + 2 <= j < next_obj(w, o)
}

/// What an element becomes once references are updated: a reference (odd,
/// and within the heap's bounds, as the marking takes it) is replaced by the
/// word at the address one below it, plus one; any other word, a boolean
/// among them, stays.
pub open spec fn relocate(w: Seq<u64>, start: int, end: int, v: u64) -> u64 {
    if is_ref(start, end, v) {
        (w[target(start, v)] + 1) as u64
    } else {
        v
    }
}

/// The words once the references in the live objects are updated.
pub open spec fn relocated(w: Seq<u64>, start: int, end: int, h: int) -> Seq<u64> {
    Seq::new(
        w.len(),
        |j: int|
            if live_elem(w, h, j) {
                relocate(w, start, end, w[j])
            } else {
                w[j]
            },
    )
}

/// Every reference among the words of a live object names an object whose
/// gc word can be incremented.
pub open spec fn live_refs_ok(w: Seq<u64>, start: int, end: int, h: int) -> bool {
    forall|o: int, j: int|
        #![trigger is_obj(w, 0, h, o), w[j]]
        is_obj(w, 0, h, o) && w[o] != 0 && o + 2 <= j < next_obj(w, o) && is_ref(start, end, w[j])
            ==> names_obj(w, start, h, w[j]) && w[target(start, w[j])] < u64::MAX
}

/// A word lies within at most one object.
pub proof fn lemma_one_owner(w: Seq<u64>, h: int, o1: int, o2: int, j: int)
    requires
        is_obj(w, 0, h, o1),
        is_obj(w, 0, h, o2),
        o1 <= j < next_obj(w, o1),
        o2 <= j < next_obj(w, o2),
    ensures
        o1 == o2,
{
    if o1 < o2 {
        lemma_objects_disjoint(w, 0, h, o1, o2);
    } else if o2 < o1 {
        lemma_objects_disjoint(w, 0, h, o2, o1);
    }
}

proof fn lemma_live_words_nonneg(w: Seq<u64>, k: int, h: int, o: int)
    ensures
        0 <= live_words(w, k, h, o),
    decreases h - k,
{
    if k < o && k < h && next_obj(w, k) <= h {
        lemma_live_words_nonneg(w, next_obj(w, k), h, o);
    }
}

/// Points the references in the live objects at the addresses to which
/// their objects will move, read from the gc words of those objects.
pub fn snek_gc_update_references(heap: &mut Memory, heap_ptr: u64)
    requires
        heap_ok(*old(heap), heap_ptr),
        live_refs_ok(
            old(heap).words@,
            old(heap).start as int,
            heap_end(*old(heap)),
            word_of(*old(heap), heap_ptr as int),
        ),
    ensures
        final(heap).start == old(heap).start,
        final(heap).words@ == relocated(
            old(heap).words@,
            old(heap).start as int,
            heap_end(*old(heap)),
            word_of(*old(heap), heap_ptr as int),
        ),
{
    let ghost w = heap.words@;
    let ghost start = heap.start as int;
    let ghost end = heap_end(*heap);
    let heap_start = heap.start;
    let heap_end_addr = heap.start + 8 * (heap.words.len() as u64);
    let d: u64 = (heap_ptr - heap.start) / 8;
    assert(d == word_of(*old(heap), heap_ptr as int));
    assert(d <= heap.words.len());
    let h: usize = d as usize;
    let ghost hh = h as int;
    let mut k: usize = 0;
    while k < h
        invariant
            heap.start == start,
            heap_start == start,
            end == start + 8 * w.len(),
            heap_end_addr == end,
            heap.below_i64_max(),
            heap.words@.len() == w.len(),
            hh == h,
            h == word_of(*old(heap), heap_ptr as int),
            h <= w.len(),
            k <= h,
            chain_ok(w, k as int, hh),
            live_refs_ok(w, start, end, hh),
            forall|j: int| k <= j < w.len() ==> heap.words@[j] == w[j],
            forall|j: int| 0 <= j < k ==> heap.words@[j] == #[trigger] relocated(w, start, end, hh)[j],
            forall|j: int| k <= j ==> is_obj(w, 0, hh, j) == #[trigger] is_obj(w, k as int, hh, j),
        decreases h - k,
    {
        let length = heap.words[k + 1];
        let n = k + 2 + length as usize;
        assert(n == next_obj(w, k as int));
        assert(is_obj(w, k as int, hh, k as int));
        assert(is_obj(w, 0, hh, k as int));
        if heap.words[k] != 0 {
            let mut p = k + 2;
            while p < n
                invariant
                    k + 2 <= p <= n,
                    n == next_obj(w, k as int),
                    n <= h,
                    heap.start == start,
                    heap_start == start,
                    end == start + 8 * w.len(),
                    heap_end_addr == end,
                    heap.words@.len() == w.len(),
                    h <= w.len(),
                    hh == h,
                    is_obj(w, 0, hh, k as int),
                    w[k as int] != 0,
                    live_refs_ok(w, start, end, hh),
                    forall|j: int| p <= j < w.len() ==> heap.words@[j] == w[j],
                    forall|j: int| 0 <= j < k ==> heap.words@[j] == #[trigger] relocated(w, start, end, hh)[j],
                    heap.words@[k as int] == w[k as int],
                    heap.words@[k + 1] == w[k + 1],
                    forall|j: int| k + 2 <= j < p ==> heap.words@[j] == #[trigger] relocate(w, start, end, w[j]),
                decreases n - p,
            {
                let v = heap.words[p];
                if v & 1 == 1 && v >= heap_start && v < heap_end_addr {
                    assert(names_obj(w, start, hh, w[p as int]));
                    let ghost t = target(start, v);
                    proof { lemma_is_obj_bounds(w, 0, hh, t); }
                    let ti: usize = ((v - 1 - heap.start) / 8) as usize;
                    assert(ti == t);
                    assert(heap.words@[t] == w[t]) by {
                        if t < k {
                            assert(!live_elem(w, hh, t)) by {
                                if live_elem(w, hh, t) {
                                    let o = choose|o: int|
                                        #![trigger is_obj(w, 0, hh, o)]
                                        is_obj(w, 0, hh, o) && w[o] != 0 && o + 2 <= t < next_obj(w, o);
                                    lemma_one_owner(w, hh, o, t, t);
                                }
                            }
                            assert(relocated(w, start, end, hh)[t] == w[t]);
                        } else if t < p {
                            lemma_one_owner(w, hh, k as int, t, t);
                        }
                    }
                    heap.words[p] = heap.words[ti] + 1;
                }
                p = p + 1;
            }
        }
        proof {
            assert forall|j: int| k <= j < n implies heap.words@[j] == #[trigger] relocated(w, start, end, hh)[j] by {
                if live_elem(w, hh, j) {
                    let o = choose|o: int|
                        #![trigger is_obj(w, 0, hh, o)]
                        is_obj(w, 0, hh, o) && w[o] != 0 && o + 2 <= j < next_obj(w, o);
                    lemma_one_owner(w, hh, o, k as int, j);
                } else {
                    if w[k as int] != 0 && k + 2 <= j {
                        assert(live_elem(w, hh, j));
                    }
                }
            }
            assert forall|j: int| n <= j implies is_obj(w, 0, hh, j) == #[trigger] is_obj(
                w,
                n as int,
                hh,
                j,
            ) by {
                assert(is_obj(w, 0, hh, j) == is_obj(w, k as int, hh, j));
            }
        }
        k = n;
    }
    proof {
        assert forall|j: int| h <= j < w.len() implies heap.words@[j] == #[trigger] relocated(w, start, end, hh)[j] by {
            if live_elem(w, hh, j) {
                let o = choose|o: int|
                    #![trigger is_obj(w, 0, hh, o)]
                    is_obj(w, 0, hh, o) && w[o] != 0 && o + 2 <= j < next_obj(w, o);
                lemma_is_obj_bounds(w, 0, hh, o);
            }
        }
    }
    assert(heap.words@ =~= relocated(w, start, end, hh));
}

/// The stack once each root names the new address of its object: the word
/// at the address one below the root, plus one.
pub open spec fn stack_updated(s: Seq<u64>, heap: Memory) -> Seq<u64> {
    Seq::new(
        s.len(),
        |n: int|
            if is_root(heap.start as int, heap_end(heap), s[n]) {
                (heap.at(s[n] - 1) + 1) as u64
            } else {
                s[n]
            },
    )
}

/// Each root names a word of the heap that can be incremented.
pub open spec fn roots_named(s: Seq<u64>, heap: Memory) -> bool {
    forall|n: int|
        0 <= n < s.len() && #[trigger] is_root(heap.start as int, heap_end(heap), s[n]) ==> heap.holds(
            s[n] - 1,
        ) && heap.at(s[n] - 1) < u64::MAX
}

proof fn lemma_slots_above(s: Seq<u64>, sstart: int, start: int, end: int, key: u64, m: int)
    requires
        0 <= m,
        sstart + 8 * s.len() <= i64::MAX,
        0 <= sstart,
    ensures
        forall|j: int|
            0 <= j < slots_above(s, sstart, start, end, key, m).len() ==> {
                let a = #[trigger] slots_above(s, sstart, start, end, key, m)[j];
                let n = (a - sstart) / 8;
                &&& m <= n < s.len()
                &&& a == addr(sstart, n)
                &&& is_root(start, end, s[n])
                &&& s[n] - 1 == key
            },
        forall|n: int|
            m <= n < s.len() && is_root(start, end, s[n]) && s[n] - 1 == key ==> #[trigger] slots_above(
                s,
                sstart,
                start,
                end,
                key,
                m,
            ).contains(addr(sstart, n)),
    decreases s.len() - m,
{
    if m < s.len() {
        lemma_slots_above(s, sstart, start, end, key, m + 1);
        let rest = slots_above(s, sstart, start, end, key, m + 1);
        let all = slots_above(s, sstart, start, end, key, m);
        assert forall|n: int|
            m <= n < s.len() && is_root(start, end, s[n]) && s[n] - 1 == key implies all.contains(
            addr(sstart, n),
        ) by {
            if n == m {
                assert(all[all.len() - 1] == addr(sstart, n));
            } else {
                assert(rest.contains(addr(sstart, n)));
                let j = choose|j: int| 0 <= j < rest.len() && rest[j] == addr(sstart, n);
                assert(all[j] == rest[j]);
            }
        }
    }
}

/// Writes into each root the new address of the object it names, taken
/// from that object's gc word, plus one.
pub fn snek_gc_update_stack(stack: &mut Memory, roots: HashMap<u64, Vec<u64>>, heap: &Memory)
    requires
        old(stack).below_i64_max(),
        heap.below_i64_max(),
        roots_of(roots@, old(stack).words@, old(stack).start as int, heap.start as int, heap_end(*heap)),
        roots_named(old(stack).words@, *heap),
    ensures
        final(stack).start == old(stack).start,
        final(stack).words@ == stack_updated(old(stack).words@, *heap),
{
    let ghost s = stack.words@;
    let ghost ss = stack.start as int;
    let ghost st = heap.start as int;
    let ghost en = heap_end(*heap);
    let ghost es = vstd::std_specs::hash::spec_hash_map_iter(&roots).remaining();
    let ghost mut done: Set<u64> = Set::empty();
    for entry in it: roots.iter()
        invariant
            it.seq() == es,
            stack.start == ss,
            stack.words@.len() == s.len(),
            stack.below_i64_max(),
            heap.below_i64_max(),
            st == heap.start,
            en == heap_end(*heap),
            roots_of(roots@, s, ss, st, en),
            roots_named(s, *heap),
            forall|i: int| 0 <= i < it.index() ==> done.contains(*(#[trigger] es[i]).0),
            forall|n: int|
                0 <= n < s.len() ==> #[trigger] stack.words@[n] == if is_root(st, en, s[n]) && done.contains(
                    (s[n] - 1) as u64,
                ) {
                    stack_updated(s, *heap)[n]
                } else {
                    s[n]
                },
    {
        let (key, slots) = entry;
        assert(roots@.contains_key(*key) && roots@[*key] == *slots);
        proof { lemma_slots_above(s, ss, st, en, *key, 0); }
        let mut j: usize = 0;
        while j < slots.len()
            invariant
                j <= slots.len(),
                slots@ == slots_above(s, ss, st, en, *key, 0),
                stack.start == ss,
                stack.words@.len() == s.len(),
                stack.below_i64_max(),
                heap.below_i64_max(),
                st == heap.start,
                en == heap_end(*heap),
                roots_named(s, *heap),
                forall|n: int|
                    0 <= n < s.len() ==> #[trigger] stack.words@[n] == if is_root(st, en, s[n]) && (done.contains(
                        (s[n] - 1) as u64,
                    ) || (s[n] - 1 == *key && slots@.subrange(0, j as int).contains(addr(ss, n)))) {
                        stack_updated(s, *heap)[n]
                    } else {
                        s[n]
                    },
            decreases slots.len() - j,
        {
            proof { lemma_slots_above(s, ss, st, en, *key, 0); }
            let a = slots[j];
            let ghost n = (a - ss) / 8;
            assert(slots@[j as int] == a);
            assert(0 <= n < s.len() && a == addr(ss, n) && is_root(st, en, s[n]) && s[n] - 1 == *key);
            let slen = stack.words.len();
            let hlen = heap.words.len();
            assert(heap.holds(s[n] - 1));
            assert(heap.at(s[n] - 1) < u64::MAX);
            let ghost hk = (*key - heap.start) / 8;
            assert(0 <= hk < hlen);
            assert(n < slen);
            let d: u64 = (a - stack.start) / 8;
            assert(d == n);
            let idx: usize = d as usize;
            let e: u64 = (*key - heap.start) / 8;
            assert(e == hk);
            let hi: usize = e as usize;
            assert(heap.words@[hk] == heap.at(s[n] - 1));
            stack.words[idx] = heap.words[hi] + 1;
            proof {
                assert forall|q: int| 0 <= q < s.len() implies #[trigger] stack.words@[q] == if is_root(
                    st,
                    en,
                    s[q],
                ) && (done.contains((s[q] - 1) as u64) || (s[q] - 1 == *key && slots@.subrange(
                    0,
                    j + 1,
                ).contains(addr(ss, q)))) {
                    stack_updated(s, *heap)[q]
                } else {
                    s[q]
                } by {
                    if q != n {
                        let sub = slots@.subrange(0, j + 1);
                        if sub.contains(addr(ss, q)) {
                            let t = choose|t: int| 0 <= t < sub.len() && #[trigger] sub[t] == addr(ss, q);
                            if t == j {
                                assert(addr(ss, q) == addr(ss, n));
                            } else {
                                assert(slots@.subrange(0, j as int)[t] == addr(ss, q));
                            }
                        }
                    } else {
                        assert(slots@.subrange(0, j + 1)[j as int] == addr(ss, q));
                    }
                }
            }
            j = j + 1;
        }
        proof {
            assert(slots@.subrange(0, slots@.len() as int) == slots@);
            done = done.insert(*key);
        }
    }
    proof {
        assert forall|n: int| 0 <= n < s.len() && is_root(st, en, s[n]) implies done.contains(
            (s[n] - 1) as u64,
        ) by {
            let k = (s[n] - 1) as u64;
            lemma_slots_above(s, ss, st, en, k, 0);
            assert(slots_above(s, ss, st, en, k, 0).contains(addr(ss, n)));
            assert(roots@.contains_key(k));
            assert(es.contains((&k, &roots@[k])));
            let i = choose|i: int| 0 <= i < es.len() && es[i] == (&k, &roots@[k]);
            assert(done.contains(*es[i].0));
        }
    }
    assert(stack.words@ =~= stack_updated(s, *heap));
}

/// The object at word `o` has moved to word `p`: a gc word of 0, then its
/// length and elements as they were.
pub open spec fn placed(cur: Seq<u64>, w: Seq<u64>, o: int, p: int) -> bool {
    forall|i: int|
        0 <= i < next_obj(w, o) - o ==> #[trigger] cur[p + i] == if i == 0 {
            0
        } else {
            w[o + i]
        }
}

/// Slides each live object down to the address in the heap after the live
/// objects before it, clearing its gc word, and gives the new heap pointer:
/// the address after the last live object. Every word from there on is as
/// it was: the move writes only below it.
pub fn snek_gc_move_objects(heap: &mut Memory, heap_ptr: u64) -> (r: u64)
    requires
        heap_ok(*old(heap), heap_ptr),
    ensures
        final(heap).start == old(heap).start,
        final(heap).words@.len() == old(heap).words@.len(),
        r == old(heap).start + 8 * live_words(
            old(heap).words@,
            0,
            word_of(*old(heap), heap_ptr as int),
            word_of(*old(heap), heap_ptr as int),
        ),
        forall|o: int|
            #![trigger is_obj(old(heap).words@, 0, word_of(*old(heap), heap_ptr as int), o)]
            is_obj(old(heap).words@, 0, word_of(*old(heap), heap_ptr as int), o) && old(heap).words@[o]
                != 0 ==> placed(
                final(heap).words@,
                old(heap).words@,
                o,
                live_words(old(heap).words@, 0, word_of(*old(heap), heap_ptr as int), o),
            ),
        forall|q: int|
            live_words(
                old(heap).words@,
                0,
                word_of(*old(heap), heap_ptr as int),
                word_of(*old(heap), heap_ptr as int),
            ) <= q < old(heap).words@.len() ==> #[trigger] final(heap).words@[q] == old(heap).words@[q],
{
    let ghost w = heap.words@;
    let ghost start = heap.start as int;
    let d: u64 = (heap_ptr - heap.start) / 8;
    assert(d == word_of(*old(heap), heap_ptr as int));
    assert(d <= heap.words.len());
    let h: usize = d as usize;
    let ghost hh = h as int;
    let mut k: usize = 0;
    let mut new: usize = 0;
    while k < h
        invariant
            heap.start == start,
            heap.below_i64_max(),
            heap.words@.len() == w.len(),
            hh == h,
            h <= w.len(),
            new <= k <= h,
            chain_ok(w, k as int, hh),
            forall|q: int| k <= q < w.len() ==> heap.words@[q] == w[q],
            forall|q: int| new <= q < w.len() ==> heap.words@[q] == w[q],
            forall|j: int| k <= j ==> is_obj(w, 0, hh, j) == #[trigger] is_obj(w, k as int, hh, j),
            forall|j: int| k <= j ==> live_words(w, 0, hh, j) == new + #[trigger] live_words(w, k as int, hh, j),
            forall|o: int|
                #![trigger is_obj(w, 0, hh, o)]
                is_obj(w, 0, hh, o) && 0 <= o < k && w[o] != 0 ==> placed(heap.words@, w, o, live_words(w, 0, hh, o))
                    && live_words(w, 0, hh, o) + next_obj(w, o) - o <= new,
        decreases h - k,
    {
        let length = heap.words[k + 1];
        let n = k + 2 + length as usize;
        assert(n == next_obj(w, k as int));
        assert(is_obj(w, k as int, hh, k as int));
        assert(is_obj(w, 0, hh, k as int));
        assert(live_words(w, 0, hh, k as int) == new + live_words(w, k as int, hh, k as int));
        let ghost cur0 = heap.words@;
        let ghost new0 = new;
        if heap.words[k] != 0 {
            heap.words[new] = 0;
            let mut j: usize = 0;
            while j < (length as usize) + 1
                invariant
                    j <= length + 1,
                    length == w[k + 1],
                    n == k + 2 + length,
                    new <= k,
                    n <= h,
                    h <= w.len(),
                    hh == h,
                    heap.start == start,
                    heap.words@.len() == w.len(),
                    heap.words@[new as int] == 0,
                    forall|t: int| 0 <= t < j ==> #[trigger] heap.words@[new + 1 + t] == w[k + 1 + t],
                    forall|q: int| k + 1 + j <= q < w.len() ==> heap.words@[q] == w[q],
                    forall|q: int| new + 1 + j <= q < w.len() ==> heap.words@[q] == w[q],
                    forall|q: int| 0 <= q < new ==> heap.words@[q] == cur0[q],
                decreases length + 1 - j,
            {
                heap.words[new + 1 + j] = heap.words[k + 1 + j];
                j = j + 1;
            }
            assert(placed(heap.words@, w, k as int, new as int)) by {
                assert forall|i: int| 0 <= i < next_obj(w, k as int) - k implies #[trigger] heap.words@[new + i]
                    == if i == 0 {
                    0
                } else {
                    w[k + i]
                } by {
                    if i > 0 {
                        assert(heap.words@[new + 1 + (i - 1)] == w[k + 1 + (i - 1)]);
                    }
                }
            }
            assert forall|o: int|
                #![trigger is_obj(w, 0, hh, o)]
                is_obj(w, 0, hh, o) && 0 <= o < k && w[o] != 0 implies placed(
                heap.words@,
                w,
                o,
                live_words(w, 0, hh, o),
            ) by {
                let p = live_words(w, 0, hh, o);
                lemma_live_words_nonneg(w, 0, hh, o);
                assert forall|i: int| 0 <= i < next_obj(w, o) - o implies #[trigger] heap.words@[p + i]
                    == if i == 0 {
                    0
                } else {
                    w[o + i]
                } by {
                    assert(cur0[p + i] == if i == 0 {
                        0
                    } else {
                        w[o + i]
                    });
                }
            }
            assert forall|o: int|
                #![trigger is_obj(w, 0, hh, o)]
                is_obj(w, 0, hh, o) && 0 <= o < k && w[o] != 0 implies placed(
                heap.words@,
                w,
                o,
                live_words(w, 0, hh, o),
            ) by {
                let p = live_words(w, 0, hh, o);
                lemma_live_words_nonneg(w, 0, hh, o);
                assert forall|i: int| 0 <= i < next_obj(w, o) - o implies #[trigger] heap.words@[p + i]
                    == if i == 0 {
                    0
                } else {
                    w[o + i]
                } by {
                    assert(cur0[p + i] == if i == 0 {
                        0
                    } else {
                        w[o + i]
                    });
                }
            }
            new = new + 2 + length as usize;
        }
        proof {
            assert forall|j: int| n <= j implies is_obj(w, 0, hh, j) == #[trigger] is_obj(w, n as int, hh, j) by {
                assert(is_obj(w, 0, hh, j) == is_obj(w, k as int, hh, j));
            }
            assert forall|j: int| n <= j implies live_words(w, 0, hh, j) == new + #[trigger] live_words(
                w,
                n as int,
                hh,
                j,
            ) by {
                assert(live_words(w, 0, hh, j) == new0 + live_words(w, k as int, hh, j));
                assert(live_words(w, k as int, hh, j) == (if w[k as int] != 0 {
                    n - k
                } else {
                    0
                }) + live_words(w, n as int, hh, j));
            }
        }
        proof {
            assert forall|o: int|
                #![trigger is_obj(w, 0, hh, o)]
                is_obj(w, 0, hh, o) && 0 <= o < n && w[o] != 0 implies placed(
                heap.words@,
                w,
                o,
                live_words(w, 0, hh, o),
            ) && live_words(w, 0, hh, o) + next_obj(w, o) - o <= new by {
                if o >= k {
                    assert(is_obj(w, 0, hh, o) == is_obj(w, k as int, hh, o));
                    if o != k {
                        lemma_is_obj_bounds(w, n as int, hh, o);
                    }
                }
            }
        }
        k = n;
    }
    assert(live_words(w, k as int, hh, hh) == 0);
    assert forall|o: int| #![trigger is_obj(w, 0, hh, o)] is_obj(w, 0, hh, o) && w[o] != 0 implies placed(
        heap.words@,
        w,
        o,
        live_words(w, 0, hh, o),
    ) by {
        lemma_is_obj_bounds(w, 0, hh, o);
    }
    heap.start + 8 * (new as u64)
}

/// Object `o` is reached from one of the roots of the stack `s`.
pub open spec fn reached(w: Seq<u64>, start: int, end: int, h: int, s: Seq<u64>, o: int) -> bool {
    exists|n: int|
        0 <= n < s.len() && #[trigger] is_root(start, end, s[n]) && reachable(
            w,
            start,
            end,
            h,
            target(start, s[n]),
            o,
        )
}

/// The heap once the objects reached from the roots are marked.
pub open spec fn marks(w: Seq<u64>, start: int, end: int, h: int, s: Seq<u64>) -> Seq<u64> {
    Seq::new(
        w.len(),
        |j: int|
            if is_obj(w, 0, h, j) && reached(w, start, end, h, s, j) {
                1
            } else {
                w[j]
            },
    )
}

/// The word index to which a reached object moves: the words of the reached
/// objects before it.
pub open spec fn new_pos(w: Seq<u64>, start: int, end: int, h: int, s: Seq<u64>, o: int) -> int {
    live_words(marks(w, start, end, h, s), 0, h, o)
}

/// What a word of a reached object becomes: a reference names the new
/// address of its object, plus one; any other word stays.
pub open spec fn moved_ref(w: Seq<u64>, start: int, end: int, h: int, s: Seq<u64>, v: u64) -> u64 {
    if is_ref(start, end, v) {
        (start + 8 * new_pos(w, start, end, h, s, target(start, v)) + 1) as u64
    } else {
        v
    }
}

/// The state in which the runtime calls the collector: the heap holds whole
/// objects with clear gc words up to the heap pointer, every reference (odd
/// and within the heap's bounds) among their words names an object, and
/// every root names an object. Any other word, booleans included, may stand
/// in an object.
pub open spec fn gc_ready(heap: Memory, heap_ptr: u64, stack: Memory) -> bool {
    let w = heap.words@;
    let start = heap.start as int;
    let end = heap_end(heap);
    let h = word_of(heap, heap_ptr as int);
    let s = stack.words@;
    &&& heap_ok(heap, heap_ptr)
    &&& heap.start > 0
    &&& stack.below_i64_max()
    &&& forall|o: int| #[trigger] is_obj(w, 0, h, o) ==> w[o] == 0
    &&& refs_ok(w, start, end, h)
    &&& forall|n: int|
        0 <= n < s.len() && #[trigger] is_root(start, end, s[n]) ==> names_obj(w, start, h, s[n])
}

/// A chain depends only on the length words of its objects.
pub proof fn lemma_lengths_frame(w1: Seq<u64>, w2: Seq<u64>, k: int, h: int)
    requires
        chain_ok(w1, k, h),
        forall|o: int| #[trigger] is_obj(w1, k, h, o) ==> w1[o + 1] == w2[o + 1],
    ensures
        chain_ok(w2, k, h),
        forall|o: int| is_obj(w1, k, h, o) == is_obj(w2, k, h, o),
    decreases h - k,
{
    if k < h {
        assert(is_obj(w1, k, h, k));
        let n = next_obj(w1, k);
        assert(next_obj(w2, k) == n);
        assert forall|o: int| #[trigger] is_obj(w1, n, h, o) implies w1[o + 1] == w2[o + 1] by {
            assert(is_obj(w1, k, h, o));
        }
        lemma_lengths_frame(w1, w2, n, h);
        assert forall|o: int| is_obj(w1, k, h, o) == is_obj(w2, k, h, o) by {
            assert(is_obj(w1, k, h, o) == (o == k || is_obj(w1, n, h, o)));
            assert(is_obj(w2, k, h, o) == (o == k || is_obj(w2, n, h, o)));
        }
    }
}

/// The words of the live objects depend only on the chain and on which
/// objects are live.
pub proof fn lemma_live_words_same(w1: Seq<u64>, w2: Seq<u64>, k: int, h: int, o: int)
    requires
        chain_ok(w1, k, h),
        forall|j: int| #[trigger] is_obj(w1, k, h, j) ==> w1[j + 1] == w2[j + 1] && (w1[j] != 0) == (w2[j] != 0),
    ensures
        live_words(w1, k, h, o) == live_words(w2, k, h, o),
    decreases h - k,
{
    if k < h {
        assert(is_obj(w1, k, h, k));
        let n = next_obj(w1, k);
        assert forall|j: int| #[trigger] is_obj(w1, n, h, j) implies w1[j + 1] == w2[j + 1] && (w1[j] != 0) == (
        w2[j] != 0) by {
            assert(is_obj(w1, k, h, j));
        }
        lemma_live_words_same(w1, w2, n, h, o);
    }
}

/// The live objects from `k` on take at most the words up to `h`.
pub proof fn lemma_live_words_bound(w: Seq<u64>, k: int, h: int, o: int)
    requires
        chain_ok(w, k, h),
    ensures
        0 <= live_words(w, k, h, o) <= h - k,
    decreases h - k,
{
    if k < h {
        lemma_live_words_bound(w, next_obj(w, k), h, o);
    }
}

/// A path can be extended by one step at its end.
pub proof fn lemma_reaches_snoc(w: Seq<u64>, start: int, end: int, h: int, a: int, b: int, c: int, m: nat)
    requires
        reaches(w, start, end, h, a, b, m),
        child(w, start, end, h, b, c),
    ensures
        reaches(w, start, end, h, a, c, m + 1),
    decreases m,
{
    if a == b {
        assert(reaches(w, start, end, h, c, c, m));
        assert(child(w, start, end, h, a, c));
    } else {
        let d = choose|d: int| child(w, start, end, h, a, d) && reaches(w, start, end, h, d, b, (m - 1) as nat);
        lemma_reaches_snoc(w, start, end, h, d, b, c, (m - 1) as nat);
        assert(child(w, start, end, h, a, d) && reaches(w, start, end, h, d, c, m));
    }
}

/// A set of objects that holds the children of each of its objects holds
/// every object reached from one of them.
pub proof fn lemma_closed_holds_reached(w: Seq<u64>, start: int, end: int, h: int, m: Set<u64>, a: int, b: int, n: nat)
    requires
        m.contains(addr(start, a)),
        reaches(w, start, end, h, a, b, n),
        forall|x: int, c: int|
            m.contains(addr(start, x)) && #[trigger] child(w, start, end, h, x, c) ==> m.contains(addr(start, c)),
    ensures
        m.contains(addr(start, b)),
    decreases n,
{
    if a != b {
        let c = choose|c: int| child(w, start, end, h, a, c) && reaches(w, start, end, h, c, b, (n - 1) as nat);
        lemma_closed_holds_reached(w, start, end, h, m, c, b, (n - 1) as nat);
    }
}

/// Marks, from the roots, every object that they reach: afterwards the
/// marked addresses are those of the reached objects, and the heap holds 1
/// in their gc words.
fn mark_from_roots(heap: &mut Memory, stack: &Memory, root: &HashMap<u64, Vec<u64>>, Ghost(h): Ghost<int>)
    requires
        old(heap).below_i64_max(),
        0 <= h <= old(heap).words@.len(),
        chain_ok(old(heap).words@, 0, h),
        refs_ok(old(heap).words@, old(heap).start as int, heap_end(*old(heap)), h),
        stack.below_i64_max(),
        roots_of(root@, stack.words@, stack.start as int, old(heap).start as int, heap_end(*old(heap))),
        forall|n: int|
            0 <= n < stack.words@.len() && #[trigger] is_root(old(heap).start as int, heap_end(*old(heap)), stack.words@[n])
                ==> names_obj(old(heap).words@, old(heap).start as int, h, stack.words@[n]),
    ensures
        final(heap).start == old(heap).start,
        final(heap).words@ == marks(
            old(heap).words@,
            old(heap).start as int,
            heap_end(*old(heap)),
            h,
            stack.words@,
        ),
{
    let ghost w0 = heap.words@;
    let ghost start = heap.start as int;
    let ghost end = heap_end(*heap);
    let ghost s = stack.words@;
    let ghost ss = stack.start as int;
    let mut marked: HashSet<u64> = HashSet::new();
    assert(heap.words@ =~= marked_words(w0, start, h, marked@));
    let ghost ks = vstd::std_specs::hash::spec_keys_iter(root).remaining();
    for key in it: root.keys()
        invariant
            it.seq() == ks,
            heap.start == start,
            heap.below_i64_max(),
            heap.words@.len() == w0.len(),
            end == heap_end(*heap),
            0 <= h <= w0.len(),
            chain_ok(w0, 0, h),
            refs_ok(w0, start, end, h),
            stack.below_i64_max(),
            s == stack.words@,
            ss == stack.start,
            roots_of(root@, s, ss, start, end),
            forall|n: int|
                0 <= n < s.len() && #[trigger] is_root(start, end, s[n]) ==> names_obj(w0, start, h, s[n]),
            heap.words@ == marked_words(w0, start, h, marked@),
            obj_addrs(w0, start, h, marked@),
            forall|i: int| 0 <= i < it.index() ==> marked@.contains(*(#[trigger] ks[i])),
            forall|a: u64| #[trigger] marked@.contains(a) ==> reached(w0, start, end, h, s, (a - start) / 8),
            forall|x: int, c: int|
                marked@.contains(addr(start, x)) && #[trigger] child(w0, start, end, h, x, c) ==> marked@.contains(
                    addr(start, c),
                ),
    {
        assert(root@.contains_key(*key));
        let ghost k = *key;
        proof {
            lemma_slots_above(s, ss, start, end, k, 0);
            let a0 = slots_above(s, ss, start, end, k, 0)[0];
            let n0 = (a0 - ss) / 8;
            assert(is_root(start, end, s[n0]) && s[n0] - 1 == k);
            assert(names_obj(w0, start, h, s[n0]));
        }
        let ghost n0 = (slots_above(s, ss, start, end, k, 0)[0] - ss) / 8;
        let ghost before = marked@;
        snek_gc_mark(heap, *key, &mut marked, Ghost(w0), Ghost(h));
        proof {
            assert(target(start, s[n0]) == (k - start) / 8);
            assert forall|a: u64| #[trigger] marked@.contains(a) implies reached(w0, start, end, h, s, (a - start) / 8) by {
                if !before.contains(a) {
                    assert(reachable(w0, start, end, h, (k - start) / 8, (a - start) / 8));
                    assert(is_root(start, end, s[n0]));
                }
            }
            assert forall|x: int, c: int|
                marked@.contains(addr(start, x)) && #[trigger] child(w0, start, end, h, x, c) implies marked@.contains(
                addr(start, c),
            ) by {
                let a = addr(start, x);
                assert(is_obj(w0, 0, h, x));
                lemma_is_obj_bounds(w0, 0, h, x);
                assert((a - start) / 8 == x);
                if !before.contains(a) {
                } else {
                    assert(before.contains(addr(start, c)));
                }
            }
        }
    }
    proof {
        assert forall|j: int| 0 <= j < w0.len() implies #[trigger] marked_words(w0, start, h, marked@)[j] == marks(
            w0,
            start,
            end,
            h,
            s,
        )[j] by {
            if is_obj(w0, 0, h, j) {
                lemma_is_obj_bounds(w0, 0, h, j);
                assert((addr(start, j) - start) / 8 == j);
                if reached(w0, start, end, h, s, j) {
                    let n = choose|n: int|
                        0 <= n < s.len() && #[trigger] is_root(start, end, s[n]) && reachable(
                            w0,
                            start,
                            end,
                            h,
                            target(start, s[n]),
                            j,
                        );
                    let k = (s[n] - 1) as u64;
                    lemma_slots_above(s, ss, start, end, k, 0);
                    assert(slots_above(s, ss, start, end, k, 0).contains(addr(ss, n)));
                    assert(root@.contains_key(k));
                    assert(ks.unref().to_set().contains(k));
                    let i = choose|i: int| 0 <= i < ks.len() && *ks[i] == k;
                    assert(marked@.contains(*ks[i]));
                    assert(names_obj(w0, start, h, s[n]));
                    let t = target(start, s[n]);
                    assert(addr(start, t) == k);
                    let m = choose|m: nat| reaches(w0, start, end, h, t, j, m);
                    lemma_closed_holds_reached(w0, start, end, h, marked@, t, j, m);
                }
            }
        }
        assert(marked_words(w0, start, h, marked@) =~= marks(w0, start, end, h, s));
    }
}

/// The stack once each root names the new address of its object, plus one.
pub open spec fn roots_moved(w: Seq<u64>, start: int, end: int, h: int, s: Seq<u64>) -> Seq<u64> {
    Seq::new(
        s.len(),
        |n: int|
            if is_root(start, end, s[n]) {
                (start + 8 * new_pos(w, start, end, h, s, target(start, s[n])) + 1) as u64
            } else {
                s[n]
            },
    )
}

/// The heap pointer after a collection: the address past the reached
/// objects once they are slid down to the heap's start.
pub open spec fn gc_heap_ptr(heap: Memory, heap_ptr: u64, stack: Memory) -> int {
    let w = heap.words@;
    let start = heap.start as int;
    let h = word_of(heap, heap_ptr as int);
    start + 8 * live_words(marks(w, start, heap_end(heap), h, stack.words@), 0, h, h)
}

/// `heap1` and `stack1` are what a collection makes of `heap0` and
/// `stack0`: each object reached from the roots sits at its new place with
/// a clear gc word, its length, and its elements with each reference naming
/// the new address of its object; the words from the new heap pointer up
/// to the old one are those that the marking, forwarding and reference
/// updating left there; the heap above the old heap pointer is as it was;
/// and each root names the new address of its object.
pub open spec fn collected(heap0: Memory, heap_ptr: u64, stack0: Memory, heap1: Memory, stack1: Memory) -> bool {
    let w = heap0.words@;
    let start = heap0.start as int;
    let end = heap_end(heap0);
    let h = word_of(heap0, heap_ptr as int);
    let s = stack0.words@;
    &&& heap1.start == heap0.start
    &&& heap1.words@.len() == w.len()
    &&& stack1.start == stack0.start
    &&& forall|o: int|
        #![trigger reached(w, start, end, h, s, o)]
        is_obj(w, 0, h, o) && reached(w, start, end, h, s, o) ==> {
            let p = new_pos(w, start, end, h, s, o);
            &&& heap1.words@[p] == 0
            &&& heap1.words@[p + 1] == w[o + 1]
            &&& forall|i: int|
                2 <= i < next_obj(w, o) - o ==> #[trigger] heap1.words@[p + i] == moved_ref(w, start, end, h, s, w[o + i])
        }
    &&& forall|q: int|
        live_words(marks(w, start, end, h, s), 0, h, h) <= q < h ==> #[trigger] heap1.words@[q] == relocated(
            forwarded(marks(w, start, end, h, s), start, h),
            start,
            end,
            h,
        )[q]
    &&& forall|q: int| h <= q < w.len() ==> #[trigger] heap1.words@[q] == w[q]
    &&& stack1.words@ == roots_moved(w, start, end, h, s)
}

/// What the heap is once the marked objects have their forwarding addresses.
proof fn lemma_forwarded_heap(
    w0: Seq<u64>,
    start: int,
    end: int,
    h: int,
    s: Seq<u64>,
    w1: Seq<u64>,
    w2: Seq<u64>,
)
    requires
        0 <= h <= w0.len(),
        chain_ok(w0, 0, h),
        0 < start,
        start + 8 * w0.len() <= i64::MAX,
        end == start + 8 * w0.len(),
        forall|o: int| #[trigger] is_obj(w0, 0, h, o) ==> w0[o] == 0,
        refs_ok(w0, start, end, h),
        w1 == marks(w0, start, end, h, s),
        w2 == forwarded(w1, start, h),
    ensures
        chain_ok(w1, 0, h),
        chain_ok(w2, 0, h),
        forall|o: int| is_obj(w0, 0, h, o) == #[trigger] is_obj(w1, 0, h, o),
        forall|o: int| is_obj(w0, 0, h, o) == #[trigger] is_obj(w2, 0, h, o),
        forall|o: int|
            #[trigger] is_obj(w0, 0, h, o) ==> {
                &&& w1[o + 1] == w0[o + 1]
                &&& w2[o + 1] == w0[o + 1]
                &&& (w1[o] != 0) == reached(w0, start, end, h, s, o)
                &&& (w2[o] != 0) == reached(w0, start, end, h, s, o)
                &&& w2[o] < u64::MAX
                &&& reached(w0, start, end, h, s, o) ==> w2[o] == (start + 8 * new_pos(w0, start, end, h, s, o)) as u64
            },
        forall|o: int, j: int|
            #![trigger is_obj(w0, 0, h, o), w2[j]]
            is_obj(w0, 0, h, o) && o + 2 <= j < next_obj(w0, o) ==> w2[j] == w0[j],
        forall|q: int| h <= q < w0.len() ==> #[trigger] w2[q] == w0[q],
        live_refs_ok(w2, start, end, h),
{
    assert forall|o: int| #[trigger] is_obj(w0, 0, h, o) implies w0[o + 1] == w1[o + 1] by {
        lemma_is_obj_bounds(w0, 0, h, o);
        if is_obj(w0, 0, h, o + 1) {
            lemma_objects_disjoint(w0, 0, h, o, o + 1);
        }
    }
    lemma_lengths_frame(w0, w1, 0, h);
    assert forall|o: int| #[trigger] is_obj(w1, 0, h, o) implies w1[o + 1] == w2[o + 1] by {
        lemma_is_obj_bounds(w1, 0, h, o);
        if is_obj(w1, 0, h, o + 1) {
            lemma_objects_disjoint(w1, 0, h, o, o + 1);
        }
    }
    lemma_lengths_frame(w1, w2, 0, h);
    lemma_lengths_frame(w0, w2, 0, h);
    assert forall|o: int| #[trigger] is_obj(w0, 0, h, o) implies {
        &&& w1[o + 1] == w0[o + 1]
        &&& w2[o + 1] == w0[o + 1]
        &&& (w1[o] != 0) == reached(w0, start, end, h, s, o)
        &&& (w2[o] != 0) == reached(w0, start, end, h, s, o)
        &&& w2[o] < u64::MAX
        &&& reached(w0, start, end, h, s, o) ==> w2[o] == (start + 8 * new_pos(w0, start, end, h, s, o)) as u64
    } by {
        lemma_is_obj_bounds(w0, 0, h, o);
        lemma_live_words_bound(w1, 0, h, o);
        assert(is_obj(w1, 0, h, o));
    }
    assert forall|o: int, j: int|
        #![trigger is_obj(w0, 0, h, o), w2[j]]
        is_obj(w0, 0, h, o) && o + 2 <= j < next_obj(w0, o) implies w2[j] == w0[j] by {
        lemma_is_obj_bounds(w0, 0, h, o);
        if is_obj(w0, 0, h, j) {
            lemma_objects_disjoint(w0, 0, h, o, j);
        }
    }
    assert forall|q: int| h <= q < w0.len() implies #[trigger] w2[q] == w0[q] by {
        if is_obj(w0, 0, h, q) {
            lemma_is_obj_bounds(w0, 0, h, q);
        }
    }
    assert forall|o: int, j: int|
        #![trigger is_obj(w2, 0, h, o), w2[j]]
        is_obj(w2, 0, h, o) && w2[o] != 0 && o + 2 <= j < next_obj(w2, o) && is_ref(start, end, w2[j])
            implies names_obj(w2, start, h, w2[j]) && w2[target(start, w2[j])] < u64::MAX by {
        assert(is_obj(w0, 0, h, o));
        lemma_is_obj_bounds(w0, 0, h, o);
        assert(w2[j] == w0[j]);
        assert(is_ref(start, end, w0[j]));
        assert(names_obj(w0, start, h, w0[j]));
        assert(is_obj(w0, 0, h, target(start, w0[j])));
    }
}

/// What the heap is once the references of the reached objects are updated.
#[verifier::rlimit(40)]
proof fn lemma_relocated_heap(
    w0: Seq<u64>,
    start: int,
    end: int,
    h: int,
    s: Seq<u64>,
    w1: Seq<u64>,
    w2: Seq<u64>,
    w3: Seq<u64>,
)
    requires
        0 <= h <= w0.len(),
        chain_ok(w0, 0, h),
        0 < start,
        start + 8 * w0.len() <= i64::MAX,
        end == start + 8 * w0.len(),
        w1.len() == w0.len(),
        w2.len() == w0.len(),
        refs_ok(w0, start, end, h),
        w1 == marks(w0, start, end, h, s),
        chain_ok(w1, 0, h),
        chain_ok(w2, 0, h),
        forall|o: int| is_obj(w0, 0, h, o) == #[trigger] is_obj(w1, 0, h, o),
        forall|o: int| is_obj(w0, 0, h, o) == #[trigger] is_obj(w2, 0, h, o),
        forall|o: int|
            #[trigger] is_obj(w0, 0, h, o) ==> {
                &&& w1[o + 1] == w0[o + 1]
                &&& w2[o + 1] == w0[o + 1]
                &&& (w1[o] != 0) == reached(w0, start, end, h, s, o)
                &&& (w2[o] != 0) == reached(w0, start, end, h, s, o)
                &&& w2[o] < u64::MAX
                &&& reached(w0, start, end, h, s, o) ==> w2[o] == (start + 8 * new_pos(w0, start, end, h, s, o)) as u64
            },
        forall|o: int, j: int|
            #![trigger is_obj(w0, 0, h, o), w2[j]]
            is_obj(w0, 0, h, o) && o + 2 <= j < next_obj(w0, o) ==> w2[j] == w0[j],
        forall|q: int| h <= q < w0.len() ==> #[trigger] w2[q] == w0[q],
        w3 == relocated(w2, start, end, h),
    ensures
        chain_ok(w3, 0, h),
        forall|o: int| is_obj(w0, 0, h, o) == #[trigger] is_obj(w3, 0, h, o),
        forall|o: int| #[trigger] is_obj(w0, 0, h, o) ==> w3[o] == w2[o] && w3[o + 1] == w0[o + 1],
        forall|x: int| #[trigger] live_words(w3, 0, h, x) == live_words(w1, 0, h, x),
        forall|o: int, j: int|
            #![trigger reached(w0, start, end, h, s, o), w3[j]]
            is_obj(w0, 0, h, o) && reached(w0, start, end, h, s, o) && o + 2 <= j < next_obj(w0, o) ==> w3[j]
                == moved_ref(w0, start, end, h, s, w0[j]),
        forall|q: int| h <= q < w0.len() ==> #[trigger] w3[q] == w0[q],
{
    assert forall|o: int| #[trigger] is_obj(w0, 0, h, o) implies w3[o] == w2[o] && w3[o + 1] == w0[o + 1] by {
        assert(is_obj(w2, 0, h, o));
        lemma_is_obj_bounds(w0, 0, h, o);
        if live_elem(w2, h, o) {
            let x = choose|x: int|
                #![trigger is_obj(w2, 0, h, x)]
                is_obj(w2, 0, h, x) && w2[x] != 0 && x + 2 <= o < next_obj(w2, x);
            lemma_one_owner(w2, h, x, o, o);
        }
        if live_elem(w2, h, o + 1) {
            let x = choose|x: int|
                #![trigger is_obj(w2, 0, h, x)]
                is_obj(w2, 0, h, x) && w2[x] != 0 && x + 2 <= o + 1 < next_obj(w2, x);
            lemma_one_owner(w2, h, x, o, o + 1);
        }
    }
    lemma_lengths_frame(w0, w3, 0, h);
    assert forall|o: int| #[trigger] is_obj(w1, 0, h, o) implies w1[o + 1] == w3[o + 1] && (w1[o] != 0) == (w3[o]
        != 0) by {
        assert(is_obj(w0, 0, h, o));
    }
    assert forall|x: int| #[trigger] live_words(w3, 0, h, x) == live_words(w1, 0, h, x) by {
        lemma_live_words_same(w1, w3, 0, h, x);
    }
    assert forall|o: int, j: int|
        #![trigger reached(w0, start, end, h, s, o), w3[j]]
        is_obj(w0, 0, h, o) && reached(w0, start, end, h, s, o) && o + 2 <= j < next_obj(w0, o) implies w3[j]
            == moved_ref(w0, start, end, h, s, w0[j]) by {
        lemma_is_obj_bounds(w0, 0, h, o);
        assert(is_obj(w2, 0, h, o) && w2[o] != 0);
        assert(live_elem(w2, h, j));
        assert(w2[j] == w0[j]);
        let v = w0[j];
        if is_ref(start, end, v) {
            assert(names_obj(w0, start, h, v));
            let t = target(start, v);
            lemma_is_obj_bounds(w0, 0, h, t);
            assert(child(w0, start, end, h, o, t));
            let n = choose|n: int|
                0 <= n < s.len() && #[trigger] is_root(start, end, s[n]) && reachable(
                    w0,
                    start,
                    end,
                    h,
                    target(start, s[n]),
                    o,
                );
            let m = choose|m: nat| reaches(w0, start, end, h, target(start, s[n]), o, m);
            lemma_reaches_snoc(w0, start, end, h, target(start, s[n]), o, t, m);
            assert(reached(w0, start, end, h, s, t));
            lemma_live_words_bound(w1, 0, h, t);
        }
    }
    assert forall|q: int| h <= q < w0.len() implies #[trigger] w3[q] == w0[q] by {
        if live_elem(w2, h, q) {
            let o = choose|o: int|
                #![trigger is_obj(w2, 0, h, o)]
                is_obj(w2, 0, h, o) && w2[o] != 0 && o + 2 <= q < next_obj(w2, o);
            lemma_is_obj_bounds(w2, 0, h, o);
        }
    }
}

/// Collects the garbage: marks what the roots on the stack reach, slides the
/// reached objects down to the start of the heap in their order, points
/// every reference among them and every root at the new addresses, and
/// gives the new heap pointer. The stack runs from its top, the first word
/// (the stack pointer of the frame that asked), to its base, the last word.
pub fn snek_gc(heap: &mut Memory, heap_ptr: u64, stack: &mut Memory) -> (r: u64)
    requires
        gc_ready(*old(heap), heap_ptr, *old(stack)),
    ensures
        collected(*old(heap), heap_ptr, *old(stack), *final(heap), *final(stack)),
        r == gc_heap_ptr(*old(heap), heap_ptr, *old(stack)),
        r <= old(heap).start + 8 * word_of(*old(heap), heap_ptr as int),
{
    let ghost w0 = heap.words@;
    let ghost start = heap.start as int;
    let ghost end = heap_end(*heap);
    let ghost s = stack.words@;
    let ghost h = word_of(*heap, heap_ptr as int);
    let root = snek_gc_get_root(heap, stack);
    mark_from_roots(heap, stack, &root, Ghost(h));
    let ghost w1 = heap.words@;
    proof {
        assert forall|o: int| #[trigger] is_obj(w0, 0, h, o) implies w0[o + 1] == w1[o + 1] by {
            lemma_is_obj_bounds(w0, 0, h, o);
            if is_obj(w0, 0, h, o + 1) {
                lemma_objects_disjoint(w0, 0, h, o, o + 1);
            }
        }
        lemma_lengths_frame(w0, w1, 0, h);
    }
    snek_gc_compute_forwarding_addresses(heap, heap_ptr);
    let ghost w2 = heap.words@;
    proof {
        lemma_forwarded_heap(w0, start, end, h, s, w1, w2);
    }
    snek_gc_update_references(heap, heap_ptr);
    let ghost w3 = heap.words@;
    proof {
        lemma_relocated_heap(w0, start, end, h, s, w1, w2, w3);
        assert forall|n: int|
            0 <= n < s.len() && #[trigger] is_root(start, end, s[n]) implies heap.holds(s[n] - 1) && heap.at(s[n] - 1)
            < u64::MAX by {
            assert(names_obj(w0, start, h, s[n]));
            let t = target(start, s[n]);
            lemma_is_obj_bounds(w0, 0, h, t);
            assert(heap.at(s[n] - 1) == w3[t]);
        }
    }
    let ghost heap3 = *heap;
    snek_gc_update_stack(stack, root, heap);
    let r = snek_gc_move_objects(heap, heap_ptr);
    proof {
        let w5 = heap.words@;
        assert forall|o: int|
            #![trigger reached(w0, start, end, h, s, o)]
            is_obj(w0, 0, h, o) && reached(w0, start, end, h, s, o) implies {
                let p = new_pos(w0, start, end, h, s, o);
                &&& w5[p] == 0
                &&& w5[p + 1] == w0[o + 1]
                &&& forall|i: int|
                    2 <= i < next_obj(w0, o) - o ==> #[trigger] w5[p + i] == moved_ref(w0, start, end, h, s, w0[o + i])
            } by {
            let p = new_pos(w0, start, end, h, s, o);
            assert(is_obj(w3, 0, h, o));
            assert(w3[o] != 0);
            assert(placed(w5, w3, o, live_words(w3, 0, h, o)));
            assert(p == live_words(w3, 0, h, o));
            assert(w5[p + 0] == 0);
            assert(w5[p + 1] == w3[o + 1]);
            assert forall|i: int| 2 <= i < next_obj(w0, o) - o implies #[trigger] w5[p + i] == moved_ref(
                w0,
                start,
                end,
                h,
                s,
                w0[o + i],
            ) by {
                assert(w5[p + i] == w3[o + i]);
            }
        }
        assert forall|n: int| 0 <= n < s.len() implies #[trigger] stack.words@[n] == roots_moved(
            w0,
            start,
            end,
            h,
            s,
        )[n] by {
            if is_root(start, end, s[n]) {
                let t = target(start, s[n]);
                assert(names_obj(w0, start, h, s[n]));
                lemma_is_obj_bounds(w0, 0, h, t);
                assert(reaches(w0, start, end, h, t, t, 0));
                assert(reached(w0, start, end, h, s, t));
                assert(heap3.at(s[n] - 1) == w3[t]);
                lemma_live_words_bound(w1, 0, h, t);
            }
        }
        assert(stack.words@ =~= roots_moved(w0, start, end, h, s));
        lemma_live_words_bound(w1, 0, h, h);
        assert(live_words(w3, 0, h, h) == live_words(w1, 0, h, h));
        assert forall|q: int| live_words(w1, 0, h, h) <= q < h implies #[trigger] w5[q] == relocated(
            forwarded(w1, start, h),
            start,
            end,
            h,
        )[q] by {
            assert(w5[q] == w3[q]);
        }
    }
    r
}

proof fn lemma_live_words_grow(w: Seq<u64>, k: int, h: int, o1: int, o2: int)
    requires
        is_obj(w, k, h, o1),
        next_obj(w, o1) <= o2,
    ensures
        live_words(w, k, h, o1) + (if w[o1] != 0 {
            next_obj(w, o1) - o1
        } else {
            0
        }) <= live_words(w, k, h, o2),
    decreases h - k,
{
    let n = next_obj(w, k);
    if o1 == k {
        lemma_live_words_nonneg(w, n, h, o2);
    } else {
        lemma_is_obj_bounds(w, k, h, o1);
        lemma_live_words_grow(w, n, h, o1, o2);
    }
}

/// A collection keeps the reached objects in their order and packs them
/// without overlap: each one ends at or before the start of any reached
/// object after it, and all of them end at or before the new heap pointer.
pub proof fn lemma_gc_keeps_order(heap: Memory, heap_ptr: u64, stack: Memory, o1: int, o2: int)
    requires
        gc_ready(heap, heap_ptr, stack),
        is_obj(heap.words@, 0, word_of(heap, heap_ptr as int), o1),
        reached(heap.words@, heap.start as int, heap_end(heap), word_of(heap, heap_ptr as int), stack.words@, o1),
    ensures
        ({
            let w = heap.words@;
            let start = heap.start as int;
            let end = heap_end(heap);
            let h = word_of(heap, heap_ptr as int);
            let s = stack.words@;
            let last = new_pos(w, start, end, h, s, o1) + (next_obj(w, o1) - o1);
            &&& is_obj(w, 0, h, o2) && reached(w, start, end, h, s, o2) && o1 < o2 ==> last <= new_pos(
                w,
                start,
                end,
                h,
                s,
                o2,
            )
            &&& start + 8 * last <= gc_heap_ptr(heap, heap_ptr, stack)
        }),
{
    let w = heap.words@;
    let start = heap.start as int;
    let end = heap_end(heap);
    let h = word_of(heap, heap_ptr as int);
    let s = stack.words@;
    let w1 = marks(w, start, end, h, s);
    assert forall|o: int| #[trigger] is_obj(w, 0, h, o) implies w[o + 1] == w1[o + 1] by {
        lemma_is_obj_bounds(w, 0, h, o);
        if is_obj(w, 0, h, o + 1) {
            lemma_objects_disjoint(w, 0, h, o, o + 1);
        }
    }
    lemma_lengths_frame(w, w1, 0, h);
    lemma_is_obj_bounds(w, 0, h, o1);
    assert(is_obj(w1, 0, h, o1));
    assert(w1[o1] != 0);
    lemma_live_words_grow(w1, 0, h, o1, h);
    if is_obj(w, 0, h, o2) && o1 < o2 {
        lemma_objects_disjoint(w, 0, h, o1, o2);
        lemma_live_words_grow(w1, 0, h, o1, o2);
    }
}

/// Makes room for `count` words when they do not fit below the heap's end:
/// collects the garbage and gives the new heap pointer, or, where the words
/// still do not fit, the out of memory error.
pub fn snek_try_gc(count: isize, heap: &mut Memory, heap_ptr: u64, stack: &mut Memory) -> (r: Result<u64, ErrCode>)
    requires
        gc_ready(*old(heap), heap_ptr, *old(stack)),
        0 <= count,
    ensures
        collected(*old(heap), heap_ptr, *old(stack), *final(heap), *final(stack)),
        r == if gc_heap_ptr(*old(heap), heap_ptr, *old(stack)) + 8 * count > heap_end(*old(heap)) {
            Err::<u64, ErrCode>(ErrCode::OutOfMemory)
        } else {
            Ok(gc_heap_ptr(*old(heap), heap_ptr, *old(stack)) as u64)
        },
{
    let heap_end_addr = heap.start + 8 * (heap.words.len() as u64);
    let new_heap_ptr = snek_gc(heap, heap_ptr, stack);
    let room = (heap_end_addr - new_heap_ptr) / 8;
    if room < count as u64 {
        Err(ErrCode::OutOfMemory)
    } else {
        Ok(new_heap_ptr)
    }
}

/// Walks the objects from the heap's start to the heap pointer; gives
/// whether they are whole, one after the other, with clear gc words, and
/// which words start one.
fn object_starts(heap: &Memory, h: usize) -> (r: Option<Vec<bool>>)
    requires
        h <= heap.words@.len(),
    ensures
        match r {
            Some(st) => {
                &&& chain_ok(heap.words@, 0, h as int)
                &&& forall|o: int| #[trigger] is_obj(heap.words@, 0, h as int, o) ==> heap.words@[o] == 0
                &&& st@.len() == h
                &&& forall|j: int| 0 <= j < h ==> #[trigger] st@[j] == is_obj(heap.words@, 0, h as int, j)
            },
            None => !chain_ok(heap.words@, 0, h as int) || exists|o: int|
                #[trigger] is_obj(heap.words@, 0, h as int, o) && heap.words@[o] != 0,
        },
{
    let ghost w = heap.words@;
    let ghost hh = h as int;
    let mut st: Vec<bool> = Vec::new();
    let mut j: usize = 0;
    while j < h
        invariant
            j <= h,
            st@.len() == j,
            forall|q: int| 0 <= q < j ==> st@[q] == false,
        decreases h - j,
    {
        st.push(false);
        j = j + 1;
    }
    let mut k: usize = 0;
    while k < h
        invariant
            k <= h,
            w == heap.words@,
            hh == h,
            h <= w.len(),
            st@.len() == h,
            chain_ok(w, 0, hh) == chain_ok(w, k as int, hh),
            forall|q: int| k <= q ==> is_obj(w, 0, hh, q) == #[trigger] is_obj(w, k as int, hh, q),
            forall|q: int| 0 <= q < k ==> #[trigger] st@[q] == is_obj(w, 0, hh, q),
            forall|q: int| k <= q < h ==> #[trigger] st@[q] == false,
            forall|o: int| 0 <= o < k && #[trigger] is_obj(w, 0, hh, o) ==> w[o] == 0,
        decreases h - k,
    {
        if h - k < 2 {
            assert(!chain_ok(w, k as int, hh));
            return None;
        }
        let length = heap.words[k + 1];
        if length > (h - k - 2) as u64 {
            assert(!chain_ok(w, k as int, hh));
            return None;
        }
        let n = k + 2 + length as usize;
        assert(n == next_obj(w, k as int));
        assert(is_obj(w, k as int, hh, k as int));
        if heap.words[k] != 0 {
            assert(is_obj(w, 0, hh, k as int));
            return None;
        }
        st.set(k, true);
        proof {
            assert forall|q: int| n <= q implies is_obj(w, 0, hh, q) == #[trigger] is_obj(w, n as int, hh, q) by {
                assert(is_obj(w, 0, hh, q) == is_obj(w, k as int, hh, q));
            }
            assert forall|q: int| 0 <= q < n implies #[trigger] st@[q] == is_obj(w, 0, hh, q) by {
                if k <= q {
                    assert(is_obj(w, 0, hh, q) == is_obj(w, k as int, hh, q));
                    if q != k && is_obj(w, n as int, hh, q) {
                        lemma_is_obj_bounds(w, n as int, hh, q);
                    }
                }
            }
            assert forall|o: int| 0 <= o < n && #[trigger] is_obj(w, 0, hh, o) implies w[o] == 0 by {
                if k <= o {
                    assert(is_obj(w, 0, hh, o) == is_obj(w, k as int, hh, o));
                    if o != k && is_obj(w, n as int, hh, o) {
                        lemma_is_obj_bounds(w, n as int, hh, o);
                    }
                }
            }
        }
        k = n;
    }
    proof {
        assert forall|o: int| #[trigger] is_obj(w, 0, hh, o) implies w[o] == 0 by {
            lemma_is_obj_bounds(w, 0, hh, o);
        }
    }
    Some(st)
}

/// The reference `v` names a word that starts an object, where `st` tells
/// which words of the `h` below the heap pointer do.
fn names_start(heap_start: u64, st: &Vec<bool>, v: u64) -> (r: bool)
    requires
        v >= 1,
    ensures
        r == (heap_start <= v - 1 && (v - 1 - heap_start) % 8 == 0 && (v - 1 - heap_start) / 8 < st@.len()
            && st@[(v - 1 - heap_start) / 8]),
{
    if v - 1 < heap_start || (v - 1 - heap_start) % 8 != 0 {
        return false;
    }
    let t = (v - 1 - heap_start) / 8;
    if t >= st.len() as u64 {
        return false;
    }
    st[t as usize]
}

/// Whether the heap and the stack are in the state in which the collector
/// may be called.
pub fn snek_gc_ready(heap: &Memory, heap_ptr: u64, stack: &Memory) -> (r: bool)
    ensures
        r == gc_ready(*heap, heap_ptr, *stack),
{
    let ghost w = heap.words@;
    let ghost start = heap.start as int;
    let len = heap.words.len();
    let slen = stack.words.len();
    if heap.start > 0x7fff_ffff_ffff_ffff || (len as u64) > (0x7fff_ffff_ffff_ffff - heap.start) / 8 {
        return false;
    }
    if (slen as u64) > 0x7fff_ffff_ffff_ffff / 8 || stack.start > 0x7fff_ffff_ffff_ffff - 8 * (slen as u64) {
        return false;
    }
    assert(heap.below_i64_max());
    assert(stack.below_i64_max());
    if heap.start == 0 || heap_ptr < heap.start || (heap_ptr - heap.start) % 8 != 0 || (heap_ptr - heap.start) / 8
        > len as u64 {
        return false;
    }
    let h: usize = ((heap_ptr - heap.start) / 8) as usize;
    let ghost hh = h as int;
    assert(hh == word_of(*heap, heap_ptr as int));
    let heap_start = heap.start;
    let heap_end_addr = heap.start + 8 * (len as u64);
    let ghost end = heap_end(*heap);
    let st = match object_starts(heap, h) {
        Some(st) => st,
        None => return false,
    };
    let mut k: usize = 0;
    while k < h
        invariant
            k <= h,
            w == heap.words@,
            hh == h,
            hh == word_of(*heap, heap_ptr as int),
            end == heap_end(*heap),
            h <= w.len(),
            start == heap.start,
            heap_start == heap.start,
            end == heap_end_addr,
            end == heap_end(*heap),
            heap.below_i64_max(),
            chain_ok(w, k as int, hh),
            st@.len() == h,
            forall|j: int| 0 <= j < h ==> #[trigger] st@[j] == is_obj(w, 0, hh, j),
            forall|q: int| k <= q ==> is_obj(w, 0, hh, q) == #[trigger] is_obj(w, k as int, hh, q),
            forall|o: int, i: int|
                #![trigger is_obj(w, 0, hh, o), w[i]]
                is_obj(w, 0, hh, o) && 0 <= o < k && o + 2 <= i < next_obj(w, o) && is_ref(start, end, w[i]) ==> names_obj(
                    w,
                    start,
                    hh,
                    w[i],
                ),
        decreases h - k,
    {
        let length = heap.words[k + 1];
        let n = k + 2 + length as usize;
        assert(n == next_obj(w, k as int));
        assert(is_obj(w, k as int, hh, k as int));
        assert(is_obj(w, 0, hh, k as int));
        let mut i = k + 2;
        while i < n
            invariant
                k + 2 <= i <= n,
                is_obj(w, 0, hh, k as int),
                n == next_obj(w, k as int),
                n <= h,
                h <= w.len(),
                w == heap.words@,
                hh == h,
                hh == word_of(*heap, heap_ptr as int),
                end == heap_end(*heap),
            hh == word_of(*heap, heap_ptr as int),
            end == heap_end(*heap),
                start == heap.start,
                heap_start == heap.start,
                end == heap_end_addr,
                st@.len() == h,
                forall|j: int| 0 <= j < h ==> #[trigger] st@[j] == is_obj(w, 0, hh, j),
                forall|q: int|
                    k + 2 <= q < i && is_ref(start, end, #[trigger] w[q]) ==> names_obj(w, start, hh, w[q]),
            decreases n - i,
        {
            let v = heap.words[i];
            if v & 1 == 1 && v >= heap_start && v < heap_end_addr {
                assert(v & 1 == 1 ==> v >= 1) by (bit_vector);
                if !names_start(heap_start, &st, v) {
                    proof {
                        if names_obj(w, start, hh, v) {
                            lemma_is_obj_bounds(w, 0, hh, target(start, v));
                        }
                        assert(!names_obj(w, start, hh, w[i as int]));
                    }
                    return false;
                }
            }
            i = i + 1;
        }
        proof {
            assert forall|o: int, q: int|
                #![trigger is_obj(w, 0, hh, o), w[q]]
                is_obj(w, 0, hh, o) && 0 <= o < n && o + 2 <= q < next_obj(w, o) && is_ref(start, end, w[q]) implies names_obj(
                w,
                start,
                hh,
                w[q],
            ) by {
                if o >= k {
                    assert(is_obj(w, 0, hh, o) == is_obj(w, k as int, hh, o));
                    if o != k && is_obj(w, n as int, hh, o) {
                        lemma_is_obj_bounds(w, n as int, hh, o);
                    }
                }
            }
            assert forall|q: int| n <= q implies is_obj(w, 0, hh, q) == #[trigger] is_obj(w, n as int, hh, q) by {
                assert(is_obj(w, 0, hh, q) == is_obj(w, k as int, hh, q));
            }
        }
        k = n;
    }
    proof {
        assert forall|o: int, q: int|
            #![trigger is_obj(w, 0, hh, o), w[q]]
            is_obj(w, 0, hh, o) && o + 2 <= q < next_obj(w, o) && is_ref(start, end, w[q]) implies names_obj(
            w,
            start,
            hh,
            w[q],
        ) by {
            lemma_is_obj_bounds(w, 0, hh, o);
        }
    }
    let ghost s = stack.words@;
    let mut m: usize = 0;
    while m < slen
        invariant
            m <= slen,
            slen == s.len(),
            s == stack.words@,
            w == heap.words@,
            hh == h,
            hh == word_of(*heap, heap_ptr as int),
            end == heap_end(*heap),
            start == heap.start,
            heap_start == heap.start,
            end == heap_end_addr,
            st@.len() == h,
            forall|j: int| 0 <= j < h ==> #[trigger] st@[j] == is_obj(w, 0, hh, j),
            forall|n: int| 0 <= n < m && #[trigger] is_root(start, end, s[n]) ==> names_obj(w, start, hh, s[n]),
        decreases slen - m,
    {
        let v = stack.words[m];
        assert(v & 3 == 1 ==> v >= 1) by (bit_vector);
        if v & 3 == 1 && v >= heap_start && v < heap_end_addr {
            if !names_start(heap_start, &st, v) {
                proof {
                    if names_obj(w, start, hh, v) {
                        lemma_is_obj_bounds(w, 0, hh, target(start, v));
                    }
                }
                assert(is_root(start, end, s[m as int]));
                return false;
            }
        }
        m = m + 1;
    }
    true
}

} // verus!
