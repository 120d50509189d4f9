//! What the Forest Flame runtime decides: the error codes and their
//! messages, how the input and the heap size are read, and how a value,
//! vectors included, is printed.
pub mod gc;
pub mod preserved;

use vstd::prelude::*;

use crate::decimal::{
    int_decimal, i64_to_string, lemma_decimal_is_number, parse_i64, parse_usize, parsed_in_range, push_i64_decimal,
};
use crate::memory::Memory;
use crate::text::str_eq;
use std::collections::HashSet;

verus! {

broadcast use vstd::std_specs::hash::group_hash_axioms;

/// A runtime error: each stops the program with its code as exit status.
#[derive(Clone, Copy, PartialEq, Eq, Debug)]
pub enum ErrCode {
    InvalidArgument,
    Overflow,
    IndexOutOfBounds,
    InvalidVecSize,
    OutOfMemory,
}

/// The number of an error code.
pub open spec fn code_value(e: ErrCode) -> i64 {
    match e {
        ErrCode::InvalidArgument => 1,
        ErrCode::Overflow => 2,
        ErrCode::IndexOutOfBounds => 3,
        ErrCode::InvalidVecSize => 4,
        ErrCode::OutOfMemory => 5,
    }
}

impl ErrCode {
    /// The number of this error code.
    pub fn code(self) -> (r: i64)
        ensures
            r == code_value(self),
    {
        match self {
            ErrCode::InvalidArgument => 1,
            ErrCode::Overflow => 2,
            ErrCode::IndexOutOfBounds => 3,
            ErrCode::InvalidVecSize => 4,
            ErrCode::OutOfMemory => 5,
        }
    }
}

/// The tagged value of `true`.
pub const TRUE: u64 = 7;
/// The tagged value of `false`.
pub const FALSE: u64 = 3;

/// The message of a runtime error code.
pub open spec fn error_text(errcode: i64) -> Seq<char> {
    if errcode == 1 {
        "invalid argument"@
    } else if errcode == 2 {
        "overflow"@
    } else if errcode == 3 {
        "index out of bounds"@
    } else if errcode == 4 {
        "vector size must be non-negative"@
    } else {
        "an error ocurred "@ + int_decimal(errcode as int)
    }
}

/// The message that the runtime prints for a runtime error code; it then
/// stops with [`exit_status`] of the code.
pub fn error_message(errcode: i64) -> (r: String)
    ensures
        r@ == error_text(errcode),
{
    let mut s = String::new();
    if errcode == ErrCode::InvalidArgument.code() {
        s.append("invalid argument");
    } else if errcode == ErrCode::Overflow.code() {
        s.append("overflow");
    } else if errcode == ErrCode::IndexOutOfBounds.code() {
        s.append("index out of bounds");
    } else if errcode == ErrCode::InvalidVecSize.code() {
        s.append("vector size must be non-negative");
    } else {
        proof { reveal_strlit("an error ocurred "); }
        s.append("an error ocurred ");
        push_i64_decimal(&mut s, errcode);
    }
    assert(s@ =~= error_text(errcode));
    s
}

/// The exit status with which the runtime stops on an error code: the code,
/// cut to 32 bits.
pub fn exit_status(errcode: i64) -> (r: i32)
    ensures
        r == errcode as i32,
{
    errcode as i32
}

/// Why the runtime refuses an input or a heap size: it is no number.
#[derive(Debug, Clone, Copy, PartialEq, Eq)]
pub enum InputError {
    NotANumber,
}

/// The tagged value of the input text `s`: `true`, `false`, or an `i64`
/// shifted left by one bit (its highest bit lost).
pub open spec fn input_value(s: Seq<char>) -> Result<u64, InputError> {
    if s == "true"@ {
        Ok(TRUE)
    } else if s == "false"@ {
        Ok(FALSE)
    } else {
        match parsed_in_range(s, true, i64::MIN as int, i64::MAX as int) {
            Some(v) => Ok(((v as i64) << 1) as u64),
            None => Err(InputError::NotANumber),
        }
    }
}

/// Encodes the program's input, or gives the [`InputError`] that
/// [`input_value`] names.
fn read_input(input: &str) -> (r: Result<u64, InputError>)
    ensures
        r == input_value(input@),
{
    if str_eq(input, "true") {
        Ok(TRUE)
    } else if str_eq(input, "false") {
        Ok(FALSE)
    } else {
        match parse_i64(input) {
            Some(v) => Ok((v << 1) as u64),
            None => Err(InputError::NotANumber),
        }
    }
}

/// Whether the runtime takes `input`: `Ok` exactly where [`input_value`]
/// gives a value, else its [`InputError`]. The runtime stops with the
/// message of std's integer parsing.
pub fn check_input(input: &str) -> (r: Result<(), InputError>)
    ensures
        (r is Ok) == (input_value(input@) is Ok),
        r matches Err(x) ==> input_value(input@) == Err::<u64, InputError>(x),
{
    match read_input(input) {
        Ok(_) => Ok(()),
        Err(x) => Err(x),
    }
}

/// Encodes the program's input: [`input_value`]. It takes only what
/// [`check_input`] passes.
pub fn parse_input(input: &str) -> (r: u64)
    requires
        input_value(input@) is Ok,
    ensures
        Ok::<u64, InputError>(r) == input_value(input@),
{
    match read_input(input) {
        Ok(v) => v,
        Err(_) => {
            proof {
                assert(false);
            }
            0
        },
    }
}

/// Reads the heap size, in words, or gives [`InputError::NotANumber`] where
/// the text is no `usize` (empty, negative, or no number).
fn read_heap_size(input: &str) -> (r: Result<usize, InputError>)
    ensures
        r == (match parsed_in_range(input@, false, 0, usize::MAX as int) {
            Some(v) => Ok(v as usize),
            None => Err::<usize, InputError>(InputError::NotANumber),
        }),
{
    match parse_usize(input) {
        Some(n) => Ok(n),
        None => Err(InputError::NotANumber),
    }
}

/// Whether the runtime takes `input` as the heap size: `Ok` exactly where
/// it is a `usize` in decimal, else [`InputError::NotANumber`]. The runtime
/// stops with the message of std's integer parsing.
pub fn check_heap_size(input: &str) -> (r: Result<(), InputError>)
    ensures
        (r is Ok) == (parsed_in_range(input@, false, 0, usize::MAX as int) is Some),
        r matches Err(x) ==> x == InputError::NotANumber,
{
    match read_heap_size(input) {
        Ok(_) => Ok(()),
        Err(x) => Err(x),
    }
}

/// Reads the heap size, in words. It takes only what [`check_heap_size`]
/// passes.
pub fn parse_heap_size(input: &str) -> (r: usize)
    requires
        parsed_in_range(input@, false, 0, usize::MAX as int) is Some,
    ensures
        r == parsed_in_range(input@, false, 0, usize::MAX as int)->Some_0,
{
    match read_heap_size(input) {
        Ok(n) => n,
        Err(_) => {
            proof {
                assert(false);
            }
            0
        },
    }
}

/// The text of a value, where the vectors in `seen` are being printed
/// around it, with `fuel` levels of nested vectors to go; none where the
/// fuel runs out or a word of a vector is outside the memory.
pub open spec fn value_text(mem: Memory, val: u64, seen: Set<u64>, fuel: nat) -> Option<Seq<char>>
    decreases fuel, 0int,
{
    if val == TRUE {
        Some("true"@)
    } else if val == FALSE {
        Some("false"@)
    } else if val & 1 == 0 {
        Some(int_decimal(((val as i64) >> 1) as int))
    } else if val == 1 {
        Some("nil"@)
    } else if seen.contains(val) {
        Some("[...]"@)
    } else {
        let addr = val - 1;
        if fuel == 0 || !mem.holds(addr + 8) {
            None
        } else {
            let size = mem.at(addr + 8) as int;
            match items_text(mem, addr, size, size, seen.insert(val), (fuel - 1) as nat) {
                Some(t) => Some("["@ + t + "]"@),
                None => None,
            }
        }
    }
}

/// The text of the first `count` of the `size` elements of the vector at
/// `addr`, separated by commas.
pub open spec fn items_text(mem: Memory, addr: int, size: int, count: int, seen: Set<u64>, fuel: nat) -> Option<Seq<char>>
    decreases fuel, count + 1,
{
    if count <= 0 {
        Some(Seq::empty())
    } else {
        let i = count - 1;
        let a = addr + 8 * (2 + i);
        if !mem.holds(a) {
            None
        } else {
            match items_text(mem, addr, size, count - 1, seen, fuel) {
                Some(t) => match value_text(mem, mem.at(a), seen, fuel) {
                    Some(v) => Some(t + v + if i < size - 1 { ", "@ } else { Seq::empty() }),
                    None => None,
                },
                None => None,
            }
        }
    }
}

/// The value can be printed: every vector that it reaches lies in the
/// memory.
pub open spec fn printable(mem: Memory, val: u64, seen: Set<u64>) -> bool {
    exists|fuel: nat| value_text(mem, val, seen, fuel) is Some
}

/// The text of a printable value.
pub open spec fn snek_text(mem: Memory, val: u64, seen: Set<u64>) -> Seq<char> {
    value_text(mem, val, seen, choose|fuel: nat| value_text(mem, val, seen, fuel) is Some)->Some_0
}

/// More fuel changes no text: once a value prints with some fuel, it prints
/// the same with any more.
pub proof fn lemma_value_text_fuel(mem: Memory, val: u64, seen: Set<u64>, f1: nat, f2: nat)
    requires
        value_text(mem, val, seen, f1) is Some,
        f1 <= f2,
    ensures
        value_text(mem, val, seen, f2) == value_text(mem, val, seen, f1),
    decreases f1, 0int,
{
    if val != TRUE && val != FALSE && val & 1 != 0 && val != 1 && !seen.contains(val) {
        let addr = val - 1;
        let size = mem.at(addr + 8) as int;
        lemma_items_text_fuel(mem, addr, size, size, seen.insert(val), (f1 - 1) as nat, (f2 - 1) as nat);
    }
}

/// More fuel changes no text of a vector's elements either.
pub proof fn lemma_items_text_fuel(mem: Memory, addr: int, size: int, count: int, seen: Set<u64>, f1: nat, f2: nat)
    requires
        items_text(mem, addr, size, count, seen, f1) is Some,
        f1 <= f2,
    ensures
        items_text(mem, addr, size, count, seen, f2) == items_text(mem, addr, size, count, seen, f1),
    decreases f1, count + 1,
{
    if count > 0 {
        let i = count - 1;
        let a = addr + 8 * (2 + i);
        lemma_items_text_fuel(mem, addr, size, count - 1, seen, f1, f2);
        lemma_value_text_fuel(mem, mem.at(a), seen, f1, f2);
    }
}

/// A value prints as one text, whatever fuel lets it print: the text that
/// [`snek_str`] gives.
pub proof fn lemma_snek_text_any_fuel(mem: Memory, val: u64, seen: Set<u64>, fuel: nat)
    requires
        value_text(mem, val, seen, fuel) is Some,
    ensures
        printable(mem, val, seen),
        value_text(mem, val, seen, fuel) == Some(snek_text(mem, val, seen)),
{
    let c = choose|f: nat| value_text(mem, val, seen, f) is Some;
    if c <= fuel {
        lemma_value_text_fuel(mem, val, seen, c, fuel);
    } else {
        lemma_value_text_fuel(mem, val, seen, fuel, c);
    }
}

proof fn lemma_items_prefix(mem: Memory, addr: int, size: int, count: int, i: int, seen: Set<u64>, fuel: nat)
    requires
        0 <= i < count,
        items_text(mem, addr, size, count, seen, fuel) is Some,
    ensures
        items_text(mem, addr, size, i + 1, seen, fuel) is Some,
        mem.holds(addr + 8 * (2 + i)),
        value_text(mem, mem.at(addr + 8 * (2 + i)), seen, fuel) is Some,
        items_text(mem, addr, size, i + 1, seen, fuel)->Some_0 == items_text(mem, addr, size, i, seen, fuel)->Some_0
            + value_text(mem, mem.at(addr + 8 * (2 + i)), seen, fuel)->Some_0 + if i < size - 1 {
            ", "@
        } else {
            Seq::empty()
        },
    decreases count - i,
{
    if i + 1 < count {
        lemma_items_prefix(mem, addr, size, count - 1, i, seen, fuel);
    }
}

fn text_with_fuel(val: u64, seen: &mut HashSet<u64>, mem: &Memory, Ghost(fuel): Ghost<nat>) -> (r: String)
    requires
        value_text(*mem, val, old(seen)@, fuel) is Some,
        mem.below_i64_max(),
    ensures
        r@ == value_text(*mem, val, old(seen)@, fuel)->Some_0,
        final(seen)@ == old(seen)@,
    decreases fuel,
{
    proof {
        reveal_strlit("true");
        reveal_strlit("false");
        reveal_strlit("nil");
        reveal_strlit("[...]");
    }
    if val == TRUE {
        let mut s = String::new();
        s.append("true");
        assert(s@ =~= "true"@);
        s
    } else if val == FALSE {
        let mut s = String::new();
        s.append("false");
        assert(s@ =~= "false"@);
        s
    } else if val & 1 == 0 {
        i64_to_string((val as i64) >> 1)
    } else if val == 1 {
        let mut s = String::new();
        s.append("nil");
        assert(s@ =~= "nil"@);
        s
    } else {
        if !seen.insert(val) {
            let mut s = String::new();
            s.append("[...]");
            assert(s@ =~= "[...]"@);
            return s;
        }
        let ghost inner = seen@;
        let ghost g = (fuel - 1) as nat;
        assert(val & 1 != 0 ==> val >= 1) by (bit_vector);
        let addr = val - 1;
        let size = mem.read(addr + 8);
        let mut res = String::new();
        proof { reveal_strlit("["); }
        res.append("[");
        let mut i: u64 = 0;
        assert(res@ =~= "["@ + items_text(*mem, addr as int, size as int, 0, inner, g)->Some_0);
        while i < size
            invariant
                0 <= i <= size,
                inner == old(seen)@.insert(val),
                seen@ == inner,
                size == mem.at(addr as int + 8),
                mem.holds(addr as int + 8),
                addr == val - 1,
                fuel >= 1,
                g == fuel - 1,
                items_text(*mem, addr as int, size as int, size as int, inner, g) is Some,
                res@ == "["@ + items_text(*mem, addr as int, size as int, i as int, inner, g)->Some_0,
                mem.below_i64_max(),
            decreases size - i,
        {
            proof { lemma_items_prefix(*mem, addr as int, size as int, size as int, i as int, inner, g); }
            let elem = mem.read(addr + 8 * (2 + i));
            let t = text_with_fuel(elem, seen, mem, Ghost(g));
            res.append(t.as_str());
            if i < size - 1 {
                proof { reveal_strlit(", "); }
                res.append(", ");
            }
            assert(res@ =~= "["@ + items_text(*mem, addr as int, size as int, (i + 1) as int, inner, g)->Some_0);
            i = i + 1;
        }
        seen.remove(&val);
        assert(seen@ =~= old(seen)@);
        proof { reveal_strlit("]"); }
        res.append("]");
        assert(res@ =~= value_text(*mem, val, old(seen)@, fuel)->Some_0);
        res
    }
}

/// The text that the runtime prints for a value: `true`, `false`, a
/// number, `nil`, or a vector in brackets, with `[...]` for a vector that is
/// being printed around it (in `seen`). `seen` is as it was afterwards.
pub fn snek_str(val: u64, seen: &mut HashSet<u64>, mem: &Memory) -> (r: String)
    requires
        printable(*mem, val, old(seen)@),
        mem.below_i64_max(),
    ensures
        r@ == snek_text(*mem, val, old(seen)@),
        final(seen)@ == old(seen)@,
{
    let ghost fuel = choose|fuel: nat| value_text(*mem, val, old(seen)@, fuel) is Some;
    text_with_fuel(val, seen, mem, Ghost(fuel))
}

/// Whether the value prints with `depth` levels of nested vectors, where
/// the vectors in `seen` are being printed around it: each vector that it
/// reaches, to that depth, lies in the memory. `seen` is as it was
/// afterwards.
fn prints_within(val: u64, seen: &mut HashSet<u64>, mem: &Memory, depth: u64) -> (r: bool)
    requires
        mem.below_i64_max(),
    ensures
        r == (value_text(*mem, val, old(seen)@, depth as nat) is Some),
        final(seen)@ == old(seen)@,
    decreases depth,
{
    if val == TRUE || val == FALSE || val & 1 == 0 || val == 1 || seen.contains(&val) {
        return true;
    }
    assert(val & 1 != 0 ==> val >= 1) by (bit_vector);
    let addr = val - 1;
    if depth == 0 || addr > u64::MAX - 8 || !mem.has(addr + 8) {
        return false;
    }
    let ghost g = (depth - 1) as nat;
    let size = mem.read(addr + 8);
    if size > mem.words.len() as u64 {
        proof { lemma_items_beyond(*mem, addr as int, size as int, old(seen)@.insert(val), g); }
        return false;
    }
    seen.insert(val);
    let ghost inner = seen@;
    let mut i: u64 = 0;
    while i < size
        invariant
            0 <= i <= size,
            size <= mem.words@.len(),
            inner == old(seen)@.insert(val),
            seen@ == inner,
            !old(seen)@.contains(val),
            size == mem.at(addr as int + 8),
            mem.holds(addr as int + 8),
            addr == val - 1,
            depth >= 1,
            g == depth - 1,
            items_text(*mem, addr as int, size as int, i as int, inner, g) is Some,
            mem.below_i64_max(),
            val != TRUE && val != FALSE && val & 1 != 0 && val != 1,
        decreases size - i,
    {
        let a = addr + 8 * (2 + i);
        if !mem.has(a) {
            proof { lemma_items_failed(*mem, addr as int, size as int, i as int, inner, g); }
            seen.remove(&val);
            assert(seen@ =~= old(seen)@);
            return false;
        }
        let elem = mem.read(a);
        if !prints_within(elem, seen, mem, depth - 1) {
            proof { lemma_items_failed(*mem, addr as int, size as int, i as int, inner, g); }
            seen.remove(&val);
            assert(seen@ =~= old(seen)@);
            return false;
        }
        i = i + 1;
    }
    seen.remove(&val);
    assert(seen@ =~= old(seen)@);
    true
}

proof fn lemma_items_failed(mem: Memory, addr: int, size: int, i: int, seen: Set<u64>, fuel: nat)
    requires
        0 <= i < size,
        !(mem.holds(addr + 8 * (2 + i)) && value_text(mem, mem.at(addr + 8 * (2 + i)), seen, fuel) is Some),
    ensures
        items_text(mem, addr, size, size, seen, fuel) is None,
{
    if items_text(mem, addr, size, size, seen, fuel) is Some {
        lemma_items_prefix(mem, addr, size, size, i, seen, fuel);
    }
}

proof fn lemma_items_beyond(mem: Memory, addr: int, size: int, seen: Set<u64>, fuel: nat)
    requires
        mem.holds(addr + 8),
        size > mem.words@.len(),
    ensures
        items_text(mem, addr, size, size, seen, fuel) is None,
{
}

/// The word indexes of the memory at which a vector that is not in `seen`
/// could have its size word.
pub open spec fn unseen_vectors(mem: Memory, seen: Set<u64>) -> Set<int> {
    Set::new(
        |i: int|
            0 <= i < mem.words@.len() && mem.start + 8 * i >= 7 && !seen.contains((mem.start + 8 * i - 7) as u64),
    )
}

proof fn lemma_unseen_vectors_len(mem: Memory, seen: Set<u64>)
    ensures
        unseen_vectors(mem, seen).finite(),
        unseen_vectors(mem, seen).len() <= mem.words@.len(),
{
    vstd::set_lib::lemma_int_range(0, mem.words@.len() as int);
    vstd::set_lib::lemma_len_subset(unseen_vectors(mem, seen), vstd::set_lib::set_int_range(0, mem.words@.len() as int));
}

/// Printing a vector puts it in `seen`: one fewer vector is left unseen.
proof fn lemma_unseen_vectors_insert(mem: Memory, seen: Set<u64>, val: u64)
    requires
        mem.holds(val + 7),
        !seen.contains(val),
        mem.below_i64_max(),
    ensures
        unseen_vectors(mem, seen.insert(val)).len() + 1 == unseen_vectors(mem, seen).len(),
{
    let i0 = (val + 7 - mem.start) / 8;
    assert(mem.start + 8 * i0 == val + 7);
    assert(unseen_vectors(mem, seen).contains(i0));
    assert(unseen_vectors(mem, seen.insert(val)) =~= unseen_vectors(mem, seen).remove(i0)) by {
        assert forall|i: int| #[trigger] unseen_vectors(mem, seen).contains(i) && i != i0 implies (mem.start + 8 * i
            - 7) as u64 != val by {
            assert(0 <= mem.start + 8 * i - 7 <= u64::MAX);
            assert(mem.start + 8 * i - 7 != val + 0);
        }
    }
    lemma_unseen_vectors_len(mem, seen);
}

/// A value that prints at all prints with one level more than there are
/// vectors left unseen.
pub proof fn lemma_value_prints_within(mem: Memory, val: u64, seen: Set<u64>, fuel: nat)
    requires
        value_text(mem, val, seen, fuel) is Some,
        mem.below_i64_max(),
    ensures
        value_text(mem, val, seen, (unseen_vectors(mem, seen).len() + 1) as nat) is Some,
    decreases fuel, 1int,
{
    if val != TRUE && val != FALSE && val & 1 != 0 && val != 1 && !seen.contains(val) {
        let addr = val - 1;
        let size = mem.at(addr + 8) as int;
        let inner = seen.insert(val);
        lemma_unseen_vectors_insert(mem, seen, val);
        lemma_items_prints_within(mem, addr, size, size, inner, (fuel - 1) as nat);
    }
}

/// The elements of a vector that print at all print with one level more
/// than there are vectors left unseen.
pub proof fn lemma_items_prints_within(mem: Memory, addr: int, size: int, count: int, seen: Set<u64>, fuel: nat)
    requires
        items_text(mem, addr, size, count, seen, fuel) is Some,
        mem.below_i64_max(),
    ensures
        items_text(mem, addr, size, count, seen, (unseen_vectors(mem, seen).len() + 1) as nat) is Some,
    decreases fuel, count + 2,
{
    if count > 0 {
        let a = addr + 8 * (2 + (count - 1));
        lemma_items_prints_within(mem, addr, size, count - 1, seen, fuel);
        lemma_value_prints_within(mem, mem.at(a), seen, fuel);
    }
}

/// The text that the runtime prints for a value, where the vectors in
/// `seen` are being printed around it ([`snek_str`]), where it prints; none
/// where a vector that it reaches lies outside the memory. `seen` is as it
/// was afterwards.
pub fn try_snek_str(val: u64, seen: &mut HashSet<u64>, mem: &Memory) -> (r: Option<String>)
    requires
        mem.below_i64_max(),
    ensures
        (r is Some) == printable(*mem, val, old(seen)@),
        r matches Some(s) ==> s@ == snek_text(*mem, val, old(seen)@),
        final(seen)@ == old(seen)@,
{
    let depth = mem.words.len() as u64 + 1;
    proof {
        if printable(*mem, val, seen@) {
            let f = choose|f: nat| value_text(*mem, val, seen@, f) is Some;
            lemma_value_prints_within(*mem, val, seen@, f);
            lemma_unseen_vectors_len(*mem, seen@);
            lemma_value_text_fuel(
                *mem,
                val,
                seen@,
                (unseen_vectors(*mem, seen@).len() + 1) as nat,
                depth as nat,
            );
        }
    }
    if prints_within(val, seen, mem, depth) {
        proof { lemma_snek_text_any_fuel(*mem, val, seen@, depth as nat); }
        Some(snek_str(val, seen, mem))
    } else {
        None
    }
}

/// A number of 63 bits given as input is printed back as it was written,
/// and so are both booleans, whatever the memory holds.
pub proof fn lemma_input_output_round_trip(mem: Memory, n: int, seen: Set<u64>, fuel: nat)
    requires
        -4611686018427387904 <= n <= 4611686018427387903,
    ensures
        input_value(int_decimal(n)) matches Ok(v) && value_text(mem, v, seen, fuel) == Some(int_decimal(n)),
        input_value("true"@) matches Ok(v) && value_text(mem, v, seen, fuel) == Some("true"@),
        input_value("false"@) matches Ok(v) && value_text(mem, v, seen, fuel) == Some("false"@),
{
    lemma_decimal_is_number(n);
    let m = n as i64;
    assert(((m << 1) as u64) != 3 && ((m << 1) as u64) != 7 && (((m << 1) as u64) & 1) == 0 && ((((m << 1) as u64)
        as i64) >> 1) == m) by (bit_vector)
        requires
            -0x4000_0000_0000_0000 <= m <= 0x3fff_ffff_ffff_ffff,
    ;
}

} // verus!
