//! What the Egg Eater runtime decides: how the input is encoded, what each
//! error code says, and how a value, tuples included, is printed.
use vstd::prelude::*;

use crate::decimal::{int_decimal, i64_to_string, lemma_decimal_is_number, parse_i64, parsed_in_range, push_i64_decimal};
use crate::memory::Memory;
use crate::text::str_eq;

verus! {

/// The message of a runtime error code (the runtime then stops the program
/// with exit status 1).
pub open spec fn error_text(errcode: i64) -> Seq<char> {
    if errcode == 0 {
        "Runtime error: invalid argument"@
    } else if errcode == 1 {
        "Runtime error: overflow"@
    } else if errcode == 2 {
        "Runtime error: access the index of an non-tuple val"@
    } else if errcode == 3 {
        "Runtime error: index is out-of-bound"@
    } else if errcode == 4 {
        "Runtime error: index is not non-negative number"@
    } else {
        "Runtime error ocurred "@ + int_decimal(errcode as int)
    }
}

/// The message that the runtime prints for a runtime error code.
pub fn error_message(errcode: i64) -> (r: String)
    ensures
        r@ == error_text(errcode),
{
    let mut s = String::new();
    if errcode == 0 {
        s.append("Runtime error: invalid argument");
    } else if errcode == 1 {
        s.append("Runtime error: overflow");
    } else if errcode == 2 {
        s.append("Runtime error: access the index of an non-tuple val");
    } else if errcode == 3 {
        s.append("Runtime error: index is out-of-bound");
    } else if errcode == 4 {
        s.append("Runtime error: index is not non-negative number");
    } else {
        proof { reveal_strlit("Runtime error ocurred "); }
        s.append("Runtime error ocurred ");
        push_i64_decimal(&mut s, errcode);
    }
    assert(s@ =~= error_text(errcode));
    s
}

/// Why the runtime refuses an input: it stops with "invalid argument".
#[derive(Debug, Clone, Copy, PartialEq, Eq)]
pub enum InputError {
    InvalidArgument,
}

/// The tagged value of the input text `s`: `true` is 7, `false` (and the
/// empty text) 3, and a number of 63 bits is held shifted left by one bit.
pub open spec fn input_value(s: Seq<char>) -> Result<u64, InputError> {
    if s == "true"@ {
        Ok(7)
    } else if s == "false"@ || s == ""@ {
        Ok(3)
    } else {
        match parsed_in_range(s, true, i64::MIN as int, i64::MAX as int) {
            Some(t) => if t <= 4611686018427387903 && t >= -4611686018427387904 {
                Ok(((t as i64) << 1) as u64)
            } else {
                Err(InputError::InvalidArgument)
            },
            None => Err(InputError::InvalidArgument),
        }
    }
}

/// Encodes the program's input, or gives the [`InputError`] that
/// [`input_value`] names.
fn read_input(input: &str) -> (r: Result<u64, InputError>)
    ensures
        r == input_value(input@),
{
    if str_eq(input, "true") {
        Ok(7)
    } else if str_eq(input, "false") || str_eq(input, "") {
        Ok(3)
    } else {
        match parse_i64(input) {
            Some(t) => {
                if t <= 4611686018427387903 && t >= -4611686018427387904 {
                    Ok((t << 1) as u64)
                } else {
                    Err(InputError::InvalidArgument)
                }
            },
            None => Err(InputError::InvalidArgument),
        }
    }
}

/// Whether the runtime takes `input`: `Ok` exactly where [`input_value`]
/// gives a value, else its [`InputError`]. The runtime stops with its
/// [`InputError::message`], "invalid argument".
pub fn check_input(input: &str) -> (r: Result<(), InputError>)
    ensures
        (r is Ok) == (input_value(input@) is Ok),
        r matches Err(x) ==> input_value(input@) == Err::<u64, InputError>(x),
{
    match read_input(input) {
        Ok(_) => Ok(()),
        Err(x) => Err(x),
    }
}

/// Encodes the program's input: [`input_value`]. It takes only what
/// [`check_input`] passes.
pub fn parse_input(input: &str) -> (r: u64)
    requires
        input_value(input@) is Ok,
    ensures
        Ok::<u64, InputError>(r) == input_value(input@),
{
    match read_input(input) {
        Ok(v) => v,
        Err(_) => {
            proof {
                assert(false);
            }
            0
        },
    }
}

/// The number of elements of a tuple whose length word is `w`: the word
/// holds eight times the count.
pub open spec fn tuple_count(w: i64) -> int {
    if w > 0 {
        w / 8
    } else {
        0
    }
}

/// The text of a value, with `fuel` levels of nested tuples to go; none
/// where the fuel runs out or a word of a tuple is outside the memory.
pub open spec fn value_text(mem: Memory, content: i64, fuel: nat) -> Option<Seq<char>>
    decreases fuel, 0int,
{
    if content == 3 {
        Some("false"@)
    } else if content == 7 {
        Some("true"@)
    } else if content & 3 == 1 {
        let address = (content >> 2) as int;
        if fuel == 0 || !mem.holds(address) {
            None
        } else {
            match elements_text(mem, address, tuple_count(mem.at(address) as i64), (fuel - 1) as nat) {
                Some(t) => Some("(tuple"@ + t + ")"@),
                None => None,
            }
        }
    } else {
        Some(int_decimal((content >> 1) as int))
    }
}

/// The text of the first `count` elements of the tuple at `address`: a space
/// before each.
pub open spec fn elements_text(mem: Memory, address: int, count: int, fuel: nat) -> Option<Seq<char>>
    decreases fuel, count + 1,
{
    if count <= 0 {
        Some(Seq::empty())
    } else {
        let a = address + 8 * count;
        if !mem.holds(a) {
            None
        } else {
            match elements_text(mem, address, count - 1, fuel) {
                Some(t) => match value_text(mem, mem.at(a) as i64, fuel) {
                    Some(v) => Some(t + " "@ + v),
                    None => None,
                },
                None => None,
            }
        }
    }
}

/// The value can be printed: its tuples, however deeply nested, lie in the
/// memory (and so are not cyclic).
pub open spec fn printable(mem: Memory, content: i64) -> bool {
    exists|fuel: nat| value_text(mem, content, fuel) is Some
}

/// The text of a printable value.
pub open spec fn content_text(mem: Memory, content: i64) -> Seq<char> {
    value_text(mem, content, choose|fuel: nat| value_text(mem, content, fuel) is Some)->Some_0
}

/// More fuel changes no text: once a value prints with some fuel, it prints
/// the same with any more.
pub proof fn lemma_value_text_fuel(mem: Memory, content: i64, f1: nat, f2: nat)
    requires
        value_text(mem, content, f1) is Some,
        f1 <= f2,
    ensures
        value_text(mem, content, f2) == value_text(mem, content, f1),
    decreases f1, 0int,
{
    if content != 3 && content != 7 && content & 3 == 1 {
        let address = (content >> 2) as int;
        let count = tuple_count(mem.at(address) as i64);
        lemma_elements_text_fuel(mem, address, count, (f1 - 1) as nat, (f2 - 1) as nat);
    }
}

/// More fuel changes no text of a tuple's elements either.
pub proof fn lemma_elements_text_fuel(mem: Memory, address: int, count: int, f1: nat, f2: nat)
    requires
        elements_text(mem, address, count, f1) is Some,
        f1 <= f2,
    ensures
        elements_text(mem, address, count, f2) == elements_text(mem, address, count, f1),
    decreases f1, count + 1,
{
    if count > 0 {
        lemma_elements_text_fuel(mem, address, count - 1, f1, f2);
        lemma_value_text_fuel(mem, mem.at(address + 8 * count) as i64, f1, f2);
    }
}

/// A value prints as one text, whatever fuel lets it print: the text that
/// [`get_real_content`] gives.
pub proof fn lemma_content_text_any_fuel(mem: Memory, content: i64, fuel: nat)
    requires
        value_text(mem, content, fuel) is Some,
    ensures
        printable(mem, content),
        value_text(mem, content, fuel) == Some(content_text(mem, content)),
{
    let c = choose|f: nat| value_text(mem, content, f) is Some;
    if c <= fuel {
        lemma_value_text_fuel(mem, content, c, fuel);
    } else {
        lemma_value_text_fuel(mem, content, fuel, c);
    }
}

fn text_with_fuel(content: i64, mem: &Memory, Ghost(fuel): Ghost<nat>) -> (r: String)
    requires
        value_text(*mem, content, fuel) is Some,
        mem.below_i64_max(),
    ensures
        r@ == value_text(*mem, content, fuel)->Some_0,
    decreases fuel,
{
    proof {
        reveal_strlit("false");
        reveal_strlit("true");
    }
    if content == 3 {
        let mut s = String::new();
        s.append("false");
        assert(s@ =~= "false"@);
        s
    } else if content == 7 {
        let mut s = String::new();
        s.append("true");
        assert(s@ =~= "true"@);
        s
    } else if content & 3 == 1 {
        let address = content >> 2;
        let length = mem.read(address as u64) as i64;
        let count = if length > 0 { length / 8 } else { 0 };
        let ghost g = (fuel - 1) as nat;
        let mut s = String::new();
        proof { reveal_strlit("(tuple"); }
        s.append("(tuple");
        let mut i: i64 = 1;
        assert(s@ =~= "(tuple"@ + elements_text(*mem, address as int, 0, g)->Some_0);
        while i <= count
            invariant
                1 <= i <= count + 1,
                count == tuple_count(length),
                length == mem.at(address as int) as i64,
                fuel >= 1,
                g == fuel - 1,
                elements_text(*mem, address as int, count as int, g) is Some,
                s@ == "(tuple"@ + elements_text(*mem, address as int, (i - 1) as int, g)->Some_0,
                address as int == (content >> 2) as int,
                mem.holds(address as int),
                mem.below_i64_max(),
            decreases count + 1 - i,
        {
            proof { lemma_elements_prefix(*mem, address as int, count as int, i as int, g); }
            let a = (address + 8 * i) as u64;
            let val = mem.read(a) as i64;
            proof { reveal_strlit(" "); }
            s.append(" ");
            let t = text_with_fuel(val, mem, Ghost(g));
            s.append(t.as_str());
            assert(s@ =~= "(tuple"@ + elements_text(*mem, address as int, i as int, g)->Some_0);
            i = i + 1;
        }
        proof { reveal_strlit(")"); }
        s.append(")");
        assert(s@ =~= value_text(*mem, content, fuel)->Some_0);
        s
    } else {
        i64_to_string(content >> 1)
    }
}

proof fn lemma_elements_prefix(mem: Memory, address: int, count: int, i: int, fuel: nat)
    requires
        1 <= i <= count,
        elements_text(mem, address, count, fuel) is Some,
    ensures
        elements_text(mem, address, i, fuel) is Some,
        mem.holds(address + 8 * i),
        value_text(mem, mem.at(address + 8 * i) as i64, fuel) is Some,
        elements_text(mem, address, i, fuel)->Some_0 == elements_text(mem, address, i - 1, fuel)->Some_0 + " "@
            + value_text(mem, mem.at(address + 8 * i) as i64, fuel)->Some_0,
    decreases count - i,
{
    if i < count {
        lemma_elements_prefix(mem, address, count - 1, i, fuel);
    }
}

/// The text that the runtime prints for a value: `true`, `false`, a tuple
/// as `(tuple` and its elements, or a number.
pub fn get_real_content(content: i64, mem: &Memory) -> (r: String)
    requires
        printable(*mem, content),
        mem.below_i64_max(),
    ensures
        r@ == content_text(*mem, content),
{
    let ghost fuel = choose|fuel: nat| value_text(*mem, content, fuel) is Some;
    text_with_fuel(content, mem, Ghost(fuel))
}

/// Whether the value prints with `depth` levels of nested tuples: each
/// tuple that it reaches, to that depth, lies in the memory.
fn prints_within(content: i64, mem: &Memory, depth: u64) -> (r: bool)
    requires
        mem.below_i64_max(),
    ensures
        r == (value_text(*mem, content, depth as nat) is Some),
    decreases depth,
{
    if content == 3 || content == 7 || content & 3 != 1 {
        return true;
    }
    let address = content >> 2;
    if depth == 0 || address < 0 || !mem.has(address as u64) {
        return false;
    }
    let length = mem.read(address as u64) as i64;
    let count = if length > 0 { length / 8 } else { 0 };
    let ghost g = (depth - 1) as nat;
    let n = mem.words.len() as i64;
    if count > n {
        proof { lemma_elements_beyond(*mem, address as int, count as int, g); }
        return false;
    }
    let mut i: i64 = 1;
    while i <= count
        invariant
            1 <= i <= count + 1,
            count <= n,
            n == mem.words@.len(),
            0 <= address,
            mem.holds(address as int),
            mem.below_i64_max(),
            depth >= 1,
            g == depth - 1,
            elements_text(*mem, address as int, (i - 1) as int, g) is Some,
            count == tuple_count(length),
            length == mem.at(address as int) as i64,
            address == content >> 2,
            content & 3 == 1 && content != 3 && content != 7,
        decreases count + 1 - i,
    {
        let a = address as u64 + 8 * (i as u64);
        if !mem.has(a) {
            proof { lemma_elements_failed(*mem, address as int, count as int, i as int, g); }
            return false;
        }
        let val = mem.read(a) as i64;
        if !prints_within(val, mem, depth - 1) {
            proof { lemma_elements_failed(*mem, address as int, count as int, i as int, g); }
            return false;
        }
        i = i + 1;
    }
    true
}

proof fn lemma_elements_failed(mem: Memory, address: int, count: int, i: int, fuel: nat)
    requires
        1 <= i <= count,
        !(mem.holds(address + 8 * i) && value_text(mem, mem.at(address + 8 * i) as i64, fuel) is Some),
    ensures
        elements_text(mem, address, count, fuel) is None,
{
    if elements_text(mem, address, count, fuel) is Some {
        lemma_elements_prefix(mem, address, count, i, fuel);
    }
}

proof fn lemma_elements_beyond(mem: Memory, address: int, count: int, fuel: nat)
    requires
        mem.holds(address),
        count > mem.words@.len(),
    ensures
        elements_text(mem, address, count, fuel) is None,
{
}

/// The tuple at `a` prints with `fuel` levels of nested tuples.
pub open spec fn tuple_prints(mem: Memory, a: int, fuel: nat) -> bool {
    fuel > 0 && mem.holds(a) && elements_text(mem, a, tuple_count(mem.at(a) as i64), (fuel - 1) as nat) is Some
}

/// The word indexes of the tuples that print with `fuel` levels.
pub open spec fn printing_tuples(mem: Memory, fuel: nat) -> Set<int> {
    Set::new(|i: int| 0 <= i < mem.words@.len() && tuple_prints(mem, mem.start + 8 * i, fuel))
}

proof fn lemma_printing_tuples_grow(mem: Memory, f: nat)
    ensures
        printing_tuples(mem, f).subset_of(printing_tuples(mem, f + 1)),
        printing_tuples(mem, f).finite(),
        printing_tuples(mem, f).len() <= mem.words@.len(),
{
    let p0 = printing_tuples(mem, f);
    let p1 = printing_tuples(mem, f + 1);
    assert forall|i: int| p0.contains(i) implies p1.contains(i) by {
        let a = mem.start + 8 * i;
        lemma_elements_text_fuel(mem, a, tuple_count(mem.at(a) as i64), (f - 1) as nat, f);
    }
    vstd::set_lib::lemma_int_range(0, mem.words@.len() as int);
    vstd::set_lib::lemma_len_subset(printing_tuples(mem, f), vstd::set_lib::set_int_range(0, mem.words@.len() as int));
}

/// Where the tuples that print with one more level are those that print
/// already, a tuple's elements print with one level less.
proof fn lemma_elements_down(mem: Memory, a: int, count: int, g: nat)
    requires
        elements_text(mem, a, count, g + 1) is Some,
        printing_tuples(mem, g + 1).subset_of(printing_tuples(mem, g)),
    ensures
        elements_text(mem, a, count, g) is Some,
    decreases count,
{
    if count > 0 {
        lemma_elements_down(mem, a, count - 1, g);
        let v = mem.at(a + 8 * count) as i64;
        assert(value_text(mem, v, g + 1) is Some);
        if v != 3 && v != 7 && v & 3 == 1 {
            let b = (v >> 2) as int;
            assert(mem.holds(b));
            let i = (b - mem.start) / 8;
            assert(mem.start + 8 * i == b);
            assert(tuple_prints(mem, mem.start + 8 * i, g + 1));
            assert(printing_tuples(mem, g + 1).contains(i));
            assert(printing_tuples(mem, g).contains(i));
            assert(tuple_prints(mem, b, g));
            assert(value_text(mem, v, g) is Some);
        } else {
            assert(value_text(mem, v, g) is Some);
        }
        assert(elements_text(mem, a, count - 1, g) is Some);
        assert(mem.holds(a + 8 * count));
    }
}

proof fn lemma_fixpoint_step(mem: Memory, f: nat)
    requires
        printing_tuples(mem, f + 1).subset_of(printing_tuples(mem, f)),
    ensures
        printing_tuples(mem, f + 2).subset_of(printing_tuples(mem, f + 1)),
{
    let p2 = printing_tuples(mem, f + 2);
    let p1 = printing_tuples(mem, f + 1);
    assert forall|i: int| p2.contains(i) implies p1.contains(i) by {
        let a = mem.start + 8 * i;
        lemma_elements_down(mem, a, tuple_count(mem.at(a) as i64), f);
    }
}

proof fn lemma_fixpoint_stays(mem: Memory, k: nat, g: nat)
    requires
        printing_tuples(mem, k + 1).subset_of(printing_tuples(mem, k)),
        k <= g,
    ensures
        printing_tuples(mem, g).subset_of(printing_tuples(mem, k)),
        printing_tuples(mem, g + 1).subset_of(printing_tuples(mem, g)),
    decreases g - k,
{
    if g > k {
        lemma_fixpoint_stays(mem, k, (g - 1) as nat);
        lemma_fixpoint_step(mem, (g - 1) as nat);
    }
}

/// Up to `f`, either the tuples that print stop changing, or at least `f`
/// of them print with `f` levels.
proof fn lemma_fixpoint_by(mem: Memory, f: nat) -> (k: nat)
    ensures
        k <= f,
        printing_tuples(mem, k + 1).subset_of(printing_tuples(mem, k)) || printing_tuples(mem, f).len() >= f,
    decreases f,
{
    if f == 0 {
        0
    } else {
        let k = lemma_fixpoint_by(mem, (f - 1) as nat);
        if printing_tuples(mem, k + 1).subset_of(printing_tuples(mem, k)) {
            k
        } else if printing_tuples(mem, f).subset_of(printing_tuples(mem, (f - 1) as nat)) {
            (f - 1) as nat
        } else {
            let p0 = printing_tuples(mem, (f - 1) as nat);
            let p1 = printing_tuples(mem, f);
            let x = choose|x: int| p1.contains(x) && !p0.contains(x);
            lemma_printing_tuples_grow(mem, (f - 1) as nat);
            lemma_printing_tuples_grow(mem, f);
            assert(p0.insert(x).subset_of(p1));
            vstd::set_lib::lemma_len_subset(p0.insert(x), p1);
            f
        }
    }
}

/// A value that prints at all prints with one level more than the memory
/// has words.
pub proof fn lemma_printable_within_words(mem: Memory, content: i64, fuel: nat)
    requires
        value_text(mem, content, fuel) is Some,
    ensures
        value_text(mem, content, (mem.words@.len() + 1) as nat) is Some,
{
    let n = mem.words@.len();
    if content != 3 && content != 7 && content & 3 == 1 {
        let k = lemma_fixpoint_by(mem, n + 1);
        lemma_printing_tuples_grow(mem, n + 1);
        let b = (content >> 2) as int;
        let i = (b - mem.start) / 8;
        assert(mem.start + 8 * i == b);
        assert(printing_tuples(mem, fuel).contains(i));
        if fuel <= k {
            assert(printing_tuples(mem, k).contains(i)) by {
                let count = tuple_count(mem.at(b) as i64);
                lemma_elements_text_fuel(mem, b, count, (fuel - 1) as nat, (k - 1) as nat);
            }
        } else {
            lemma_fixpoint_stays(mem, k, fuel);
        }
        let count = tuple_count(mem.at(b) as i64);
        lemma_elements_text_fuel(mem, b, count, (k - 1) as nat, n);
    }
}

/// The text that the runtime prints for a value ([`get_real_content`]),
/// where it prints; none where a tuple that it reaches lies outside the
/// memory, or holds itself.
pub fn real_content(content: i64, mem: &Memory) -> (r: Option<String>)
    requires
        mem.below_i64_max(),
    ensures
        (r is Some) == printable(*mem, content),
        r matches Some(s) ==> s@ == content_text(*mem, content),
{
    let depth = mem.words.len() as u64 + 1;
    proof {
        if printable(*mem, content) {
            let f = choose|f: nat| value_text(*mem, content, f) is Some;
            lemma_printable_within_words(*mem, content, f);
        }
    }
    if prints_within(content, mem, depth) {
        proof { lemma_content_text_any_fuel(*mem, content, depth as nat); }
        Some(get_real_content(content, mem))
    } else {
        None
    }
}

/// A number of 63 bits given as input is printed back as it was written,
/// and so are both booleans, whatever the memory holds.
pub proof fn lemma_input_output_round_trip(mem: Memory, n: int, fuel: nat)
    requires
        -4611686018427387904 <= n <= 4611686018427387903,
    ensures
        input_value(int_decimal(n)) matches Ok(v) && value_text(mem, v as i64, fuel) == Some(int_decimal(n)),
        input_value("true"@) matches Ok(v) && value_text(mem, v as i64, fuel) == Some("true"@),
        input_value("false"@) matches Ok(v) && value_text(mem, v as i64, fuel) == Some("false"@),
{
    lemma_decimal_is_number(n);
    let m = n as i64;
    assert((((m << 1) as u64) as i64) != 3 && (((m << 1) as u64) as i64) != 7 && ((((m << 1) as u64) as i64) & 3)
        != 1 && ((((m << 1) as u64) as i64) >> 1) == m) by (bit_vector)
        requires
            -0x4000_0000_0000_0000 <= m <= 0x3fff_ffff_ffff_ffff,
    ;
}

impl InputError {
    /// The message with which the runtime stops on this error.
    pub fn message(&self) -> (r: String)
        ensures
            r@ == "invalid argument"@,
    {
        let mut s = String::new();
        s.append("invalid argument");
        proof {
            assert(s@ =~= "invalid argument"@);
        }
        s
    }
}

} // verus!
