//! What the runtime that runs a compiled program decides: how the input
//! is encoded, how the result is printed, and what each error code says.
use vstd::prelude::*;

use crate::caduceus::compiler::{compile_spec, rax, OVERFLOW_ERROR, TYPE_MISMATCH};
use crate::caduceus::parser::{max_number, min_number};
use crate::caduceus::types::{SpecExpr, SpecInstr, Val};
use crate::decimal::{
    decimal_value, int_decimal, i64_to_string, lemma_decimal_round_trip, parse_i64, parsed_in_range,
    push_i64_decimal,
};
use crate::text::str_eq;

verus! {

/// The message of a runtime error code.
pub open spec fn error_text(errcode: i64) -> Seq<char> {
    if errcode == OVERFLOW_ERROR {
        "[Runtime Error] overflow error."@
    } else if errcode == TYPE_MISMATCH {
        "[Runtime Error] type mismatch error (invalid argument)."@
    } else {
        "[Runtime Error] Unknown error code: "@ + int_decimal(errcode as int)
    }
}

/// The message that the runtime prints for a runtime error code (it then
/// stops the program with exit status 1).
pub fn error_message(errcode: i64) -> (r: String)
    ensures
        r@ == error_text(errcode),
{
    let mut s = String::new();
    if errcode == OVERFLOW_ERROR {
        s.append("[Runtime Error] overflow error.");
    } else if errcode == TYPE_MISMATCH {
        s.append("[Runtime Error] type mismatch error (invalid argument).");
    } else {
        s.append("[Runtime Error] Unknown error code: ");
        push_i64_decimal(&mut s, errcode);
    }
    assert(s@ =~= error_text(errcode));
    s
}

/// Why the runtime refuses an input.
#[derive(Debug, PartialEq, Eq)]
pub enum InputError {
    /// "[Input Error] Invalid input, {} overflow/overflow"
    Overflow(i64),
    /// "[Input Error] Invalid input, {} overflow/underflow"
    Underflow(i64),
    /// "[Input Error] Unsupported input: `{}`"
    Unsupported,
}

/// The tagged value of the input text `s`: `true` is 0b11, `false` is 0b01,
/// and a number is held shifted left by one bit.
pub open spec fn input_value(s: Seq<char>) -> Result<u64, InputError> {
    if s == "true"@ {
        Ok(0b11)
    } else if s == "false"@ {
        Ok(0b01)
    } else {
        match parsed_in_range(s, true, i64::MIN as int, i64::MAX as int) {
            Some(v) => if v > max_number() {
                Err(InputError::Overflow(v as i64))
            } else if v < min_number() {
                Err(InputError::Underflow(v as i64))
            } else {
                Ok(((v as i64) << 1) as u64)
            },
            None => Err(InputError::Unsupported),
        }
    }
}

/// Encodes the program's input, or gives the [`InputError`] that
/// [`input_value`] names.
fn read_input(input: &str) -> (r: Result<u64, InputError>)
    ensures
        r == input_value(input@),
{
    proof {
        reveal_strlit("true");
        reveal_strlit("false");
    }
    if str_eq(input, "true") {
        Ok(0b11)
    } else if str_eq(input, "false") {
        Ok(0b01)
    } else if let Some(val) = parse_i64(input) {
        if val > 0x3fff_ffff_ffff_ffff {
            Err(InputError::Overflow(val))
        } else if val < -0x4000_0000_0000_0000 {
            Err(InputError::Underflow(val))
        } else {
            Ok((val << 1) as u64)
        }
    } else {
        Err(InputError::Unsupported)
    }
}

/// Whether the runtime takes `input`: `Ok` exactly where [`input_value`]
/// gives a value, else its [`InputError`]. The runtime stops with that
/// error's [`InputError::message`].
pub fn check_input(input: &str) -> (r: Result<(), InputError>)
    ensures
        (r is Ok) == (input_value(input@) is Ok),
        r matches Err(x) ==> input_value(input@) == Err::<u64, InputError>(x),
{
    match read_input(input) {
        Ok(_) => Ok(()),
        Err(x) => Err(x),
    }
}

/// Encodes the program's input: [`input_value`]. It takes only what
/// [`check_input`] passes.
pub fn parse_input(input: &str) -> (r: u64)
    requires
        input_value(input@) is Ok,
    ensures
        Ok::<u64, InputError>(r) == input_value(input@),
{
    match read_input(input) {
        Ok(v) => v,
        Err(_) => {
            proof {
                assert(false);
            }
            0
        },
    }
}

/// What the runtime prints for the value that the program returns: a number
/// where the lowest bit is clear, else a boolean.
pub open spec fn output_text(i: i64) -> Seq<char> {
    if i & 1 == 0 {
        int_decimal((i >> 1) as int)
    } else if (i >> 1) == 1 {
        "true"@
    } else {
        "false"@
    }
}

/// Prints the value that the program returns.
pub fn format_output(i: i64) -> (r: String)
    ensures
        r@ == output_text(i),
{
    // If the LSB of i is 0, then we have a number
    // If the LSB of i is 1, then we have a boolean
    if i & 1 == 0 {
        i64_to_string(i >> 1)
    } else {
        let mut s = String::new();
        if (i >> 1) == 1 {
            s.append("true");
        } else {
            s.append("false");
        }
        assert(s@ =~= output_text(i));
        s
    }
}

/// Law: the runtime prints back the input that it was given, for every
/// number of 63 bits and for both booleans.
pub proof fn lemma_input_output_round_trip(n: int)
    requires
        min_number() <= n <= max_number(),
    ensures
        input_value(int_decimal(n)) == Ok::<u64, InputError>(((n as i64) << 1) as u64),
        input_value(int_decimal(n)) matches Ok(v) && output_text(v as i64) == int_decimal(n),
        input_value("true"@) matches Ok(v) && output_text(v as i64) == "true"@,
        input_value("false"@) matches Ok(v) && output_text(v as i64) == "false"@,
{
    reveal_strlit("true");
    reveal_strlit("false");
    lemma_decimal_round_trip(n);
    let s = int_decimal(n);
    assert(s != "true"@) by {
        crate::decimal::lemma_nat_digits_all_digits(if n < 0 { (-n) as nat } else { n as nat });
        if s == "true"@ {
            if n < 0 {
                assert(s[0] == '-');
            } else {
                assert(crate::decimal::is_digit(s[0]));
            }
        }
    }
    assert(s != "false"@) by {
        crate::decimal::lemma_nat_digits_all_digits(if n < 0 { (-n) as nat } else { n as nat });
        if s == "false"@ {
            if n < 0 {
                assert(s[0] == '-');
            } else {
                assert(crate::decimal::is_digit(s[0]));
            }
        }
    }
    let m = n as i64;
    assert(((((m << 1) as u64) as i64) & 1) == 0 && ((((m << 1) as u64) as i64) >> 1) == m) by (bit_vector)
        requires
            -0x4000_0000_0000_0000 <= m <= 0x3fff_ffff_ffff_ffff;
    assert((3i64 & 1) == 1 && (3i64 >> 1) == 1) by (bit_vector);
    assert((1i64 & 1) == 1 && (1i64 >> 1) == 0) by (bit_vector);
}

/// Law: a number written in a program is represented as the runtime
/// represents the same number given as input.
pub proof fn lemma_literal_as_input(n: i64, si: int, env: Map<Seq<char>, i32>, c: nat, lbl: Option<Seq<char>>)
    requires
        min_number() <= n <= max_number(),
    ensures
        input_value(int_decimal(n as int)) matches Ok(v) && compile_spec(SpecExpr::Number(n), si, env, c, lbl)
            == Ok::<(Seq<SpecInstr>, nat), crate::caduceus::types::SpecCompileError>(
            (seq![SpecInstr::IMov(rax(), Val::Imm(v as i64))], c)),
{
    lemma_input_output_round_trip(n as int);
    assert(((((n << 1) as u64) as i64)) == (n << 1)) by (bit_vector);
}

/// The message with which the runtime stops on an input error; `input` is
/// the text it was given.
pub open spec fn input_error_text(e: InputError, input: Seq<char>) -> Seq<char> {
    match e {
        InputError::Overflow(v) => "[Input Error] Invalid input, "@ + int_decimal(v as int) + " overflow/overflow"@,
        InputError::Underflow(v) => "[Input Error] Invalid input, "@ + int_decimal(v as int) + " overflow/underflow"@,
        InputError::Unsupported => "[Input Error] Unsupported input: `"@ + input + "`"@,
    }
}

impl InputError {
    /// The message with which the runtime stops on this error, given the
    /// input text.
    pub fn message(&self, input: &str) -> (r: String)
        ensures
            r@ == input_error_text(*self, input@),
    {
        let mut s = String::new();
        match self {
            InputError::Overflow(v) => {
                s.append("[Input Error] Invalid input, ");
                push_i64_decimal(&mut s, *v);
                s.append(" overflow/overflow");
            },
            InputError::Underflow(v) => {
                s.append("[Input Error] Invalid input, ");
                push_i64_decimal(&mut s, *v);
                s.append(" overflow/underflow");
            },
            InputError::Unsupported => {
                s.append("[Input Error] Unsupported input: `");
                s.append(input);
                s.append("`");
            },
        }
        proof {
            assert(s@ =~= input_error_text(*self, input@));
        }
        s
    }
}

} // verus!
