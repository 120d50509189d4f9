//! What the runtime that runs a compiled program decides: how the input is
//! encoded, how the result is printed, and what each error code says.
use vstd::prelude::*;

use crate::decimal::{int_decimal, i64_to_string, lemma_decimal_is_number, parse_i64, parsed_in_range, push_i64_decimal};
use crate::text::str_eq;

verus! {

/// The message of a runtime error code (the runtime then stops the program
/// with exit status 1).
pub open spec fn error_text(errcode: i64) -> Seq<char> {
    if errcode == 0 {
        "invalid argument"@
    } else if errcode == 1 {
        "overflow"@
    } else {
        "an error ocurred "@ + int_decimal(errcode as int)
    }
}

/// The message that the runtime prints for a runtime error code.
pub fn error_message(errcode: i64) -> (r: String)
    ensures
        r@ == error_text(errcode),
{
    let mut s = String::new();
    proof {
        reveal_strlit("invalid argument");
        reveal_strlit("overflow");
        reveal_strlit("an error ocurred ");
    }
    if errcode == 0 {
        s.append("invalid argument");
    } else if errcode == 1 {
        s.append("overflow");
    } else {
        s.append("an error ocurred ");
        push_i64_decimal(&mut s, errcode);
    }
    assert(s@ =~= error_text(errcode));
    s
}

/// Why the runtime refuses an input: it stops with "invalid argument".
#[derive(Debug, Clone, Copy, PartialEq, Eq)]
pub enum InputError {
    InvalidArgument,
}

/// The tagged value of the input text `s`: `true` is 3, `false` (and the
/// empty text) 1, and a number of 63 bits is held shifted left by one bit.
pub open spec fn input_value(s: Seq<char>) -> Result<u64, InputError> {
    if s == "true"@ {
        Ok(3)
    } else if s == "false"@ || s == ""@ {
        Ok(1)
    } else {
        match parsed_in_range(s, true, i64::MIN as int, i64::MAX as int) {
            Some(t) => if t <= 4611686018427387903 && t >= -4611686018427387904 {
                Ok(((t as i64) << 1) as u64)
            } else {
                Err(InputError::InvalidArgument)
            },
            None => Err(InputError::InvalidArgument),
        }
    }
}

/// Encodes the program's input, or gives the [`InputError`] that
/// [`input_value`] names.
fn read_input(input: &str) -> (r: Result<u64, InputError>)
    ensures
        r == input_value(input@),
{
    proof {
        reveal_strlit("true");
        reveal_strlit("false");
        reveal_strlit("");
    }
    if str_eq(input, "true") {
        Ok(3)
    } else if str_eq(input, "false") || str_eq(input, "") {
        Ok(1)
    } else {
        match parse_i64(input) {
            Some(t) => {
                if t <= 4611686018427387903 && t >= -4611686018427387904 {
                    Ok((t << 1) as u64)
                } else {
                    Err(InputError::InvalidArgument)
                }
            },
            None => Err(InputError::InvalidArgument),
        }
    }
}

/// Whether the runtime takes `input`: `Ok` exactly where [`input_value`]
/// gives a value, else its [`InputError`]. The runtime stops with its
/// [`InputError::message`], "invalid argument".
pub fn check_input(input: &str) -> (r: Result<(), InputError>)
    ensures
        (r is Ok) == (input_value(input@) is Ok),
        r matches Err(x) ==> input_value(input@) == Err::<u64, InputError>(x),
{
    match read_input(input) {
        Ok(_) => Ok(()),
        Err(x) => Err(x),
    }
}

/// Encodes the program's input: [`input_value`]. It takes only what
/// [`check_input`] passes.
pub fn parse_input(input: &str) -> (r: u64)
    requires
        input_value(input@) is Ok,
    ensures
        Ok::<u64, InputError>(r) == input_value(input@),
{
    match read_input(input) {
        Ok(v) => v,
        Err(_) => {
            proof {
                assert(false);
            }
            0
        },
    }
}

/// What the runtime prints for the value that the program returns: the
/// booleans by name, anything else as the number it holds shifted left.
pub open spec fn output_text(i: i64) -> Seq<char> {
    if i == 1 {
        "false"@
    } else if i == 3 {
        "true"@
    } else {
        int_decimal((i >> 1) as int)
    }
}

/// Prints the value that the program returns.
pub fn format_output(i: i64) -> (r: String)
    ensures
        r@ == output_text(i),
{
    if i == 1 {
        let mut s = String::new();
        s.append("false");
        assert(s@ =~= "false"@);
        s
    } else if i == 3 {
        let mut s = String::new();
        s.append("true");
        assert(s@ =~= "true"@);
        s
    } else {
        i64_to_string(i >> 1)
    }
}

/// A number of 63 bits given as input is printed back as it was written,
/// and so are both booleans.
pub proof fn lemma_input_output_round_trip(n: int)
    requires
        -4611686018427387904 <= n <= 4611686018427387903,
    ensures
        input_value(int_decimal(n)) matches Ok(v) && output_text(v as i64) == int_decimal(n),
        input_value("true"@) matches Ok(v) && output_text(v as i64) == "true"@,
        input_value("false"@) matches Ok(v) && output_text(v as i64) == "false"@,
{
    lemma_decimal_is_number(n);
    let m = n as i64;
    assert((((m << 1) as u64) as i64) != 1 && (((m << 1) as u64) as i64) != 3 && ((((m << 1) as u64) as i64) >> 1)
        == m) by (bit_vector)
        requires
            -0x4000_0000_0000_0000 <= m <= 0x3fff_ffff_ffff_ffff,
    ;
}

impl InputError {
    /// The message with which the runtime stops on this error.
    pub fn message(&self) -> (r: String)
        ensures
            r@ == "invalid argument"@,
    {
        let mut s = String::new();
        s.append("invalid argument");
        proof {
            assert(s@ =~= "invalid argument"@);
        }
        s
    }
}

} // verus!
