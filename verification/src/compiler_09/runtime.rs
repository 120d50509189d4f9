//! What the runtime that runs a compiled program decides: how the input is
//! encoded, how the result is printed, and what each error code says.
use vstd::prelude::*;

use crate::decimal::{
    decimal_value, int_decimal, is_digit, lemma_decimal_round_trip, lemma_nat_digits_all_digits, nat_digits,
    parse_u64, parsed_in_range, push_i64_decimal, push_u64_digits,
};
use crate::text::str_eq;

verus! {

/// The lines that the runtime prints for a runtime error code (it then
/// stops the program with exit status 1).
pub open spec fn error_text(errcode: i64) -> Seq<char> {
    "an error ocurred "@ + int_decimal(errcode as int) + (if errcode == 7 {
        "\ninvalid argument"@
    } else {
        Seq::empty()
    }) + (if errcode == 5 {
        "\noverflow!"@
    } else {
        Seq::empty()
    })
}

/// The lines that the runtime prints for a runtime error code.
pub fn error_message(errcode: i64) -> (r: String)
    ensures
        r@ == error_text(errcode),
{
    let mut s = String::new();
    proof {
        reveal_strlit("an error ocurred ");
        reveal_strlit("\ninvalid argument");
        reveal_strlit("\noverflow!");
    }
    s.append("an error ocurred ");
    push_i64_decimal(&mut s, errcode);
    if errcode == 7 {
        s.append("\ninvalid argument");
    }
    if errcode == 5 {
        s.append("\noverflow!");
    }
    assert(s@ =~= error_text(errcode));
    s
}

/// Why the runtime refuses an input: it prints "invalid argument" and stops
/// with exit status 1.
#[derive(Debug, Clone, Copy, PartialEq, Eq)]
pub enum InputError {
    InvalidArgument,
}

/// The tagged value of the input text `s`: `true` is 3, `false` 1, a number
/// is held shifted left by one bit, where its two highest bits agree (which
/// holds only where both are clear); any other text is `false`.
pub open spec fn input_value(s: Seq<char>) -> Result<u64, InputError> {
    if s == "true"@ {
        Ok(3)
    } else if s == "false"@ {
        Ok(1)
    } else {
        match parsed_in_range(s, false, 0, u64::MAX as int) {
            Some(v) => {
                let n = v as u64;
                if (n & 0x8000_0000_0000_0000) != (n & 0x4000_0000_0000_0000) {
                    Err(InputError::InvalidArgument)
                } else {
                    Ok(n << 1)
                }
            },
            None => Ok(1),
        }
    }
}

/// Encodes the program's input.
pub fn parse_input(input: &str) -> (r: Result<u64, InputError>)
    ensures
        r == input_value(input@),
{
    proof {
        reveal_strlit("true");
        reveal_strlit("false");
    }
    if str_eq(input, "true") {
        Ok(3)
    } else if str_eq(input, "false") {
        Ok(1)
    } else {
        match parse_u64(input) {
            Some(n) => {
                let is_zero_64 = n & 0x8000_0000_0000_0000;
                let is_zero_63 = n & 0x4000_0000_0000_0000;
                if is_zero_64 != is_zero_63 {
                    Err(InputError::InvalidArgument)
                } else {
                    Ok(n << 1)
                }
            },
            None => Ok(1),
        }
    }
}

/// What the runtime prints for the value that the program returns: a
/// number (its lowest bit clear, negative where its highest bit is set), a
/// boolean, or, for any other value, "Unknown: " and the value (after which
/// it reports an invalid argument and stops).
pub open spec fn output_text(i: u64) -> Result<Seq<char>, Seq<char>> {
    if i % 2 == 0 {
        if (i & 0x8000_0000_0000_0000) != 0 {
            Ok("-"@ + nat_digits((((!i) as int + 1) / 2) as nat))
        } else {
            Ok(nat_digits((i / 2) as nat))
        }
    } else if i == 3 {
        Ok("true"@)
    } else if i == 1 {
        Ok("false"@)
    } else {
        Err("Unknown: "@ + nat_digits(i as nat))
    }
}

pub open spec fn view_output(r: Result<String, String>) -> Result<Seq<char>, Seq<char>> {
    match r {
        Ok(s) => Ok(s@),
        Err(s) => Err(s@),
    }
}

/// Prints the value that the program returns.
pub fn print_value(i: u64) -> (r: Result<String, String>)
    ensures
        view_output(r) == output_text(i),
{
    let mut s = String::new();
    if i % 2 == 0 {
        let is_negative = (i & 0x8000_0000_0000_0000) != 0;
        if is_negative {
            let inverted = !i;
            assert((i & 0x8000_0000_0000_0000) != 0 ==> !i < 0x8000_0000_0000_0000) by (bit_vector);
            let result = inverted + 1;
            proof { reveal_strlit("-"); }
            s.append("-");
            push_u64_digits(&mut s, result / 2);
        } else {
            push_u64_digits(&mut s, i / 2);
        }
        assert(s@ =~= output_text(i)->Ok_0);
        Ok(s)
    } else if i == 3 {
        s.append("true");
        assert(s@ =~= "true"@);
        Ok(s)
    } else if i == 1 {
        s.append("false");
        assert(s@ =~= "false"@);
        Ok(s)
    } else {
        proof { reveal_strlit("Unknown: "); }
        s.append("Unknown: ");
        push_u64_digits(&mut s, i);
        assert(s@ =~= output_text(i)->Err_0);
        Err(s)
    }
}

/// Law: the runtime refuses a number as input exactly where it is at least
/// 2^62, where its two highest bits do not both stay clear.
pub proof fn lemma_input_refused_iff_large(n: u64)
    ensures
        ((n & 0x8000_0000_0000_0000) != (n & 0x4000_0000_0000_0000)) <==> n >= 0x4000_0000_0000_0000,
{
    assert(((n & 0x8000_0000_0000_0000) != (n & 0x4000_0000_0000_0000)) <==> n >= 0x4000_0000_0000_0000)
        by (bit_vector);
}

/// Law: every number below 2^62 that the runtime takes as input is printed
/// back as it was written.
pub proof fn lemma_input_output_round_trip(n: u64)
    requires
        n < 0x4000_0000_0000_0000,
    ensures
        input_value(nat_digits(n as nat)) == Ok::<u64, InputError>(n << 1),
        output_text(n << 1) == Ok::<Seq<char>, Seq<char>>(nat_digits(n as nat)),
{
    reveal_strlit("true");
    reveal_strlit("false");
    lemma_decimal_round_trip(n as int);
    lemma_nat_digits_all_digits(n as nat);
    let s = nat_digits(n as nat);
    assert(s != "true"@) by {
        if s == "true"@ {
            assert(is_digit(s[0]));
        }
    }
    assert(s != "false"@) by {
        if s == "false"@ {
            assert(is_digit(s[0]));
        }
    }
    lemma_input_refused_iff_large(n);
    assert((n << 1) % 2 == 0 && (n << 1) & 0x8000_0000_0000_0000 == 0 && (n << 1) / 2 == n) by (bit_vector)
        requires
            n < 0x4000_0000_0000_0000u64;
}

} // verus!
