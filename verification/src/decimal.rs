//! Decimal text for integers: the digits the library prints, the digits
//! std's integer parsers accept, and the round trip between the two.
use vstd::prelude::*;

verus! {

/// The character of a decimal digit `d` (0 to 9).
pub open spec fn digit_char(d: int) -> char {
    (d + 48) as char
}

/// `c` is one of '0' to '9'.
pub open spec fn is_digit(c: char) -> bool {
    '0' <= c && c <= '9'
}

/// The value of the digit character `c`.
pub open spec fn digit_value(c: char) -> int {
    c as int - 48
}

/// The shortest decimal digits of `n`, most significant first.
pub open spec fn nat_digits(n: nat) -> Seq<char>
    decreases n,
{
    if n < 10 {
        seq![digit_char(n as int)]
    } else {
        nat_digits(n / 10).push(digit_char((n % 10) as int))
    }
}

/// The decimal text of `n`: a '-' for negative numbers, then its digits.
pub open spec fn int_decimal(n: int) -> Seq<char> {
    if n < 0 {
        seq!['-'] + nat_digits((-n) as nat)
    } else {
        nat_digits(n as nat)
    }
}

/// Every character of `s` is a decimal digit.
pub open spec fn all_digits(s: Seq<char>) -> bool {
    forall|i: int| 0 <= i < s.len() ==> #[trigger] is_digit(s[i])
}

/// The value of a string of decimal digits, most significant first.
pub open spec fn digits_value(s: Seq<char>) -> nat
    decreases s.len(),
{
    if s.len() == 0 {
        0
    } else {
        (digits_value(s.drop_last()) * 10 + digit_value(s.last())) as nat
    }
}

/// The integer written by `s`: an optional sign ('-' only where `signed`)
/// and one or more decimal digits, with nothing before or after them.
pub open spec fn decimal_value(s: Seq<char>, signed: bool) -> Option<int> {
    if s.len() > 0 && s[0] == '-' && signed {
        let d = s.drop_first();
        if d.len() > 0 && all_digits(d) { Some(-(digits_value(d) as int)) } else { None }
    } else if s.len() > 0 && s[0] == '+' {
        let d = s.drop_first();
        if d.len() > 0 && all_digits(d) { Some(digits_value(d) as int) } else { None }
    } else if s.len() > 0 && all_digits(s) {
        Some(digits_value(s) as int)
    } else {
        None
    }
}

/// What parsing `s` as an integer within `[lo, hi]` gives.
pub open spec fn parsed_in_range(s: Seq<char>, signed: bool, lo: int, hi: int) -> Option<int> {
    match decimal_value(s, signed) {
        Some(v) => if lo <= v <= hi { Some(v) } else { None },
        None => None,
    }
}

pub proof fn lemma_nat_digits_all_digits(n: nat)
    ensures
        all_digits(nat_digits(n)),
        nat_digits(n).len() > 0,
        nat_digits(n)[0] != '-' && nat_digits(n)[0] != '+',
    decreases n,
{
    if n >= 10 {
        lemma_nat_digits_all_digits(n / 10);
        let s = nat_digits(n / 10).push(digit_char((n % 10) as int));
        assert forall|i: int| 0 <= i < s.len() implies #[trigger] is_digit(s[i]) by {
            if i < s.len() - 1 {
                assert(is_digit(nat_digits(n / 10)[i]));
            }
        }
    }
}

pub proof fn lemma_nat_digits_value(n: nat)
    ensures
        digits_value(nat_digits(n)) == n,
    decreases n,
{
    if n >= 10 {
        lemma_nat_digits_value(n / 10);
        let s = nat_digits(n);
        assert(s.drop_last() =~= nat_digits(n / 10));
        assert(digit_value(s.last()) == n % 10);
        assert(digits_value(s) == digits_value(s.drop_last()) * 10 + digit_value(s.last()));
        assert((n / 10) * 10 + n % 10 == n) by (nonlinear_arith);
    } else {
        let s = nat_digits(n);
        assert(s.drop_last() =~= Seq::<char>::empty());
        assert(digit_value(s.last()) == n);
        assert(digits_value(s) == digits_value(s.drop_last()) * 10 + digit_value(s.last()));
    }
}

/// Law: the decimal text that the library prints for any integer is read
/// back by std's integer parsing as that same integer.
pub proof fn lemma_decimal_round_trip(n: int)
    ensures
        decimal_value(int_decimal(n), true) == Some(n),
        n >= 0 ==> decimal_value(int_decimal(n), false) == Some(n),
{
    if n < 0 {
        let m = (-n) as nat;
        lemma_nat_digits_all_digits(m);
        lemma_nat_digits_value(m);
        assert((seq!['-'] + nat_digits(m)).drop_first() =~= nat_digits(m));
    } else {
        lemma_nat_digits_all_digits(n as nat);
        lemma_nat_digits_value(n as nat);
    }
}

/// The decimal text of an `i64` is not one of the words `true` and `false`,
/// nor empty, and reads back as the number.
pub proof fn lemma_decimal_is_number(n: int)
    requires
        i64::MIN <= n <= i64::MAX,
    ensures
        int_decimal(n) != "true"@,
        int_decimal(n) != "false"@,
        int_decimal(n) != ""@,
        parsed_in_range(int_decimal(n), true, i64::MIN as int, i64::MAX as int) == Some(n),
{
    reveal_strlit("true");
    reveal_strlit("false");
    reveal_strlit("");
    lemma_decimal_round_trip(n);
    let m: nat = if n < 0 {
        (-n) as nat
    } else {
        n as nat
    };
    lemma_nat_digits_all_digits(m);
    let s = int_decimal(n);
    if n < 0 {
        assert(s[0] == '-');
    } else {
        assert(is_digit(s[0]));
    }
    assert(s.len() > 0);
}

/// The one-character string of the digit `d`.
fn digit_str(d: u64) -> (r: &'static str)
    requires
        d < 10,
    ensures
        r@ == seq![digit_char(d as int)],
{
    proof {
        reveal_strlit("0");
        reveal_strlit("1");
        reveal_strlit("2");
        reveal_strlit("3");
        reveal_strlit("4");
        reveal_strlit("5");
        reveal_strlit("6");
        reveal_strlit("7");
        reveal_strlit("8");
        reveal_strlit("9");
    }
    match d {
        0 => "0",
        1 => "1",
        2 => "2",
        3 => "3",
        4 => "4",
        5 => "5",
        6 => "6",
        7 => "7",
        8 => "8",
        _ => "9",
    }
}

/// Appends the decimal digits of `n` to `out`.
pub fn push_u64_digits(out: &mut String, n: u64)
    ensures
        final(out)@ == old(out)@ + nat_digits(n as nat),
    decreases n,
{
    if n >= 10 {
        push_u64_digits(out, n / 10);
    }
    out.append(digit_str(n % 10));
    proof {
        if n >= 10 {
            assert(old(out)@ + nat_digits(n as nat) =~= old(out)@ + nat_digits((n / 10) as nat) + seq![digit_char((n % 10) as int)]);
        }
    }
}

/// Appends the decimal text of `n` (with a '-' when negative) to `out`.
pub fn push_i64_decimal(out: &mut String, n: i64)
    ensures
        final(out)@ == old(out)@ + int_decimal(n as int),
{
    if n < 0 {
        proof { reveal_strlit("-"); }
        out.append("-");
        let m: u64 = (0i128 - (n as i128)) as u64;
        push_u64_digits(out, m);
        assert(final(out)@ =~= old(out)@ + int_decimal(n as int));
    } else {
        push_u64_digits(out, n as u64);
    }
}

/// The decimal text of `n`.
pub fn i64_to_string(n: i64) -> (r: String)
    ensures
        r@ == int_decimal(n as int),
{
    let mut s = String::new();
    push_i64_decimal(&mut s, n);
    assert(s@ =~= int_decimal(n as int));
    s
}

/// Parses `s` as an `i64`, as `str::parse::<i64>` does: an optional '+' or
/// '-' and one or more ASCII digits, whose value fits in an `i64`. The contract
/// restates what std documents of `i64::from_str`; it is not proved here.
#[verifier::external_body]
pub(crate) fn parse_i64(s: &str) -> (r: Option<i64>)
    ensures
        r == (match parsed_in_range(s@, true, i64::MIN as int, i64::MAX as int) {
            Some(v) => Some(v as i64),
            None => None::<i64>,
        }),
{
    s.parse::<i64>().ok()
}

/// Parses `s` as a `u64`, as `str::parse::<u64>` does: an optional '+' and one
/// or more ASCII digits, whose value fits in a `u64`. The contract restates
/// what std documents of `u64::from_str`; it is not proved here.
#[verifier::external_body]
pub(crate) fn parse_u64(s: &str) -> (r: Option<u64>)
    ensures
        r == (match parsed_in_range(s@, false, 0, u64::MAX as int) {
            Some(v) => Some(v as u64),
            None => None::<u64>,
        }),
{
    s.parse::<u64>().ok()
}

/// Parses `s` as a `usize`, as `str::parse::<usize>` does: an optional '+'
/// and one or more ASCII digits, whose value fits in a `usize`. The contract
/// restates what std documents of `usize::from_str`; it is not proved here.
#[verifier::external_body]
pub(crate) fn parse_usize(s: &str) -> (r: Option<usize>)
    ensures
        r == (match parsed_in_range(s@, false, 0, usize::MAX as int) {
            Some(v) => Some(v as usize),
            None => None::<usize>,
        }),
{
    s.parse::<usize>().ok()
}

} // verus!
