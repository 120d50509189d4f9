//! Identifiers and keywords of the language.
use vstd::prelude::*;

use crate::text::{ascii_alphanumeric, is_ascii_alphanumeric, str_eq};

verus! {

/// `c` lies in the class `[a-zA-z]`: the characters from `A` to `z`, which
/// hold the letters and `[`, `\\`, `]`, `^`, `_` and the backquote between
/// them.
pub open spec fn identifier_start(c: char) -> bool {
    'A' <= c <= 'z'
}

/// `s` matches `[a-zA-z][a-zA-Z0-9]*`.
pub open spec fn valid_identifier(s: Seq<char>) -> bool {
    &&& s.len() > 0
    &&& identifier_start(s[0])
    &&& forall|i: int| 1 <= i < s.len() ==> #[trigger] ascii_alphanumeric(s[i])
}

/// `s` is one of the keywords of the language, which no variable may be named.
pub open spec fn reserved_keyword(s: Seq<char>) -> bool {
    ||| s == "let"@
    ||| s == "add1"@
    ||| s == "sub1"@
    ||| s == "true"@
    ||| s == "false"@
    ||| s == "input"@
    ||| s == "set!"@
    ||| s == "if"@
    ||| s == "block"@
    ||| s == "loop"@
    ||| s == "break"@
    ||| s == "isnum"@
    ||| s == "isbool"@
}

/// Checks if the given identifier is a valid identifier. Identifiers
/// should satisfy the regex `[a-zA-z][a-zA-Z0-9]*`.
///
/// # Parameters
/// - `id`: The identifier to check.
///
/// # Returns
/// `true` if the identifier is valid, and `false` otherwise.
pub fn is_valid_identifier(id: &str) -> (r: bool)
    ensures
        r == valid_identifier(id@),
{
    let n = id.unicode_len();
    if n == 0 {
        return false;
    }
    let mut i: usize = 0;
    while i < n
        invariant
            n == id@.len(),
            n > 0,
            i <= n,
            i > 0 ==> identifier_start(id@[0]),
            forall|j: int| 1 <= j < i ==> #[trigger] ascii_alphanumeric(id@[j]),
        decreases n - i,
    {
        let c = id.get_char(i);
        if i == 0 {
            if !('A' <= c && c <= 'z') {
                return false;
            }
        } else if !is_ascii_alphanumeric(c) {
            return false;
        }
        i = i + 1;
    }
    true
}

/// Whether `id` is one of the keywords of the language.
pub fn is_reserved_keyword(id: &str) -> (r: bool)
    ensures
        r == reserved_keyword(id@),
{
    str_eq(id, "let") || str_eq(id, "add1") || str_eq(id, "sub1") || str_eq(id, "true")
        || str_eq(id, "false") || str_eq(id, "input") || str_eq(id, "set!") || str_eq(id, "if")
        || str_eq(id, "block") || str_eq(id, "loop") || str_eq(id, "break") || str_eq(id, "isnum")
        || str_eq(id, "isbool")
}

} // verus!
