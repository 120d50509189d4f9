//! The messages with which the compiler stops on a parse or compile error.
use vstd::prelude::*;

use crate::caduceus::types::{CompileError, ParseError, SpecCompileError, SpecParseError};
use crate::sexpr::{display_atom, display_sexp, sexp_text, view_sexps, SExpr, SpecAtom, SpecSExpr};

verus! {

broadcast use {crate::sexpr::lemma_view_sexps, crate::sexpr::lemma_view_sexps_index};

/// The texts of the s-expressions, separated by commas.
pub open spec fn sexps_joined(ss: Seq<SpecSExpr>) -> Seq<char>
    decreases ss.len(),
{
    if ss.len() == 0 {
        Seq::empty()
    } else if ss.len() == 1 {
        sexp_text(ss[0])
    } else {
        sexps_joined(ss.drop_last()) + ", "@ + sexp_text(ss.last())
    }
}

/// How a list of s-expressions is shown in a message: in brackets,
/// separated by commas.
pub open spec fn sexps_shown(ss: Seq<SpecSExpr>) -> Seq<char> {
    "["@ + sexps_joined(ss) + "]"@
}

/// The text of an atom in a message.
pub open spec fn atom_shown(a: SpecAtom) -> Seq<char> {
    sexp_text(SpecSExpr::Atom(a))
}

/// The message of a parse error.
pub open spec fn parse_error_text(e: SpecParseError) -> Seq<char> {
    match e {
        SpecParseError::BlockEmpty => "Invalid block: Block is empty."@,
        SpecParseError::UnknownOperator(op, c) => "Invalid operator: "@ + op + " (context: "@ + sexps_shown(c) + ")"@,
        SpecParseError::UnsupportedAtomType(a) => "Invalid atom type: "@ + atom_shown(a)
            + " not supported (or overflow occurred)"@,
        SpecParseError::UnknownBinaryOperator(op, c) => "Invalid binary operator: "@ + op + " (context: "@ + sexps_shown(
            c,
        ) + ")"@,
        SpecParseError::InvalidSExpr(c) => "Invalid s-expression: "@ + sexps_shown(c),
        SpecParseError::BadBinding(s) => "Invalid let-binding, incorrectly formatted: "@ + sexp_text(s),
        SpecParseError::InvalidBinding(s) => "Invalid let-binding, bad binding: "@ + sexp_text(s),
        SpecParseError::InvalidIdentifier(x, c) => "Invalid identifier: "@ + x + " (context: "@ + sexps_shown(c)
            + "). Possible keyword or binary operator use?"@,
        SpecParseError::ReservedIdentifierUsed(x, c) => "Invalid identifier: "@ + x + " (context: "@ + sexps_shown(c)
            + "), keyword was used"@,
        SpecParseError::NoLetBindings => "Invalid let-binding: no bindings."@,
        SpecParseError::DuplicateIdentifier(x) => "Duplicate binding "@ + x,
        SpecParseError::OverflowNumber(a) => "Invalid number; number too big: "@ + atom_shown(a) + " (overflow/overflow)"@,
        SpecParseError::UnderflowNumber(a) => "Invalid number; number too small: "@ + atom_shown(a)
            + " (overflow/underflow)"@,
    }
}

/// The message of a compile error.
pub open spec fn compile_error_text(e: SpecCompileError) -> Seq<char> {
    match e {
        SpecCompileError::UnboundIdentifier(x) => "Unbound variable identifier "@ + x,
        SpecCompileError::NoLoopForBreak => "No associated loop to break from"@,
    }
}

/// Appends how a list of s-expressions is shown.
fn push_sexps(out: &mut String, c: &[SExpr])
    ensures
        final(out)@ == old(out)@ + sexps_shown(view_sexps(c@)),
{
    let ghost ss = view_sexps(c@);
    out.append("[");
    let mut i: usize = 0;
    assert(ss.take(0) =~= Seq::<SpecSExpr>::empty());
    while i < c.len()
        invariant
            i <= c@.len(),
            ss == view_sexps(c@),
            ss.len() == c@.len(),
            out@ == old(out)@ + "["@ + sexps_joined(ss.take(i as int)),
        decreases c.len() - i,
    {
        if i > 0 {
            out.append(", ");
        }
        let t = display_sexp(&c[i]);
        out.append(t.as_str());
        assert(ss.take(i + 1).drop_last() =~= ss.take(i as int));
        assert(ss[i as int] == c@[i as int]@);
        if i == 0 {
            assert(ss.take(0) =~= Seq::<SpecSExpr>::empty());
            assert(sexps_joined(ss.take(1)) == sexp_text(ss[0]));
        }
        assert(out@ =~= old(out)@ + "["@ + sexps_joined(ss.take(i + 1)));
        i = i + 1;
    }
    assert(ss.take(c@.len() as int) =~= ss);
    out.append("]");
    assert(out@ =~= old(out)@ + sexps_shown(ss));
}

impl<'a> ParseError<'a> {
    /// The message with which the compiler stops on this error.
    pub fn message(&self) -> (r: String)
        ensures
            r@ == parse_error_text(self@),
    {
        let mut s = String::new();
        match self {
            ParseError::BlockEmpty => s.append("Invalid block: Block is empty."),
            ParseError::UnknownOperator(op, c) => {
                s.append("Invalid operator: ");
                s.append(op);
                s.append(" (context: ");
                push_sexps(&mut s, c);
                s.append(")");
            },
            ParseError::UnsupportedAtomType(a) => {
                s.append("Invalid atom type: ");
                let t = display_atom(a);
                s.append(t.as_str());
                s.append(" not supported (or overflow occurred)");
            },
            ParseError::UnknownBinaryOperator(op, c) => {
                s.append("Invalid binary operator: ");
                s.append(op);
                s.append(" (context: ");
                push_sexps(&mut s, c);
                s.append(")");
            },
            ParseError::InvalidSExpr(c) => {
                s.append("Invalid s-expression: ");
                push_sexps(&mut s, c);
            },
            ParseError::BadBinding(x) => {
                s.append("Invalid let-binding, incorrectly formatted: ");
                let t = display_sexp(x);
                s.append(t.as_str());
            },
            ParseError::InvalidBinding(x) => {
                s.append("Invalid let-binding, bad binding: ");
                let t = display_sexp(x);
                s.append(t.as_str());
            },
            ParseError::InvalidIdentifier(x, c) => {
                s.append("Invalid identifier: ");
                s.append(x);
                s.append(" (context: ");
                push_sexps(&mut s, c);
                s.append("). Possible keyword or binary operator use?");
            },
            ParseError::ReservedIdentifierUsed(x, c) => {
                s.append("Invalid identifier: ");
                s.append(x);
                s.append(" (context: ");
                push_sexps(&mut s, c);
                s.append("), keyword was used");
            },
            ParseError::NoLetBindings => s.append("Invalid let-binding: no bindings."),
            ParseError::DuplicateIdentifier(x) => {
                s.append("Duplicate binding ");
                s.append(x);
            },
            ParseError::OverflowNumber(a) => {
                s.append("Invalid number; number too big: ");
                let t = display_atom(a);
                s.append(t.as_str());
                s.append(" (overflow/overflow)");
            },
            ParseError::UnderflowNumber(a) => {
                s.append("Invalid number; number too small: ");
                let t = display_atom(a);
                s.append(t.as_str());
                s.append(" (overflow/underflow)");
            },
        }
        proof {
            assert(s@ =~= parse_error_text(self@));
        }
        s
    }
}

impl<'a> CompileError<'a> {
    /// The message with which the compiler stops on this error.
    pub fn message(&self) -> (r: String)
        ensures
            r@ == compile_error_text(self@),
    {
        let mut s = String::new();
        match self {
            CompileError::UnboundIdentifier(x) => {
                s.append("Unbound variable identifier ");
                s.append(x);
            },
            CompileError::NoLoopForBreak => s.append("No associated loop to break from"),
        }
        proof {
            assert(s@ =~= compile_error_text(self@));
        }
        s
    }
}

} // verus!
