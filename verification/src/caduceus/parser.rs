//! Parsing s-expressions into expressions of the language.
use vstd::prelude::*;

use crate::caduceus::types::{
    ArithmeticBinaryOp, ArithmeticUnaryOp, CompEqualityOp, CompInequalityOp, ComparisonBinaryOp,
    ComparisonUnaryOp, Expr, Op1, Op2, ParseError, SpecExpr, SpecParseError, view_expr, view_exprs,
    view_bindings,
};
use crate::caduceus::util::{is_reserved_keyword, is_valid_identifier, reserved_keyword, valid_identifier};
use crate::sexpr::{view_sexps, SAtom, SExpr, SpecAtom, SpecSExpr};
use crate::text::str_eq;

verus! {

broadcast use
    vstd::std_specs::vec::axiom_vec_decreases_to_view,
    vstd::std_specs::vec::axiom_vec_index_decreases,
    crate::sexpr::lemma_view_sexps,
    crate::sexpr::lemma_view_sexps_index,
    crate::caduceus::types::lemma_view_exprs,
    crate::caduceus::types::lemma_view_exprs_index,
    crate::caduceus::types::lemma_view_bindings,
    crate::caduceus::types::lemma_view_bindings_index,
;

/// The largest number the language can write: numbers are held shifted left
/// by one bit, so they have 63 bits.
pub open spec fn max_number() -> int {
    0x3fff_ffff_ffff_ffff
}

/// The smallest number the language can write.
pub open spec fn min_number() -> int {
    -0x4000_0000_0000_0000
}

/// The word of an s-expression that is a string atom.
pub open spec fn head_word(s: SpecSExpr) -> Option<Seq<char>> {
    match s {
        SpecSExpr::Atom(SpecAtom::S(x)) => Some(x),
        _ => None,
    }
}

/// What an atom parses to.
pub open spec fn parse_atom_spec(a: SpecAtom) -> Result<SpecExpr, SpecParseError> {
    match a {
        SpecAtom::S(s) => Ok(
            if s == "true"@ || s == "false"@ {
                SpecExpr::Bool(s == "true"@)
            } else if s == "input"@ {
                SpecExpr::Input
            } else {
                SpecExpr::Id(s)
            },
        ),
        SpecAtom::I(i) => if i > max_number() {
            Err(SpecParseError::OverflowNumber(a))
        } else if i < min_number() {
            Err(SpecParseError::UnderflowNumber(a))
        } else {
            Ok(SpecExpr::Number(i))
        },
        SpecAtom::F(_) => Err(SpecParseError::UnsupportedAtomType(a)),
    }
}

/// The operator words that take one operand.
pub open spec fn unary_word(op: Seq<char>) -> bool {
    op == "loop"@ || op == "break"@ || op == "add1"@ || op == "sub1"@ || op == "isnum"@
        || op == "isbool"@
}

/// The expression that a unary operator word builds around its operand.
pub open spec fn unary_expr(op: Seq<char>, e: SpecExpr) -> SpecExpr {
    if op == "loop"@ {
        SpecExpr::Loop(Box::new(e))
    } else if op == "break"@ {
        SpecExpr::Break(Box::new(e))
    } else if op == "add1"@ {
        SpecExpr::UnOp(Op1::Arith(ArithmeticUnaryOp::Add1), Box::new(e))
    } else if op == "sub1"@ {
        SpecExpr::UnOp(Op1::Arith(ArithmeticUnaryOp::Sub1), Box::new(e))
    } else if op == "isnum"@ {
        SpecExpr::UnOp(Op1::Comp(ComparisonUnaryOp::IsNum), Box::new(e))
    } else {
        SpecExpr::UnOp(Op1::Comp(ComparisonUnaryOp::IsBool), Box::new(e))
    }
}

/// The binary operator that an operator word names.
pub open spec fn binary_op(op: Seq<char>) -> Option<Op2> {
    if op == "+"@ {
        Some(Op2::Arith(ArithmeticBinaryOp::Plus))
    } else if op == "-"@ {
        Some(Op2::Arith(ArithmeticBinaryOp::Minus))
    } else if op == "*"@ {
        Some(Op2::Arith(ArithmeticBinaryOp::Times))
    } else if op == "="@ {
        Some(Op2::Comp(ComparisonBinaryOp::Equality(CompEqualityOp::Equal)))
    } else if op == "!="@ {
        Some(Op2::Comp(ComparisonBinaryOp::Equality(CompEqualityOp::NotEqual)))
    } else if op == "<="@ {
        Some(Op2::Comp(ComparisonBinaryOp::Inequality(CompInequalityOp::LessEqual)))
    } else if op == "<"@ {
        Some(Op2::Comp(ComparisonBinaryOp::Inequality(CompInequalityOp::Less)))
    } else if op == ">="@ {
        Some(Op2::Comp(ComparisonBinaryOp::Inequality(CompInequalityOp::GreaterEqual)))
    } else if op == ">"@ {
        Some(Op2::Comp(ComparisonBinaryOp::Inequality(CompInequalityOp::Greater)))
    } else {
        None
    }
}

/// Parses each s-expression of `s` in order; the first error stops it.
pub open spec fn parse_all_spec(s: Seq<SpecSExpr>) -> Result<Seq<SpecExpr>, SpecParseError>
    decreases s, 0int,
{
    if s.len() == 0 {
        Ok(Seq::empty())
    } else {
        match parse_all_spec(s.drop_last()) {
            Err(e) => Err(e),
            Ok(v) => match parse_spec(s.last()) {
                Err(e) => Err(e),
                Ok(x) => Ok(v.push(x)),
            },
        }
    }
}

/// `name` is bound by one of the bindings of `v`.
pub open spec fn binds_name(v: Seq<(Seq<char>, SpecExpr)>, name: Seq<char>) -> bool {
    exists|k: int| 0 <= k < v.len() && #[trigger] v[k].0 == name
}

/// Parses the bindings of a `let` in order; the first error, or the first
/// name bound twice, stops it.
pub open spec fn parse_bindings_spec(s: Seq<SpecSExpr>) -> Result<Seq<(Seq<char>, SpecExpr)>, SpecParseError>
    decreases s, 0int,
{
    if s.len() == 0 {
        Ok(Seq::empty())
    } else {
        match parse_bindings_spec(s.drop_last()) {
            Err(e) => Err(e),
            Ok(v) => match parse_bind_spec(s.last()) {
                Err(e) => Err(e),
                Ok(b) => if binds_name(v, b.0) {
                    Err(SpecParseError::DuplicateIdentifier(b.0))
                } else {
                    Ok(v.push(b))
                },
            },
        }
    }
}

/// What a binding `(<identifier> <expr>)` parses to.
pub open spec fn parse_bind_spec(s: SpecSExpr) -> Result<(Seq<char>, SpecExpr), SpecParseError>
    decreases s, 1int,
{
    match s {
        SpecSExpr::List(data) => if data.len() == 2 && head_word(data[0]) is Some {
            let name = head_word(data[0])->0;
            if !valid_identifier(name) {
                Err(SpecParseError::InvalidIdentifier(name, data))
            } else if reserved_keyword(name) {
                Err(SpecParseError::ReservedIdentifierUsed(name, data))
            } else {
                match parse_spec(data[1]) {
                    Err(e) => Err(e),
                    Ok(e) => Ok((name, e)),
                }
            }
        } else {
            Err(SpecParseError::BadBinding(s))
        },
        _ => Err(SpecParseError::InvalidBinding(s)),
    }
}

/// What an s-expression parses to: the grammar of the language.
pub open spec fn parse_spec(s: SpecSExpr) -> Result<SpecExpr, SpecParseError>
    decreases s, 2int,
{
    match s {
        SpecSExpr::Atom(a) => parse_atom_spec(a),
        SpecSExpr::List(l) => if l.len() >= 1 && head_word(l[0]) == Some("block"@) {
            // (block <expr>+)
            match parse_all_spec(l.subrange(1, l.len() as int)) {
                Err(e) => Err(e),
                Ok(v) => if v.len() == 0 {
                    Err(SpecParseError::BlockEmpty)
                } else {
                    Ok(SpecExpr::Block(v))
                },
            }
        } else if l.len() == 3 && head_word(l[0]) == Some("set!"@) && head_word(l[1]) is Some {
            // (set! <identifier> <expr>)
            let id = head_word(l[1])->0;
            if !valid_identifier(id) {
                Err(SpecParseError::InvalidIdentifier(id, l))
            } else if reserved_keyword(id) {
                Err(SpecParseError::ReservedIdentifierUsed(id, l))
            } else {
                match parse_spec(l[2]) {
                    Err(e) => Err(e),
                    Ok(e) => Ok(SpecExpr::Assign(id, Box::new(e))),
                }
            }
        } else if l.len() == 4 && head_word(l[0]) == Some("if"@) {
            // (if <expr> <expr> <expr>)
            match parse_spec(l[1]) {
                Err(e) => Err(e),
                Ok(c) => match parse_spec(l[2]) {
                    Err(e) => Err(e),
                    Ok(t) => match parse_spec(l[3]) {
                        Err(e) => Err(e),
                        Ok(f) => Ok(SpecExpr::If(Box::new(c), Box::new(t), Box::new(f))),
                    },
                },
            }
        } else if l.len() == 3 && head_word(l[0]) == Some("let"@) && l[1] is List {
            // (let (<binding>+) <expr>)
            match parse_bindings_spec(l[1]->List_0) {
                Err(e) => Err(e),
                Ok(v) => if v.len() == 0 {
                    Err(SpecParseError::NoLetBindings)
                } else {
                    match parse_spec(l[2]) {
                        Err(e) => Err(e),
                        Ok(body) => Ok(SpecExpr::Let(v, Box::new(body))),
                    }
                },
            }
        } else if l.len() == 2 && head_word(l[0]) is Some {
            // (<op> <expr>)
            let op = head_word(l[0])->0;
            if unary_word(op) {
                match parse_spec(l[1]) {
                    Err(e) => Err(e),
                    Ok(e) => Ok(unary_expr(op, e)),
                }
            } else {
                Err(SpecParseError::UnknownOperator(op, l))
            }
        } else if l.len() == 3 && head_word(l[0]) is Some {
            // (<op> <expr> <expr>)
            let op = head_word(l[0])->0;
            match binary_op(op) {
                Some(o) => match parse_spec(l[1]) {
                    Err(e) => Err(e),
                    Ok(a) => match parse_spec(l[2]) {
                        Err(e) => Err(e),
                        Ok(b) => Ok(SpecExpr::BinOp(o, Box::new(a), Box::new(b))),
                    },
                },
                None => Err(SpecParseError::UnknownBinaryOperator(op, l)),
            }
        } else {
            Err(SpecParseError::InvalidSExpr(l))
        },
    }
}


pub open spec fn view_parse<'a>(r: Result<Expr<'a>, ParseError<'a>>) -> Result<SpecExpr, SpecParseError> {
    match r {
        Ok(e) => Ok(e@),
        Err(e) => Err(e@),
    }
}

pub open spec fn view_bind<'a>(r: Result<(&'a str, Expr<'a>), ParseError<'a>>) -> Result<(Seq<char>, SpecExpr), SpecParseError> {
    match r {
        Ok(b) => Ok((b.0@, b.1@)),
        Err(e) => Err(e@),
    }
}

proof fn lemma_parse_all_prefix_err(s: Seq<SpecSExpr>, k: int)
    requires
        0 <= k <= s.len(),
        parse_all_spec(s.take(k)) is Err,
    ensures
        parse_all_spec(s) == parse_all_spec(s.take(k)),
    decreases s.len(),
{
    if k == s.len() {
        assert(s.take(k) =~= s);
    } else {
        assert(s.drop_last().take(k) =~= s.take(k));
        lemma_parse_all_prefix_err(s.drop_last(), k);
    }
}

proof fn lemma_parse_bindings_prefix_err(s: Seq<SpecSExpr>, k: int)
    requires
        0 <= k <= s.len(),
        parse_bindings_spec(s.take(k)) is Err,
    ensures
        parse_bindings_spec(s) == parse_bindings_spec(s.take(k)),
    decreases s.len(),
{
    if k == s.len() {
        assert(s.take(k) =~= s);
    } else {
        assert(s.drop_last().take(k) =~= s.take(k));
        lemma_parse_bindings_prefix_err(s.drop_last(), k);
    }
}

/// The word of `s`, where `s` is a string atom.
fn word_of<'a>(s: &'a SExpr) -> (r: Option<&'a str>)
    ensures
        match r {
            Some(x) => head_word(s@) == Some(x@),
            None => head_word(s@) is None,
        },
{
    match s {
        SExpr::Atom(SAtom::S(x)) => Some(x.as_str()),
        _ => None,
    }
}

/// Whether the first element of `l` is the word `w`.
fn head_is(l: &[SExpr], w: &str) -> (r: bool)
    ensures
        r == (l@.len() >= 1 && head_word(l@[0]@) == Some(w@)),
{
    if l.len() == 0 {
        return false;
    }
    match word_of(&l[0]) {
        Some(x) => str_eq(x, w),
        None => false,
    }
}

fn binary_op_of(op: &str) -> (r: Option<Op2>)
    ensures
        r == binary_op(op@),
{
    if str_eq(op, "+") {
        Some(Op2::Arith(ArithmeticBinaryOp::Plus))
    } else if str_eq(op, "-") {
        Some(Op2::Arith(ArithmeticBinaryOp::Minus))
    } else if str_eq(op, "*") {
        Some(Op2::Arith(ArithmeticBinaryOp::Times))
    } else if str_eq(op, "=") {
        Some(Op2::Comp(ComparisonBinaryOp::Equality(CompEqualityOp::Equal)))
    } else if str_eq(op, "!=") {
        Some(Op2::Comp(ComparisonBinaryOp::Equality(CompEqualityOp::NotEqual)))
    } else if str_eq(op, "<=") {
        Some(Op2::Comp(ComparisonBinaryOp::Inequality(CompInequalityOp::LessEqual)))
    } else if str_eq(op, "<") {
        Some(Op2::Comp(ComparisonBinaryOp::Inequality(CompInequalityOp::Less)))
    } else if str_eq(op, ">=") {
        Some(Op2::Comp(ComparisonBinaryOp::Inequality(CompInequalityOp::GreaterEqual)))
    } else if str_eq(op, ">") {
        Some(Op2::Comp(ComparisonBinaryOp::Inequality(CompInequalityOp::Greater)))
    } else {
        None
    }
}

fn is_unary_word(op: &str) -> (r: bool)
    ensures
        r == unary_word(op@),
{
    str_eq(op, "loop") || str_eq(op, "break") || str_eq(op, "add1") || str_eq(op, "sub1")
        || str_eq(op, "isnum") || str_eq(op, "isbool")
}

fn build_unary<'a>(op: &str, e: Expr<'a>) -> (r: Expr<'a>)
    requires
        unary_word(op@),
    ensures
        r@ == unary_expr(op@, e@),
{
    if str_eq(op, "loop") {
        Expr::Loop(Box::new(e))
    } else if str_eq(op, "break") {
        Expr::Break(Box::new(e))
    } else if str_eq(op, "add1") {
        Expr::UnOp(Op1::Arith(ArithmeticUnaryOp::Add1), Box::new(e))
    } else if str_eq(op, "sub1") {
        Expr::UnOp(Op1::Arith(ArithmeticUnaryOp::Sub1), Box::new(e))
    } else if str_eq(op, "isnum") {
        Expr::UnOp(Op1::Comp(ComparisonUnaryOp::IsNum), Box::new(e))
    } else {
        Expr::UnOp(Op1::Comp(ComparisonUnaryOp::IsBool), Box::new(e))
    }
}

fn parse_atom<'a>(atom: &'a SAtom) -> (r: Result<Expr<'a>, ParseError<'a>>)
    ensures
        view_parse(r) == parse_atom_spec(atom@),
{
    match atom {
        SAtom::S(s) => {
            let s = s.as_str();
            proof {
                reveal_strlit("true");
                reveal_strlit("false");
            }
            Ok(
                if str_eq(s, "true") || str_eq(s, "false") {
                    Expr::Bool(str_eq(s, "true"))
                } else if str_eq(s, "input") {
                    Expr::Input
                } else {
                    Expr::Id(s)
                },
            )
        },
        SAtom::I(i) => {
            // Numbers are held shifted left by one bit, so make sure there's no overflow.
            if *i > 0x3fff_ffff_ffff_ffff {
                Err(ParseError::OverflowNumber(atom))
            } else if *i < -0x4000_0000_0000_0000 {
                Err(ParseError::UnderflowNumber(atom))
            } else {
                Ok(Expr::Number(*i))
            }
        },
        SAtom::F(_) => Err(ParseError::UnsupportedAtomType(atom)),
    }
}

/// Whether one of the bindings of `v` binds `name`.
fn binds(v: &Vec<(&str, Expr)>, name: &str) -> (r: bool)
    ensures
        r == binds_name(view_bindings(v@), name@),
{
    let mut k: usize = 0;
    while k < v.len()
        invariant
            k <= v@.len(),
            forall|j: int| 0 <= j < k ==> v@[j].0@ != name@,
        decreases v.len() - k,
    {
        if str_eq(v[k].0, name) {
            assert(v@[k as int].0@ == name@);
            assert(view_bindings(v@)[k as int] == (v@[k as int].0@, view_expr(v@[k as int].1)));
            let ghost w = view_bindings(v@);
            assert(w.len() == v@.len());
            assert(w[k as int].0 == name@);
            assert(binds_name(w, name@));
            return true;
        }
        k = k + 1;
    }
    assert forall|j: int| 0 <= j < view_bindings(v@).len() implies #[trigger] view_bindings(v@)[j].0 != name@ by {
        assert(v@[j].0@ != name@);
    }
    false
}

pub open spec fn view_parse_all<'a>(r: Result<Vec<Expr<'a>>, ParseError<'a>>) -> Result<Seq<SpecExpr>, SpecParseError> {
    match r {
        Ok(v) => Ok(view_exprs(v@)),
        Err(e) => Err(e@),
    }
}

pub open spec fn view_parse_bindings<'a>(r: Result<Vec<(&'a str, Expr<'a>)>, ParseError<'a>>) -> Result<Seq<(Seq<char>, SpecExpr)>, SpecParseError> {
    match r {
        Ok(v) => Ok(view_bindings(v@)),
        Err(e) => Err(e@),
    }
}

/// Parses the statements of a block, the elements of `l` after the first.
fn parse_block_items<'a>(s: &'a SExpr, l: &'a [SExpr]) -> (r: Result<Vec<Expr<'a>>, ParseError<'a>>)
    requires
        s matches SExpr::List(v) && v@ == l@,
        l@.len() >= 1,
    ensures
        view_parse_all(r) == parse_all_spec(view_sexps(l@).subrange(1, l@.len() as int)),
    decreases s, 0int,
{
    let n = l.len();
    let ghost v = view_sexps(l@);
    let mut parsed_statements: Vec<Expr<'a>> = Vec::new();
    let mut i: usize = 1;
    assert(v.subrange(1, 1) =~= Seq::<SpecSExpr>::empty());
    while i < n
        invariant
            s matches SExpr::List(w) && w@ == l@,
            n == l@.len(),
            v == view_sexps(l@),
            1 <= i <= n,
            parse_all_spec(v.subrange(1, i as int)) == Ok::<Seq<SpecExpr>, SpecParseError>(view_exprs(parsed_statements@)),
        decreases n - i,
    {
        let ghost before = parsed_statements@;
        let r = parse_expr(&l[i]);
        assert(v.subrange(1, i + 1).drop_last() =~= v.subrange(1, i as int));
        assert(v.subrange(1, i + 1).last() == v[i as int]);
        match r {
            Err(e) => {
                proof {
                    assert(v.subrange(1, n as int).take(i - 1 + 1) =~= v.subrange(1, i + 1));
                    lemma_parse_all_prefix_err(v.subrange(1, n as int), i - 1 + 1);
                }
                return Err(e);
            },
            Ok(e) => {
                parsed_statements.push(e);
                assert(parsed_statements@.drop_last() =~= before);
            },
        }
        i = i + 1;
    }
    Ok(parsed_statements)
}

/// Parses the bindings of a `let`, the elements of the list `b`.
fn parse_bindings<'a>(b: &'a SExpr, bindings: &'a Vec<SExpr>) -> (r: Result<Vec<(&'a str, Expr<'a>)>, ParseError<'a>>)
    requires
        b matches SExpr::List(v) && v == bindings,
    ensures
        view_parse_bindings(r) == parse_bindings_spec(view_sexps(bindings@)),
    decreases b, 0int,
{
    let ghost bv = view_sexps(bindings@);
    let mut parsed_bindings: Vec<(&'a str, Expr<'a>)> = Vec::new();
    let mut j: usize = 0;
    assert(bv.take(0) =~= Seq::<SpecSExpr>::empty());
    while j < bindings.len()
        invariant
            b matches SExpr::List(v) && v == bindings,
            bv == view_sexps(bindings@),
            j <= bindings@.len(),
            parse_bindings_spec(bv.take(j as int)) == Ok::<Seq<(Seq<char>, SpecExpr)>, SpecParseError>(view_bindings(parsed_bindings@)),
        decreases bindings.len() - j,
    {
        let ghost before = parsed_bindings@;
        let r = parse_bind(&bindings[j]);
        assert(bv.take(j + 1).drop_last() =~= bv.take(j as int));
        assert(bv.take(j + 1).last() == bv[j as int]);
        match r {
            Err(e) => {
                proof { lemma_parse_bindings_prefix_err(bv, j + 1); }
                return Err(e);
            },
            Ok(binding_result) => {
                // If we've seen this identifier before, that means we have a duplicate!
                if binds(&parsed_bindings, binding_result.0) {
                    proof { lemma_parse_bindings_prefix_err(bv, j + 1); }
                    return Err(ParseError::DuplicateIdentifier(binding_result.0));
                }
                parsed_bindings.push(binding_result);
                assert(parsed_bindings@.drop_last() =~= before);
            },
        }
        j = j + 1;
    }
    assert(bv.take(bindings@.len() as int) =~= bv);
    Ok(parsed_bindings)
}

/// Parses the given s-expression into (what is effectively) a Rust enum representation
/// (i.e., an abstract syntax tree).
///
/// # Parameters
/// - `s`: The s-expression.
///
/// # Returns
/// The expression. If the s-expression is invalid, this will instead return a `ParseError`.
pub fn parse_expr<'a>(s: &'a SExpr) -> (r: Result<Expr<'a>, ParseError<'a>>)
    ensures
        view_parse(r) == parse_spec(s@),
        r matches Ok(e) ==> well_formed(e@),
    decreases s, 1int,
{
    proof { lemma_parse_well_formed(s@); }
    match s {
        SExpr::Atom(atom) => parse_atom(atom),
        SExpr::List(list) => {
            let l: &'a [SExpr] = list.as_slice();
            let n = l.len();
            let ghost v = view_sexps(list@);
            assert(s@ == SpecSExpr::List(v));
            // (block <expr>+)
            if head_is(l, "block") {
                let parsed_statements = parse_block_items(s, l)?;
                if parsed_statements.len() == 0 {
                    return Err(ParseError::BlockEmpty);
                } else {
                    return Ok(Expr::Block(parsed_statements));
                }
            }
            // (set! <identifier> <expr>)
            if n == 3 && head_is(l, "set!") {
                if let Some(id) = word_of(&l[1]) {
                    if !is_valid_identifier(id) {
                        return Err(ParseError::InvalidIdentifier(id, l));
                    } else if is_reserved_keyword(id) {
                        return Err(ParseError::ReservedIdentifierUsed(id, l));
                    } else {
                        let e = parse_expr(&l[2])?;
                        return Ok(Expr::Assign(id, Box::new(e)));
                    }
                }
            }
            // (if <expr> <expr> <expr>)
            if n == 4 && head_is(l, "if") {
                let c = parse_expr(&l[1])?;
                let t = parse_expr(&l[2])?;
                let f = parse_expr(&l[3])?;
                return Ok(Expr::If(Box::new(c), Box::new(t), Box::new(f)));
            }
            // (let (<bindings> +) <expr>)
            // where each <binding> has the form (String <expr>)
            if n == 3 && head_is(l, "let") {
                if let SExpr::List(bindings) = &l[1] {
                    let parsed_bindings = parse_bindings(&l[1], bindings)?;
                    if parsed_bindings.len() == 0 {
                        return Err(ParseError::NoLetBindings);
                    }
                    let body = parse_expr(&l[2])?;
                    return Ok(Expr::Let(parsed_bindings, Box::new(body)));
                }
            }
            // (loop <expr>), (break <expr>), (add1 <expr>), (sub1 <expr>),
            // (isnum <expr>), (isbool <expr>)
            if n == 2 {
                if let Some(op) = word_of(&l[0]) {
                    if is_unary_word(op) {
                        let e = parse_expr(&l[1])?;
                        return Ok(build_unary(op, e));
                    } else {
                        return Err(ParseError::UnknownOperator(op, l));
                    }
                }
            }
            // (+ <expr> <expr>), (- <expr> <expr>), (* <expr> <expr>),
            // (< <expr> <expr>), (> <expr> <expr>), (<= <expr> <expr>),
            // (>= <expr> <expr>), (= <expr> <expr>), (!= <expr> <expr>)
            if n == 3 {
                if let Some(op) = word_of(&l[0]) {
                    match binary_op_of(op) {
                        Some(o) => {
                            let a = parse_expr(&l[1])?;
                            let b = parse_expr(&l[2])?;
                            return Ok(Expr::BinOp(o, Box::new(a), Box::new(b)));
                        },
                        None => return Err(ParseError::UnknownBinaryOperator(op, l)),
                    }
                }
            }
            Err(ParseError::InvalidSExpr(l))
        },
    }
}

/// A helper function to parse a `let`-binding.
///
/// # Parameters
/// - `s`: The s-expression containing a binding.
///
/// # Returns
/// The binding, represented as a tuple where the first item is the identifier
/// and the second item is the associated expression.
///
/// If the binding is invalid, this will instead return a `ParseError`.
fn parse_bind<'a>(s: &'a SExpr) -> (r: Result<(&'a str, Expr<'a>), ParseError<'a>>)
    ensures
        view_bind(r) == parse_bind_spec(s@),
    decreases s, 1int,
{
    if let SExpr::List(data) = s {
        let d: &'a [SExpr] = data.as_slice();
        let ghost dv = view_sexps(data@);
        assert(s@ == SpecSExpr::List(dv));
        if d.len() == 2 {
            if let Some(name) = word_of(&d[0]) {
                // Make sure the name to use as the identifier is valid AND is not
                // a reserved keyword.
                if !is_valid_identifier(name) {
                    return Err(ParseError::InvalidIdentifier(name, d));
                } else if is_reserved_keyword(name) {
                    return Err(ParseError::ReservedIdentifierUsed(name, d));
                } else {
                    let e = parse_expr(&d[1])?;
                    return Ok((name, e));
                }
            }
        }
        Err(ParseError::BadBinding(s))
    } else {
        Err(ParseError::InvalidBinding(s))
    }
}

/// A name that a program may give a variable.
pub open spec fn variable_name(x: Seq<char>) -> bool {
    valid_identifier(x) && !reserved_keyword(x)
}

/// No two bindings of `bs` bind the same name.
pub open spec fn distinct_names(bs: Seq<(Seq<char>, SpecExpr)>) -> bool {
    forall|i: int, j: int| 0 <= i < j < bs.len() ==> #[trigger] bs[i].0 != #[trigger] bs[j].0
}

/// What every expression that the parser builds satisfies: numbers have 63
/// bits; `let` binds at least one name, each once, and names and assigned
/// variables are valid identifiers that are not keywords; blocks are not
/// empty; and no identifier is `true`, `false` or `input`.
pub open spec fn well_formed(e: SpecExpr) -> bool
    decreases e, 1int,
{
    match e {
        SpecExpr::Number(n) => min_number() <= n <= max_number(),
        SpecExpr::Id(x) => x != "true"@ && x != "false"@ && x != "input"@,
        SpecExpr::Let(bs, body) => bs.len() > 0 && distinct_names(bs) && bindings_well_formed(bs)
            && well_formed(*body),
        SpecExpr::UnOp(_, a) => well_formed(*a),
        SpecExpr::BinOp(_, a, b) => well_formed(*a) && well_formed(*b),
        SpecExpr::If(c, t, f) => well_formed(*c) && well_formed(*t) && well_formed(*f),
        SpecExpr::Assign(x, a) => variable_name(x) && well_formed(*a),
        SpecExpr::Block(es) => es.len() > 0 && all_well_formed(es),
        SpecExpr::Loop(a) => well_formed(*a),
        SpecExpr::Break(a) => well_formed(*a),
        _ => true,
    }
}

pub open spec fn all_well_formed(es: Seq<SpecExpr>) -> bool
    decreases es, 0int,
{
    if es.len() == 0 {
        true
    } else {
        all_well_formed(es.drop_last()) && well_formed(es.last())
    }
}

pub open spec fn bindings_well_formed(bs: Seq<(Seq<char>, SpecExpr)>) -> bool
    decreases bs, 0int,
{
    if bs.len() == 0 {
        true
    } else {
        bindings_well_formed(bs.drop_last()) && variable_name(bs.last().0) && well_formed(bs.last().1)
    }
}

/// Law: whatever the parser accepts is well formed.
pub proof fn lemma_parse_well_formed(s: SpecSExpr)
    ensures
        parse_spec(s) matches Ok(e) ==> well_formed(e),
    decreases s, 2int,
{
    match s {
        SpecSExpr::Atom(_) => {},
        SpecSExpr::List(l) => {
            if l.len() >= 1 && head_word(l[0]) == Some("block"@) {
                lemma_parse_all_well_formed(l.subrange(1, l.len() as int));
            } else if l.len() == 3 && head_word(l[0]) == Some("set!"@) && head_word(l[1]) is Some {
                lemma_parse_well_formed(l[2]);
            } else if l.len() == 4 && head_word(l[0]) == Some("if"@) {
                lemma_parse_well_formed(l[1]);
                lemma_parse_well_formed(l[2]);
                lemma_parse_well_formed(l[3]);
            } else if l.len() == 3 && head_word(l[0]) == Some("let"@) && l[1] is List {
                lemma_parse_bindings_well_formed(l[1]->List_0);
                lemma_parse_well_formed(l[2]);
            } else if l.len() == 2 && head_word(l[0]) is Some {
                lemma_parse_well_formed(l[1]);
            } else if l.len() == 3 && head_word(l[0]) is Some {
                lemma_parse_well_formed(l[1]);
                lemma_parse_well_formed(l[2]);
            }
        },
    }
}

pub proof fn lemma_parse_all_well_formed(s: Seq<SpecSExpr>)
    ensures
        parse_all_spec(s) matches Ok(v) ==> all_well_formed(v) && v.len() == s.len(),
    decreases s, 0int,
{
    if s.len() > 0 {
        lemma_parse_all_well_formed(s.drop_last());
        lemma_parse_well_formed(s.last());
        if let Ok(v) = parse_all_spec(s) {
            assert(v.drop_last() =~= parse_all_spec(s.drop_last())->Ok_0);
        }
    }
}

pub proof fn lemma_parse_bind_well_formed(s: SpecSExpr)
    ensures
        parse_bind_spec(s) matches Ok(b) ==> variable_name(b.0) && well_formed(b.1),
    decreases s, 1int,
{
    if let SpecSExpr::List(data) = s {
        if data.len() == 2 && head_word(data[0]) is Some {
            lemma_parse_well_formed(data[1]);
        }
    }
}

pub proof fn lemma_parse_bindings_well_formed(s: Seq<SpecSExpr>)
    ensures
        parse_bindings_spec(s) matches Ok(v) ==> bindings_well_formed(v) && distinct_names(v) && v.len() == s.len(),
    decreases s, 0int,
{
    if s.len() > 0 {
        lemma_parse_bindings_well_formed(s.drop_last());
        lemma_parse_bind_well_formed(s.last());
        if let Ok(v) = parse_bindings_spec(s) {
            let w = parse_bindings_spec(s.drop_last())->Ok_0;
            assert(v.drop_last() =~= w);
            assert forall|i: int, j: int| 0 <= i < j < v.len() implies #[trigger] v[i].0 != #[trigger] v[j].0 by {
                if j == v.len() - 1 {
                    assert(w[i].0 == v[i].0);
                    assert(!binds_name(w, v[j].0));
                } else {
                    assert(w[i] == v[i] && w[j] == v[j]);
                }
            }
        }
    }
}

} // verus!
