//! Parsing s-expressions into expressions and function definitions.
use vstd::prelude::*;

use crate::green_snake::syntax::{Defn, Expr, Op1, Op2, ParseError, SpecDefn, SpecExpr, view_binds, view_exprs, view_names};
use crate::sexpr::{SAtom, SExpr, SpecAtom, SpecSExpr, atom_word, display_sexp, sexp_text, view_sexps, word_of};
use crate::text::str_eq;

verus! {

broadcast use
    vstd::std_specs::vec::axiom_vec_decreases_to_view,
    vstd::std_specs::vec::axiom_vec_index_decreases,
    crate::sexpr::lemma_view_sexps,
    crate::sexpr::lemma_view_sexps_index,
    crate::green_snake::syntax::lemma_view_exprs,
    crate::green_snake::syntax::lemma_view_exprs_index,
    crate::green_snake::syntax::lemma_view_binds,
    crate::green_snake::syntax::lemma_view_binds_index,
;

/// The largest number the language can write: values are held shifted left
/// by one bit.
pub open spec fn max_number() -> int {
    4611686018427387903
}

/// The smallest number the language can write.
pub open spec fn min_number() -> int {
    -4611686018427387904
}

/// The words that are no function name and no parameter.
pub open spec fn keywords() -> Seq<Seq<char>> {
    seq![
        "add1"@, "sub1"@, "isnum"@, "isbool"@, "+"@, "-"@, "*"@, "="@, ">="@, ">"@, "<="@, "<"@,
        "let"@, "set!"@, "if"@, "block"@, "loop"@, "break"@, "print"@,
    ]
}

pub open spec fn is_keyword(x: Seq<char>) -> bool {
    keywords().contains(x)
}

/// The unary operator that a word names.
pub open spec fn unop_of(op: Seq<char>) -> Option<Op1> {
    if op == "add1"@ {
        Some(Op1::Add1)
    } else if op == "sub1"@ {
        Some(Op1::Sub1)
    } else if op == "isnum"@ {
        Some(Op1::IsNum)
    } else if op == "isbool"@ {
        Some(Op1::IsBool)
    } else if op == "print"@ {
        Some(Op1::Print)
    } else {
        None
    }
}

/// The binary operator that a word names.
pub open spec fn binop_of(op: Seq<char>) -> Option<Op2> {
    if op == "+"@ {
        Some(Op2::Plus)
    } else if op == "-"@ {
        Some(Op2::Minus)
    } else if op == "*"@ {
        Some(Op2::Times)
    } else if op == "="@ {
        Some(Op2::Equal)
    } else if op == "=="@ {
        Some(Op2::StructuralEqual)
    } else if op == ">="@ {
        Some(Op2::GreaterEqual)
    } else if op == ">"@ {
        Some(Op2::Greater)
    } else if op == "<="@ {
        Some(Op2::LessEqual)
    } else if op == "<"@ {
        Some(Op2::Less)
    } else {
        None
    }
}

/// Parses each s-expression of `s` in order; the first error stops it.
pub open spec fn parse_all_spec(s: Seq<SpecSExpr>) -> Result<Seq<SpecExpr>, ParseError>
    decreases s, 0int,
{
    if s.len() == 0 {
        Ok(Seq::empty())
    } else {
        match parse_all_spec(s.drop_last()) {
            Err(e) => Err(e),
            Ok(v) => match parse_spec(s.last()) {
                Err(e) => Err(e),
                Ok(x) => Ok(v.push(x)),
            },
        }
    }
}

/// Parses each binding of `s` in order; the first error stops it.
pub open spec fn parse_binds_spec(s: Seq<SpecSExpr>) -> Result<Seq<(Seq<char>, SpecExpr)>, ParseError>
    decreases s, 0int,
{
    if s.len() == 0 {
        Ok(Seq::empty())
    } else {
        match parse_binds_spec(s.drop_last()) {
            Err(e) => Err(e),
            Ok(v) => match parse_bind_spec(s.last()) {
                Err(e) => Err(e),
                Ok(b) => Ok(v.push(b)),
            },
        }
    }
}

/// A binding is a list of a name and an expression.
pub open spec fn parse_bind_spec(s: SpecSExpr) -> Result<(Seq<char>, SpecExpr), ParseError>
    decreases s, 1int,
{
    match s {
        SpecSExpr::List(l) => if l.len() == 2 && atom_word(l[0]) is Some {
            match parse_spec(l[1]) {
                Err(e) => Err(e),
                Ok(e) => Ok((atom_word(l[0])->0, e)),
            }
        } else {
            Err(ParseError::InvalidBind)
        },
        _ => Err(ParseError::InvalidBind),
    }
}

/// What an s-expression parses to: the grammar of the language.
pub open spec fn parse_spec(s: SpecSExpr) -> Result<SpecExpr, ParseError>
    decreases s, 2int,
{
    match s {
        SpecSExpr::Atom(SpecAtom::I(n)) => if n > max_number() || n < min_number() {
            Err(ParseError::InvalidOverflow)
        } else {
            Ok(SpecExpr::Number(n))
        },
        SpecSExpr::Atom(SpecAtom::S(x)) => if x == "true"@ {
            Ok(SpecExpr::Boolean(true))
        } else if x == "false"@ {
            Ok(SpecExpr::Boolean(false))
        } else {
            Ok(SpecExpr::Id(x))
        },
        SpecSExpr::Atom(SpecAtom::F(_)) => Err(ParseError::InvalidAtom),
        SpecSExpr::List(l) => if l.len() == 0 || atom_word(l[0]) is None {
            Err(ParseError::InvalidList)
        } else {
            let op = atom_word(l[0])->0;
            let rest = l.subrange(1, l.len() as int);
            if l.len() == 2 && unop_of(op) is Some {
                match parse_spec(l[1]) {
                    Err(e) => Err(e),
                    Ok(a) => Ok(SpecExpr::UnOp(unop_of(op)->0, Box::new(a))),
                }
            } else if l.len() == 3 && binop_of(op) is Some {
                match parse_spec(l[1]) {
                    Err(e) => Err(e),
                    Ok(a) => match parse_spec(l[2]) {
                        Err(e) => Err(e),
                        Ok(b) => Ok(SpecExpr::BinOp(binop_of(op)->0, Box::new(a), Box::new(b))),
                    },
                }
            } else if l.len() == 3 && op == "index"@ {
                match parse_spec(l[1]) {
                    Err(e) => Err(e),
                    Ok(a) => match parse_spec(l[2]) {
                        Err(e) => Err(e),
                        Ok(b) => Ok(SpecExpr::Index(Box::new(a), Box::new(b))),
                    },
                }
            } else if l.len() == 3 && op == "let"@ && l[1] is List {
                let bs = l[1]->List_0;
                if bs.len() == 0 {
                    Err(ParseError::NoBindingLet)
                } else {
                    match parse_binds_spec(bs) {
                        Err(e) => Err(e),
                        Ok(v) => match parse_spec(l[2]) {
                            Err(e) => Err(e),
                            Ok(body) => Ok(SpecExpr::Let(v, Box::new(body))),
                        },
                    }
                }
            } else if l.len() == 3 && op == "set!"@ {
                match parse_spec(l[2]) {
                    Err(e) => Err(e),
                    Ok(a) => Ok(SpecExpr::Assign(sexp_text(l[1]), Box::new(a))),
                }
            } else if l.len() == 4 && op == "settuple!"@ {
                match parse_spec(l[2]) {
                    Err(e) => Err(e),
                    Ok(a) => match parse_spec(l[3]) {
                        Err(e) => Err(e),
                        Ok(b) => Ok(SpecExpr::SetTuple(sexp_text(l[1]), Box::new(a), Box::new(b))),
                    },
                }
            } else if l.len() == 4 && op == "if"@ {
                match parse_spec(l[1]) {
                    Err(e) => Err(e),
                    Ok(c) => match parse_spec(l[2]) {
                        Err(e) => Err(e),
                        Ok(t) => match parse_spec(l[3]) {
                            Err(e) => Err(e),
                            Ok(f) => Ok(SpecExpr::If(Box::new(c), Box::new(t), Box::new(f))),
                        },
                    },
                }
            } else if op == "block"@ {
                match parse_all_spec(rest) {
                    Err(e) => Err(e),
                    Ok(v) => if v.len() == 0 {
                        Err(ParseError::EmptyBlock)
                    } else {
                        Ok(SpecExpr::Block(v))
                    },
                }
            } else if op == "tuple"@ {
                match parse_all_spec(rest) {
                    Err(e) => Err(e),
                    Ok(v) => if v.len() == 0 {
                        Err(ParseError::EmptyTuple)
                    } else {
                        Ok(SpecExpr::Tuple(v))
                    },
                }
            } else if l.len() == 2 && op == "loop"@ {
                match parse_spec(l[1]) {
                    Err(e) => Err(e),
                    Ok(a) => Ok(SpecExpr::Loop(Box::new(a))),
                }
            } else if l.len() == 2 && op == "break"@ {
                match parse_spec(l[1]) {
                    Err(e) => Err(e),
                    Ok(a) => Ok(SpecExpr::Break(Box::new(a))),
                }
            } else if !is_keyword(op) {
                match parse_all_spec(rest) {
                    Err(e) => Err(e),
                    Ok(v) => Ok(SpecExpr::Call(op, v)),
                }
            } else {
                Err(ParseError::InvalidList)
            }
        },
    }
}

/// The parameters of a definition, each a name that is no keyword and
/// occurs once; the first that is not stops it.
pub open spec fn parse_params_spec(s: Seq<SpecSExpr>) -> Result<Seq<Seq<char>>, ParseError>
    decreases s.len(),
{
    if s.len() == 0 {
        Ok(Seq::empty())
    } else {
        match parse_params_spec(s.drop_last()) {
            Err(e) => Err(e),
            Ok(v) => match atom_word(s.last()) {
                Some(t) => if v.contains(t) {
                    Err(ParseError::DuplicateParameter)
                } else if is_keyword(t) {
                    Err(ParseError::ParameterIsKeyword)
                } else {
                    Ok(v.push(t))
                },
                None => Err(ParseError::InvalidParameter),
            },
        }
    }
}

/// What an s-expression parses to as a definition:
/// `(fun (name params...) body)`.
pub open spec fn parse_defn_spec(s: SpecSExpr) -> Result<SpecDefn, ParseError> {
    match s {
        SpecSExpr::List(v) => if v.len() == 3 && atom_word(v[0]) == Some("fun"@) && v[1] is List {
            let sig = v[1]->List_0;
            if sig.len() == 0 {
                Err(ParseError::FunctionWithoutName)
            } else {
                match atom_word(sig[0]) {
                    None => Err(ParseError::InvalidFunctionName),
                    Some(f) => match parse_params_spec(sig.subrange(1, sig.len() as int)) {
                        Err(e) => Err(e),
                        Ok(ps) => match parse_spec(v[2]) {
                            Err(e) => Err(e),
                            Ok(body) => Ok(SpecDefn { fun: f, funargs: ps, body }),
                        },
                    },
                }
            }
        } else {
            Err(ParseError::InvalidDefinition)
        },
        _ => Err(ParseError::DefinitionNotList),
    }
}

pub open spec fn view_parse(r: Result<Expr, ParseError>) -> Result<SpecExpr, ParseError> {
    match r {
        Ok(e) => Ok(e@),
        Err(e) => Err(e),
    }
}

pub open spec fn view_parse_all(r: Result<Vec<Expr>, ParseError>) -> Result<Seq<SpecExpr>, ParseError> {
    match r {
        Ok(v) => Ok(view_exprs(v@)),
        Err(e) => Err(e),
    }
}

pub open spec fn view_parse_bind(r: Result<(String, Expr), ParseError>) -> Result<(Seq<char>, SpecExpr), ParseError> {
    match r {
        Ok(b) => Ok((b.0@, b.1@)),
        Err(e) => Err(e),
    }
}

pub open spec fn view_parse_binds(r: Result<Vec<(String, Expr)>, ParseError>) -> Result<Seq<(Seq<char>, SpecExpr)>, ParseError> {
    match r {
        Ok(v) => Ok(view_binds(v@)),
        Err(e) => Err(e),
    }
}

pub open spec fn view_parse_defn(r: Result<Defn, ParseError>) -> Result<SpecDefn, ParseError> {
    match r {
        Ok(d) => Ok(d@),
        Err(e) => Err(e),
    }
}

proof fn lemma_parse_all_prefix_err(s: Seq<SpecSExpr>, k: int)
    requires
        0 <= k <= s.len(),
        parse_all_spec(s.take(k)) is Err,
    ensures
        parse_all_spec(s) == parse_all_spec(s.take(k)),
    decreases s.len(),
{
    if k == s.len() {
        assert(s.take(k) =~= s);
    } else {
        assert(s.drop_last().take(k) =~= s.take(k));
        lemma_parse_all_prefix_err(s.drop_last(), k);
    }
}

proof fn lemma_parse_binds_prefix_err(s: Seq<SpecSExpr>, k: int)
    requires
        0 <= k <= s.len(),
        parse_binds_spec(s.take(k)) is Err,
    ensures
        parse_binds_spec(s) == parse_binds_spec(s.take(k)),
    decreases s.len(),
{
    if k == s.len() {
        assert(s.take(k) =~= s);
    } else {
        assert(s.drop_last().take(k) =~= s.take(k));
        lemma_parse_binds_prefix_err(s.drop_last(), k);
    }
}

proof fn lemma_parse_params_prefix_err(s: Seq<SpecSExpr>, k: int)
    requires
        0 <= k <= s.len(),
        parse_params_spec(s.take(k)) is Err,
    ensures
        parse_params_spec(s) == parse_params_spec(s.take(k)),
    decreases s.len(),
{
    if k == s.len() {
        assert(s.take(k) =~= s);
    } else {
        assert(s.drop_last().take(k) =~= s.take(k));
        lemma_parse_params_prefix_err(s.drop_last(), k);
    }
}

fn unop_word(op: &str) -> (r: Option<Op1>)
    ensures
        r == unop_of(op@),
{
    if str_eq(op, "add1") {
        Some(Op1::Add1)
    } else if str_eq(op, "sub1") {
        Some(Op1::Sub1)
    } else if str_eq(op, "isnum") {
        Some(Op1::IsNum)
    } else if str_eq(op, "isbool") {
        Some(Op1::IsBool)
    } else if str_eq(op, "print") {
        Some(Op1::Print)
    } else {
        None
    }
}

fn binop_word(op: &str) -> (r: Option<Op2>)
    ensures
        r == binop_of(op@),
{
    if str_eq(op, "+") {
        Some(Op2::Plus)
    } else if str_eq(op, "-") {
        Some(Op2::Minus)
    } else if str_eq(op, "*") {
        Some(Op2::Times)
    } else if str_eq(op, "=") {
        Some(Op2::Equal)
    } else if str_eq(op, "==") {
        Some(Op2::StructuralEqual)
    } else if str_eq(op, ">=") {
        Some(Op2::GreaterEqual)
    } else if str_eq(op, ">") {
        Some(Op2::Greater)
    } else if str_eq(op, "<=") {
        Some(Op2::LessEqual)
    } else if str_eq(op, "<") {
        Some(Op2::Less)
    } else {
        None
    }
}

/// Whether `x` is one of the keywords.
pub fn is_keyword_word(x: &str) -> (r: bool)
    ensures
        r == is_keyword(x@),
{
    let ghost ks = keywords();
    let r = str_eq(x, "add1") || str_eq(x, "sub1") || str_eq(x, "isnum") || str_eq(x, "isbool")
        || str_eq(x, "+") || str_eq(x, "-") || str_eq(x, "*") || str_eq(x, "=") || str_eq(x, ">=")
        || str_eq(x, ">") || str_eq(x, "<=") || str_eq(x, "<") || str_eq(x, "let") || str_eq(x, "set!")
        || str_eq(x, "if") || str_eq(x, "block") || str_eq(x, "loop") || str_eq(x, "break")
        || str_eq(x, "print");
    proof {
        if r {
            assert(exists|k: int| 0 <= k < ks.len() && ks[k] == x@) by {
                if x@ == "add1"@ { assert(ks[0] == x@); }
                else if x@ == "sub1"@ { assert(ks[1] == x@); }
                else if x@ == "isnum"@ { assert(ks[2] == x@); }
                else if x@ == "isbool"@ { assert(ks[3] == x@); }
                else if x@ == "+"@ { assert(ks[4] == x@); }
                else if x@ == "-"@ { assert(ks[5] == x@); }
                else if x@ == "*"@ { assert(ks[6] == x@); }
                else if x@ == "="@ { assert(ks[7] == x@); }
                else if x@ == ">="@ { assert(ks[8] == x@); }
                else if x@ == ">"@ { assert(ks[9] == x@); }
                else if x@ == "<="@ { assert(ks[10] == x@); }
                else if x@ == "<"@ { assert(ks[11] == x@); }
                else if x@ == "let"@ { assert(ks[12] == x@); }
                else if x@ == "set!"@ { assert(ks[13] == x@); }
                else if x@ == "if"@ { assert(ks[14] == x@); }
                else if x@ == "block"@ { assert(ks[15] == x@); }
                else if x@ == "loop"@ { assert(ks[16] == x@); }
                else if x@ == "break"@ { assert(ks[17] == x@); }
                else { assert(ks[18] == x@); }
            }
        } else {
            assert forall|k: int| 0 <= k < ks.len() implies ks[k] != x@ by {}
        }
    }
    r
}

/// Parses the elements of `l` from the second on.
fn parse_items(s: &SExpr, l: &Vec<SExpr>) -> (r: Result<Vec<Expr>, ParseError>)
    requires
        s matches SExpr::List(v) && v == l,
        l@.len() >= 1,
    ensures
        view_parse_all(r) == parse_all_spec(view_sexps(l@).subrange(1, l@.len() as int)),
    decreases s, 0int,
{
    let n = l.len();
    let ghost v = view_sexps(l@);
    let mut out: Vec<Expr> = Vec::new();
    let mut i: usize = 1;
    assert(v.subrange(1, 1) =~= Seq::<SpecSExpr>::empty());
    while i < n
        invariant
            s matches SExpr::List(w) && w == l,
            n == l@.len(),
            v == view_sexps(l@),
            1 <= i <= n,
            parse_all_spec(v.subrange(1, i as int)) == Ok::<Seq<SpecExpr>, ParseError>(view_exprs(out@)),
        decreases n - i,
    {
        let ghost before = out@;
        let r = read_expr(&l[i]);
        assert(v.subrange(1, i + 1).drop_last() =~= v.subrange(1, i as int));
        assert(v.subrange(1, i + 1).last() == v[i as int]);
        match r {
            Err(e) => {
                proof {
                    assert(v.subrange(1, n as int).take(i - 1 + 1) =~= v.subrange(1, i + 1));
                    lemma_parse_all_prefix_err(v.subrange(1, n as int), i - 1 + 1);
                }
                return Err(e);
            },
            Ok(e) => {
                out.push(e);
                assert(out@.drop_last() =~= before);
            },
        }
        i = i + 1;
    }
    Ok(out)
}

/// Parses the bindings of a `let`, the elements of the list `b`.
fn parse_binds(b: &SExpr, bindings: &Vec<SExpr>) -> (r: Result<Vec<(String, Expr)>, ParseError>)
    requires
        b matches SExpr::List(v) && v == bindings,
    ensures
        view_parse_binds(r) == parse_binds_spec(view_sexps(bindings@)),
    decreases b, 0int,
{
    let ghost bv = view_sexps(bindings@);
    let mut pairs: Vec<(String, Expr)> = Vec::new();
    let mut j: usize = 0;
    assert(bv.take(0) =~= Seq::<SpecSExpr>::empty());
    while j < bindings.len()
        invariant
            b matches SExpr::List(v) && v == bindings,
            bv == view_sexps(bindings@),
            j <= bindings@.len(),
            parse_binds_spec(bv.take(j as int)) == Ok::<Seq<(Seq<char>, SpecExpr)>, ParseError>(view_binds(pairs@)),
        decreases bindings.len() - j,
    {
        let ghost before = pairs@;
        let r = read_bind(&bindings[j]);
        assert(bv.take(j + 1).drop_last() =~= bv.take(j as int));
        assert(bv.take(j + 1).last() == bv[j as int]);
        match r {
            Err(e) => {
                proof { lemma_parse_binds_prefix_err(bv, j + 1); }
                return Err(e);
            },
            Ok(p) => {
                pairs.push(p);
                assert(pairs@.drop_last() =~= before);
            },
        }
        j = j + 1;
    }
    assert(bv.take(bindings@.len() as int) =~= bv);
    Ok(pairs)
}

/// Parses a binding: a list of a name and an expression.
fn read_bind(s: &SExpr) -> (r: Result<(String, Expr), ParseError>)
    ensures
        view_parse_bind(r) == parse_bind_spec(s@),
    decreases s, 1int,
{
    match s {
        SExpr::List(v) => {
            let ghost dv = view_sexps(v@);
            assert(s@ == SpecSExpr::List(dv));
            if v.len() == 2 {
                if let Some(var) = word_of(&v[0]) {
                    let e = read_expr(&v[1])?;
                    let mut name = String::new();
                    name.append(var);
                    assert(name@ =~= var@);
                    return Ok((name, e));
                }
            }
            Err(ParseError::InvalidBind)
        },
        _ => Err(ParseError::InvalidBind),
    }
}

/// Parses an s-expression into an expression.
fn read_expr(s: &SExpr) -> (r: Result<Expr, ParseError>)
    ensures
        view_parse(r) == parse_spec(s@),
    decreases s, 1int,
{
    match s {
        SExpr::Atom(SAtom::I(n)) => {
            if *n > 4611686018427387903 || *n < -4611686018427387904 {
                Err(ParseError::InvalidOverflow)
            } else {
                Ok(Expr::Number(*n))
            }
        },
        SExpr::Atom(SAtom::S(x)) => {
            if str_eq(x.as_str(), "true") {
                Ok(Expr::Boolean(true))
            } else if str_eq(x.as_str(), "false") {
                Ok(Expr::Boolean(false))
            } else {
                Ok(Expr::Id(x.clone()))
            }
        },
        SExpr::Atom(SAtom::F(_)) => Err(ParseError::InvalidAtom),
        SExpr::List(l) => {
            let ghost v = view_sexps(l@);
            assert(s@ == SpecSExpr::List(v));
            let n = l.len();
            if n == 0 {
                return Err(ParseError::InvalidList);
            }
            let op = match word_of(&l[0]) {
                Some(op) => op,
                None => return Err(ParseError::InvalidList),
            };
            if n == 2 {
                if let Some(o) = unop_word(op) {
                    let a = read_expr(&l[1])?;
                    return Ok(Expr::UnOp(o, Box::new(a)));
                }
            }
            if n == 3 {
                if let Some(o) = binop_word(op) {
                    let a = read_expr(&l[1])?;
                    let b = read_expr(&l[2])?;
                    return Ok(Expr::BinOp(o, Box::new(a), Box::new(b)));
                }
                if str_eq(op, "index") {
                    let a = read_expr(&l[1])?;
                    let b = read_expr(&l[2])?;
                    return Ok(Expr::Index(Box::new(a), Box::new(b)));
                }
                if str_eq(op, "let") {
                    if let SExpr::List(bs) = &l[1] {
                        if bs.len() == 0 {
                            return Err(ParseError::NoBindingLet);
                        }
                        let pairs = parse_binds(&l[1], bs)?;
                        let body = read_expr(&l[2])?;
                        return Ok(Expr::Let(pairs, Box::new(body)));
                    }
                }
                if str_eq(op, "set!") {
                    let a = read_expr(&l[2])?;
                    return Ok(Expr::Assign(display_sexp(&l[1]), Box::new(a)));
                }
            }
            if n == 4 {
                if str_eq(op, "settuple!") {
                    let a = read_expr(&l[2])?;
                    let b = read_expr(&l[3])?;
                    return Ok(Expr::SetTuple(display_sexp(&l[1]), Box::new(a), Box::new(b)));
                }
                if str_eq(op, "if") {
                    let c = read_expr(&l[1])?;
                    let t = read_expr(&l[2])?;
                    let f = read_expr(&l[3])?;
                    return Ok(Expr::If(Box::new(c), Box::new(t), Box::new(f)));
                }
            }
            if str_eq(op, "block") {
                let es = parse_items(s, l)?;
                if es.len() == 0 {
                    return Err(ParseError::EmptyBlock);
                }
                return Ok(Expr::Block(es));
            }
            if str_eq(op, "tuple") {
                let es = parse_items(s, l)?;
                if es.len() == 0 {
                    return Err(ParseError::EmptyTuple);
                }
                return Ok(Expr::Tuple(es));
            }
            if n == 2 {
                if str_eq(op, "loop") {
                    let a = read_expr(&l[1])?;
                    return Ok(Expr::Loop(Box::new(a)));
                }
                if str_eq(op, "break") {
                    let a = read_expr(&l[1])?;
                    return Ok(Expr::Break(Box::new(a)));
                }
            }
            if !is_keyword_word(op) {
                let es = parse_items(s, l)?;
                let mut f = String::new();
                f.append(op);
                assert(f@ =~= op@);
                return Ok(Expr::Call(f, es));
            }
            Err(ParseError::InvalidList)
        },
    }
}

/// Whether `s` is an expression: `Ok` exactly where [`parse_spec`] parses
/// it, else the [`ParseError`] for its first fault, which the compiler
/// stops with.
pub fn check_expr(s: &SExpr) -> (r: Result<(), ParseError>)
    ensures
        r == (match parse_spec(s@) {
            Ok(_) => Ok::<(), ParseError>(()),
            Err(e) => Err(e),
        }),
{
    match read_expr(s) {
        Ok(_) => Ok(()),
        Err(e) => Err(e),
    }
}

/// Parses an s-expression into an expression: what [`parse_spec`] gives.
/// It takes only what [`check_expr`] passes.
pub fn parse_expr(s: &SExpr) -> (r: Expr)
    requires
        parse_spec(s@) is Ok,
    ensures
        r@ == parse_spec(s@)->Ok_0,
{
    match read_expr(s) {
        Ok(e) => e,
        Err(_) => {
            proof {
                assert(false);
            }
            Expr::Number(0)
        },
    }
}

/// Whether `s` is a binding of a `let`: `Ok` exactly where
/// [`parse_bind_spec`] parses it, else the [`ParseError`] for its first
/// fault.
pub fn check_bind(s: &SExpr) -> (r: Result<(), ParseError>)
    ensures
        r == (match parse_bind_spec(s@) {
            Ok(_) => Ok::<(), ParseError>(()),
            Err(e) => Err(e),
        }),
{
    match read_bind(s) {
        Ok(_) => Ok(()),
        Err(e) => Err(e),
    }
}

/// Parses a binding of a `let`: a list of a name and an expression, as
/// [`parse_bind_spec`] gives it. It takes only what [`check_bind`] passes.
pub fn parse_bind(s: &SExpr) -> (r: (String, Expr))
    requires
        parse_bind_spec(s@) is Ok,
    ensures
        (r.0@, r.1@) == parse_bind_spec(s@)->Ok_0,
{
    match read_bind(s) {
        Ok(b) => b,
        Err(_) => {
            proof {
                assert(false);
            }
            (String::new(), Expr::Number(0))
        },
    }
}

pub open spec fn view_parse_params(r: Result<Vec<String>, ParseError>) -> Result<Seq<Seq<char>>, ParseError> {
    match r {
        Ok(v) => Ok(view_names(v@)),
        Err(e) => Err(e),
    }
}

/// Whether `v` holds a name with the characters of `t`.
fn holds_name(v: &Vec<String>, t: &str) -> (r: bool)
    ensures
        r == view_names(v@).contains(t@),
{
    let mut k: usize = 0;
    while k < v.len()
        invariant
            k <= v@.len(),
            forall|j: int| 0 <= j < k ==> v@[j]@ != t@,
        decreases v.len() - k,
    {
        if str_eq(v[k].as_str(), t) {
            assert(view_names(v@)[k as int] == t@);
            return true;
        }
        k = k + 1;
    }
    assert forall|j: int| 0 <= j < view_names(v@).len() implies view_names(v@)[j] != t@ by {
        assert(v@[j]@ != t@);
    }
    false
}

/// Parses the parameters of a definition: the elements of `sig` from the
/// second on.
fn parse_params(sig: &Vec<SExpr>) -> (r: Result<Vec<String>, ParseError>)
    requires
        sig@.len() >= 1,
    ensures
        view_parse_params(r) == parse_params_spec(view_sexps(sig@).subrange(1, sig@.len() as int)),
{
    let n = sig.len();
    let ghost all = view_sexps(sig@).subrange(1, n as int);
    let mut argvec: Vec<String> = Vec::new();
    let mut i: usize = 1;
    assert(all.take(0) =~= Seq::<SpecSExpr>::empty());
    assert(view_names(argvec@) =~= Seq::<Seq<char>>::empty());
    while i < n
        invariant
            n == sig@.len(),
            1 <= i <= n,
            all == view_sexps(sig@).subrange(1, n as int),
            parse_params_spec(all.take(i - 1)) == Ok::<Seq<Seq<char>>, ParseError>(view_names(argvec@)),
        decreases n - i,
    {
        let ghost before = argvec@;
        assert(all.take(i as int).drop_last() =~= all.take(i - 1));
        assert(all.take(i as int).last() == view_sexps(sig@)[i as int]);
        match word_of(&sig[i]) {
            Some(t) => {
                if holds_name(&argvec, t) {
                    proof { lemma_parse_params_prefix_err(all, i as int); }
                    return Err(ParseError::DuplicateParameter);
                }
                if is_keyword_word(t) {
                    proof { lemma_parse_params_prefix_err(all, i as int); }
                    return Err(ParseError::ParameterIsKeyword);
                }
                let mut name = String::new();
                name.append(t);
                argvec.push(name);
                assert(view_names(argvec@) =~= view_names(before).push(t@));
            },
            None => {
                proof { lemma_parse_params_prefix_err(all, i as int); }
                return Err(ParseError::InvalidParameter);
            },
        }
        i = i + 1;
    }
    assert(all.take(n - 1) =~= all);
    Ok(argvec)
}

/// Reads a function definition, or gives the [`ParseError`] for its first
/// fault.
fn read_defn(s: &SExpr) -> (r: Result<Defn, ParseError>)
    ensures
        view_parse_defn(r) == parse_defn_spec(s@),
{
    match s {
        SExpr::List(v) => {
            let ghost vv = view_sexps(v@);
            assert(s@ == SpecSExpr::List(vv));
            if v.len() == 3 {
                if let Some(w) = word_of(&v[0]) {
                    if str_eq(w, "fun") {
                        if let SExpr::List(sig) = &v[1] {
                            let ghost sv = view_sexps(sig@);
                            assert(vv[1] == SpecSExpr::List(sv));
                            if sig.len() == 0 {
                                return Err(ParseError::FunctionWithoutName);
                            }
                            let fun = match word_of(&sig[0]) {
                                Some(t) => {
                                    let mut name = String::new();
                                    name.append(t);
                                    assert(name@ =~= t@);
                                    name
                                },
                                None => return Err(ParseError::InvalidFunctionName),
                            };
                            let funargs = parse_params(sig)?;
                            let body = read_expr(&v[2])?;
                            return Ok(Defn { fun, funargs, body });
                        }
                    }
                }
            }
            Err(ParseError::InvalidDefinition)
        },
        _ => Err(ParseError::DefinitionNotList),
    }
}

/// Whether `s` is a function definition that [`parse_defn`] takes, and
/// where it is not, the [`ParseError`] for its first fault: a definition
/// without a name, with a name or parameter that is not a word, with a
/// parameter twice or a keyword as a parameter, of another shape, or with a
/// body that is no expression. The compiler stops with that error's
/// [`ParseError::message`].
pub fn check_defn(s: &SExpr) -> (r: Result<(), ParseError>)
    ensures
        r == (match parse_defn_spec(s@) {
            Ok(_) => Ok::<(), ParseError>(()),
            Err(e) => Err(e),
        }),
{
    match read_defn(s) {
        Ok(_) => Ok(()),
        Err(e) => Err(e),
    }
}

/// Parses a function definition: `(fun (name params...) body)`. It takes
/// only what [`check_defn`] passes.
pub fn parse_defn(s: &SExpr) -> (r: Defn)
    requires
        parse_defn_spec(s@) is Ok,
    ensures
        r@ == parse_defn_spec(s@)->Ok_0,
{
    match read_defn(s) {
        Ok(d) => d,
        Err(_) => {
            proof {
                assert(false);
            }
            Defn { fun: String::new(), funargs: Vec::new(), body: Expr::Boolean(false) }
        },
    }
}

} // verus!
