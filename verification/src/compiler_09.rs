//! A second Caduceus compiler: booleans, conditionals, loops and mutation,
//! with labels made from one counter and errors reported through two fixed
//! labels.
use vstd::prelude::*;

pub mod runtime;
pub mod semantics;

use crate::decimal::{int_decimal, push_i64_decimal};
use crate::env::{Env, env_clone, env_contents, env_get, env_insert, env_new};
use crate::sexpr::{SAtom, SExpr, SpecAtom, SpecSExpr, atom_word, read_sexp, sexp_parse, view_sexps, word_of};
use crate::text::str_eq;

verus! {

broadcast use
    vstd::std_specs::vec::axiom_vec_decreases_to_view,
    vstd::std_specs::vec::axiom_vec_index_decreases,
    crate::sexpr::lemma_view_sexps,
    crate::sexpr::lemma_view_sexps_index,
;

/// A register.
#[derive(Debug, Clone, Copy, PartialEq, Eq)]
pub enum Reg {
    RAX,
    RBX,
    RSP,
    RDI,
}

/// An operand: a register, an immediate, or a memory slot below a register
/// (at a byte offset).
#[derive(Debug, Clone, Copy, PartialEq, Eq)]
pub enum Val {
    Reg(Reg),
    Imm(i64),
    RegOffset(Reg, i32),
}

/// An instruction. `IJo` jumps to the overflow handler.
#[derive(Debug)]
pub enum Instr {
    IMov(Val, Val),
    IAdd(Val, Val),
    ISub(Val, Val),
    IMul(Val, Val),
    ICmp(Val, Val),
    ICMov(Val, Val),
    ICMovg(Val, Val),
    ICMovge(Val, Val),
    ICmovl(Val, Val),
    ICmovle(Val, Val),
    IXor(Val, Val),
    IAnd(Val, Val),
    ISar(Val, Val),
    ITest(Val, Val),
    IJe(String),
    IJo(),
    IJne(String),
    IJmp(String),
    ILabel(String),
}

/// The mathematical model of an [`Instr`].
pub enum SpecInstr {
    IMov(Val, Val),
    IAdd(Val, Val),
    ISub(Val, Val),
    IMul(Val, Val),
    ICmp(Val, Val),
    ICMov(Val, Val),
    ICMovg(Val, Val),
    ICMovge(Val, Val),
    ICmovl(Val, Val),
    ICmovle(Val, Val),
    IXor(Val, Val),
    IAnd(Val, Val),
    ISar(Val, Val),
    ITest(Val, Val),
    IJe(Seq<char>),
    IJo(),
    IJne(Seq<char>),
    IJmp(Seq<char>),
    ILabel(Seq<char>),
}

impl View for Instr {
    type V = SpecInstr;

    open spec fn view(&self) -> SpecInstr {
        match self {
            Instr::IMov(a, b) => SpecInstr::IMov(*a, *b),
            Instr::IAdd(a, b) => SpecInstr::IAdd(*a, *b),
            Instr::ISub(a, b) => SpecInstr::ISub(*a, *b),
            Instr::IMul(a, b) => SpecInstr::IMul(*a, *b),
            Instr::ICmp(a, b) => SpecInstr::ICmp(*a, *b),
            Instr::ICMov(a, b) => SpecInstr::ICMov(*a, *b),
            Instr::ICMovg(a, b) => SpecInstr::ICMovg(*a, *b),
            Instr::ICMovge(a, b) => SpecInstr::ICMovge(*a, *b),
            Instr::ICmovl(a, b) => SpecInstr::ICmovl(*a, *b),
            Instr::ICmovle(a, b) => SpecInstr::ICmovle(*a, *b),
            Instr::IXor(a, b) => SpecInstr::IXor(*a, *b),
            Instr::IAnd(a, b) => SpecInstr::IAnd(*a, *b),
            Instr::ISar(a, b) => SpecInstr::ISar(*a, *b),
            Instr::ITest(a, b) => SpecInstr::ITest(*a, *b),
            Instr::IJe(l) => SpecInstr::IJe(l@),
            Instr::IJo() => SpecInstr::IJo(),
            Instr::IJne(l) => SpecInstr::IJne(l@),
            Instr::IJmp(l) => SpecInstr::IJmp(l@),
            Instr::ILabel(l) => SpecInstr::ILabel(l@),
        }
    }
}

pub open spec fn view_instrs(s: Seq<Instr>) -> Seq<SpecInstr> {
    s.map_values(|i: Instr| i@)
}

/// A unary operator.
#[derive(Debug, Clone, Copy, PartialEq, Eq)]
pub enum Op1 {
    Add1,
    Sub1,
    IsNum,
    IsBool,
}

/// A binary operator.
#[derive(Debug, Clone, Copy, PartialEq, Eq)]
pub enum Op2 {
    Plus,
    Minus,
    Times,
    Equal,
    Greater,
    GreaterEqual,
    Less,
    LessEqual,
}

/// An expression. `Assign` is `set!` on a variable.
#[derive(Debug)]
pub enum Expr {
    Number(i64),
    Boolean(bool),
    Id(String),
    Let(Vec<(String, Expr)>, Box<Expr>),
    UnOp(Op1, Box<Expr>),
    BinOp(Op2, Box<Expr>, Box<Expr>),
    If(Box<Expr>, Box<Expr>, Box<Expr>),
    Loop(Box<Expr>),
    Break(Box<Expr>),
    Assign(String, Box<Expr>),
    Block(Vec<Expr>),
}

/// The mathematical model of an [`Expr`].
pub enum SpecExpr {
    Number(i64),
    Boolean(bool),
    Id(Seq<char>),
    Let(Seq<(Seq<char>, SpecExpr)>, Box<SpecExpr>),
    UnOp(Op1, Box<SpecExpr>),
    BinOp(Op2, Box<SpecExpr>, Box<SpecExpr>),
    If(Box<SpecExpr>, Box<SpecExpr>, Box<SpecExpr>),
    Loop(Box<SpecExpr>),
    Break(Box<SpecExpr>),
    Assign(Seq<char>, Box<SpecExpr>),
    Block(Seq<SpecExpr>),
}

pub open spec fn view_exprs(s: Seq<Expr>) -> Seq<SpecExpr>
    decreases s, 0int,
{
    if s.len() == 0 {
        Seq::empty()
    } else {
        view_exprs(s.drop_last()).push(view_expr(s.last()))
    }
}

pub open spec fn view_binds(s: Seq<(String, Expr)>) -> Seq<(Seq<char>, SpecExpr)>
    decreases s, 0int,
{
    if s.len() == 0 {
        Seq::empty()
    } else {
        view_binds(s.drop_last()).push((s.last().0@, view_expr(s.last().1)))
    }
}

pub open spec fn view_expr(e: Expr) -> SpecExpr
    decreases e, 1int,
{
    match e {
        Expr::Number(n) => SpecExpr::Number(n),
        Expr::Boolean(b) => SpecExpr::Boolean(b),
        Expr::Id(x) => SpecExpr::Id(x@),
        Expr::Let(bs, body) => SpecExpr::Let(view_binds(bs@), Box::new(view_expr(*body))),
        Expr::UnOp(op, a) => SpecExpr::UnOp(op, Box::new(view_expr(*a))),
        Expr::BinOp(op, a, b) => SpecExpr::BinOp(op, Box::new(view_expr(*a)), Box::new(view_expr(*b))),
        Expr::If(c, t, f) => SpecExpr::If(
            Box::new(view_expr(*c)),
            Box::new(view_expr(*t)),
            Box::new(view_expr(*f)),
        ),
        Expr::Loop(a) => SpecExpr::Loop(Box::new(view_expr(*a))),
        Expr::Break(a) => SpecExpr::Break(Box::new(view_expr(*a))),
        Expr::Assign(x, a) => SpecExpr::Assign(x@, Box::new(view_expr(*a))),
        Expr::Block(es) => SpecExpr::Block(view_exprs(es@)),
    }
}

impl View for Expr {
    type V = SpecExpr;

    open spec fn view(&self) -> SpecExpr {
        view_expr(*self)
    }
}

/// The model of a list has one element per element.
pub proof fn lemma_view_exprs(s: Seq<Expr>)
    ensures
        view_exprs(s).len() == s.len(),
    decreases s.len(),
{
    if s.len() > 0 {
        lemma_view_exprs(s.drop_last());
    }
}

/// Each element of the model of a list is the model of the element.
pub proof fn lemma_view_exprs_index(s: Seq<Expr>, i: int)
    requires
        0 <= i < s.len(),
    ensures
        view_exprs(s)[i] == view_expr(s[i]),
    decreases s.len(),
{
    lemma_view_exprs(s);
    if i < s.len() - 1 {
        lemma_view_exprs_index(s.drop_last(), i);
        assert(s.drop_last()[i] == s[i]);
    }
}

/// The model of a list has one element per element.
pub proof fn lemma_view_binds(s: Seq<(String, Expr)>)
    ensures
        view_binds(s).len() == s.len(),
    decreases s.len(),
{
    if s.len() > 0 {
        lemma_view_binds(s.drop_last());
    }
}

/// Each element of the model of a list is the model of the element.
pub proof fn lemma_view_binds_index(s: Seq<(String, Expr)>, i: int)
    requires
        0 <= i < s.len(),
    ensures
        view_binds(s)[i] == (s[i].0@, view_expr(s[i].1)),
    decreases s.len(),
{
    lemma_view_binds(s);
    if i < s.len() - 1 {
        lemma_view_binds_index(s.drop_last(), i);
        assert(s.drop_last()[i] == s[i]);
    }
}

/// Why a text is not a program.
#[derive(Debug, Clone, Copy, PartialEq, Eq)]
pub enum ParseError {
    /// A number outside the 63-bit range.
    Overflow,
    /// A keyword where a name or a value should be.
    Keyword,
    /// A `block` without expressions.
    EmptyBlock,
    /// A `let` without bindings.
    EmptyBindings,
    /// An s-expression that is no form of the language.
    Invalid,
    /// Text that is not an s-expression.
    InvalidSexp,
}

/// The words that are no variable.
pub open spec fn keyword(n: Seq<char>) -> bool {
    n == "let"@ || n == "add1"@ || n == "sub1"@ || n == "block"@ || n == "break"@ || n == "set!"@ || n == "loop"@
        || n == "isnum"@ || n == "isbool"@ || n == "if"@
}

/// The words that a `let` may not bind.
pub open spec fn binding_keyword(n: Seq<char>) -> bool {
    keyword(n) || n == "true"@ || n == "false"@ || n == "input"@
}

/// The unary operator, or the loop form, that a word names.
pub open spec fn unary_form(op: Seq<char>, e: SpecExpr) -> Option<SpecExpr> {
    if op == "add1"@ {
        Some(SpecExpr::UnOp(Op1::Add1, Box::new(e)))
    } else if op == "sub1"@ {
        Some(SpecExpr::UnOp(Op1::Sub1, Box::new(e)))
    } else if op == "isnum"@ {
        Some(SpecExpr::UnOp(Op1::IsNum, Box::new(e)))
    } else if op == "isbool"@ {
        Some(SpecExpr::UnOp(Op1::IsBool, Box::new(e)))
    } else if op == "loop"@ {
        Some(SpecExpr::Loop(Box::new(e)))
    } else if op == "break"@ {
        Some(SpecExpr::Break(Box::new(e)))
    } else {
        None
    }
}

pub open spec fn unary_word(op: Seq<char>) -> bool {
    op == "add1"@ || op == "sub1"@ || op == "isnum"@ || op == "isbool"@ || op == "loop"@ || op == "break"@
}

/// The binary operator that a word names.
pub open spec fn binop_of(op: Seq<char>) -> Option<Op2> {
    if op == "+"@ {
        Some(Op2::Plus)
    } else if op == "-"@ {
        Some(Op2::Minus)
    } else if op == "*"@ {
        Some(Op2::Times)
    } else if op == "="@ {
        Some(Op2::Equal)
    } else if op == ">"@ {
        Some(Op2::Greater)
    } else if op == ">="@ {
        Some(Op2::GreaterEqual)
    } else if op == "<"@ {
        Some(Op2::Less)
    } else if op == "<="@ {
        Some(Op2::LessEqual)
    } else {
        None
    }
}

/// Parses each s-expression of `s` in order; the first error stops it.
pub open spec fn parse_all_spec(s: Seq<SpecSExpr>) -> Result<Seq<SpecExpr>, ParseError>
    decreases s, 0int,
{
    if s.len() == 0 {
        Ok(Seq::empty())
    } else {
        match parse_all_spec(s.drop_last()) {
            Err(e) => Err(e),
            Ok(v) => match parse_spec(s.last()) {
                Err(e) => Err(e),
                Ok(x) => Ok(v.push(x)),
            },
        }
    }
}

/// Parses each binding of `s` in order; the first error stops it.
pub open spec fn parse_binds_spec(s: Seq<SpecSExpr>) -> Result<Seq<(Seq<char>, SpecExpr)>, ParseError>
    decreases s, 0int,
{
    if s.len() == 0 {
        Ok(Seq::empty())
    } else {
        match parse_binds_spec(s.drop_last()) {
            Err(e) => Err(e),
            Ok(v) => match parse_bind_spec(s.last()) {
                Err(e) => Err(e),
                Ok(b) => Ok(v.push(b)),
            },
        }
    }
}

/// A binding is a list of a name that is no keyword and an expression.
pub open spec fn parse_bind_spec(s: SpecSExpr) -> Result<(Seq<char>, SpecExpr), ParseError>
    decreases s, 1int,
{
    match s {
        SpecSExpr::List(l) => if l.len() == 2 && atom_word(l[0]) is Some {
            let n = atom_word(l[0])->0;
            if binding_keyword(n) {
                Err(ParseError::Keyword)
            } else {
                match parse_spec(l[1]) {
                    Err(e) => Err(e),
                    Ok(e) => Ok((n, e)),
                }
            }
        } else {
            Err(ParseError::Invalid)
        },
        _ => Err(ParseError::Invalid),
    }
}

/// What an s-expression parses to: the grammar of the language.
pub open spec fn parse_spec(s: SpecSExpr) -> Result<SpecExpr, ParseError>
    decreases s, 2int,
{
    match s {
        SpecSExpr::Atom(SpecAtom::I(n)) => if n > 4611686018427387903 || n < -4611686018427387904 {
            Err(ParseError::Overflow)
        } else {
            Ok(SpecExpr::Number(n))
        },
        SpecSExpr::Atom(SpecAtom::S(n)) => if keyword(n) {
            Err(ParseError::Keyword)
        } else if n == "true"@ {
            Ok(SpecExpr::Boolean(true))
        } else if n == "false"@ {
            Ok(SpecExpr::Boolean(false))
        } else {
            Ok(SpecExpr::Id(n))
        },
        SpecSExpr::Atom(SpecAtom::F(_)) => Err(ParseError::Invalid),
        SpecSExpr::List(l) => if l.len() == 0 || atom_word(l[0]) is None {
            Err(ParseError::Invalid)
        } else {
            let op = atom_word(l[0])->0;
            if l.len() == 2 && unary_word(op) {
                match parse_spec(l[1]) {
                    Err(e) => Err(e),
                    Ok(a) => Ok(unary_form(op, a)->0),
                }
            } else if l.len() == 3 && op == "set!"@ && atom_word(l[1]) is Some {
                match parse_spec(l[2]) {
                    Err(e) => Err(e),
                    Ok(a) => Ok(SpecExpr::Assign(atom_word(l[1])->0, Box::new(a))),
                }
            } else if l.len() == 3 && binop_of(op) is Some {
                match parse_spec(l[1]) {
                    Err(e) => Err(e),
                    Ok(a) => match parse_spec(l[2]) {
                        Err(e) => Err(e),
                        Ok(b) => Ok(SpecExpr::BinOp(binop_of(op)->0, Box::new(a), Box::new(b))),
                    },
                }
            } else if l.len() == 4 && op == "if"@ {
                match parse_spec(l[1]) {
                    Err(e) => Err(e),
                    Ok(c) => match parse_spec(l[2]) {
                        Err(e) => Err(e),
                        Ok(t) => match parse_spec(l[3]) {
                            Err(e) => Err(e),
                            Ok(f) => Ok(SpecExpr::If(Box::new(c), Box::new(t), Box::new(f))),
                        },
                    },
                }
            } else if op == "block"@ {
                match parse_all_spec(l.subrange(1, l.len() as int)) {
                    Err(e) => Err(e),
                    Ok(v) => if v.len() == 0 {
                        Err(ParseError::EmptyBlock)
                    } else {
                        Ok(SpecExpr::Block(v))
                    },
                }
            } else if l.len() == 3 && op == "let"@ && l[1] is List {
                match parse_binds_spec(l[1]->List_0) {
                    Err(e) => Err(e),
                    Ok(v) => if v.len() == 0 {
                        Err(ParseError::EmptyBindings)
                    } else {
                        match parse_spec(l[2]) {
                            Err(e) => Err(e),
                            Ok(body) => Ok(SpecExpr::Let(v, Box::new(body))),
                        }
                    },
                }
            } else {
                Err(ParseError::Invalid)
            }
        },
    }
}

pub open spec fn view_parse(r: Result<Expr, ParseError>) -> Result<SpecExpr, ParseError> {
    match r {
        Ok(e) => Ok(e@),
        Err(e) => Err(e),
    }
}

pub open spec fn view_parse_bind(r: Result<(String, Expr), ParseError>) -> Result<(Seq<char>, SpecExpr), ParseError> {
    match r {
        Ok(b) => Ok((b.0@, b.1@)),
        Err(e) => Err(e),
    }
}

proof fn lemma_parse_all_prefix_err(s: Seq<SpecSExpr>, k: int)
    requires
        0 <= k <= s.len(),
        parse_all_spec(s.take(k)) is Err,
    ensures
        parse_all_spec(s) == parse_all_spec(s.take(k)),
    decreases s.len(),
{
    if k == s.len() {
        assert(s.take(k) =~= s);
    } else {
        assert(s.drop_last().take(k) =~= s.take(k));
        lemma_parse_all_prefix_err(s.drop_last(), k);
    }
}

proof fn lemma_parse_binds_prefix_err(s: Seq<SpecSExpr>, k: int)
    requires
        0 <= k <= s.len(),
        parse_binds_spec(s.take(k)) is Err,
    ensures
        parse_binds_spec(s) == parse_binds_spec(s.take(k)),
    decreases s.len(),
{
    if k == s.len() {
        assert(s.take(k) =~= s);
    } else {
        assert(s.drop_last().take(k) =~= s.take(k));
        lemma_parse_binds_prefix_err(s.drop_last(), k);
    }
}

fn is_keyword(n: &str) -> (r: bool)
    ensures
        r == keyword(n@),
{
    str_eq(n, "let") || str_eq(n, "add1") || str_eq(n, "sub1") || str_eq(n, "block") || str_eq(n, "break")
        || str_eq(n, "set!") || str_eq(n, "loop") || str_eq(n, "isnum") || str_eq(n, "isbool") || str_eq(n, "if")
}

fn binop_word(op: &str) -> (r: Option<Op2>)
    ensures
        r == binop_of(op@),
{
    if str_eq(op, "+") {
        Some(Op2::Plus)
    } else if str_eq(op, "-") {
        Some(Op2::Minus)
    } else if str_eq(op, "*") {
        Some(Op2::Times)
    } else if str_eq(op, "=") {
        Some(Op2::Equal)
    } else if str_eq(op, ">") {
        Some(Op2::Greater)
    } else if str_eq(op, ">=") {
        Some(Op2::GreaterEqual)
    } else if str_eq(op, "<") {
        Some(Op2::Less)
    } else if str_eq(op, "<=") {
        Some(Op2::LessEqual)
    } else {
        None
    }
}

fn owned(s: &str) -> (r: String)
    ensures
        r@ == s@,
{
    let mut r = String::new();
    r.append(s);
    assert(r@ =~= s@);
    r
}

pub open spec fn view_parse_all(r: Result<Vec<Expr>, ParseError>) -> Result<Seq<SpecExpr>, ParseError> {
    match r {
        Ok(v) => Ok(view_exprs(v@)),
        Err(e) => Err(e),
    }
}

pub open spec fn view_parse_binds(r: Result<Vec<(String, Expr)>, ParseError>) -> Result<Seq<(Seq<char>, SpecExpr)>, ParseError> {
    match r {
        Ok(v) => Ok(view_binds(v@)),
        Err(e) => Err(e),
    }
}

/// Parses the elements of `l` from the second on.
fn parse_items(s: &SExpr, l: &Vec<SExpr>) -> (r: Result<Vec<Expr>, ParseError>)
    requires
        s matches SExpr::List(v) && v == l,
        l@.len() >= 1,
    ensures
        view_parse_all(r) == parse_all_spec(view_sexps(l@).subrange(1, l@.len() as int)),
    decreases s, 0int,
{
    let n = l.len();
    let ghost v = view_sexps(l@);
    let mut es: Vec<Expr> = Vec::new();
    let mut i: usize = 1;
    assert(v.subrange(1, 1) =~= Seq::<SpecSExpr>::empty());
    while i < n
        invariant
            s matches SExpr::List(w) && w == l,
            n == l@.len(),
            v == view_sexps(l@),
            1 <= i <= n,
            parse_all_spec(v.subrange(1, i as int)) == Ok::<Seq<SpecExpr>, ParseError>(view_exprs(es@)),
        decreases n - i,
    {
        let ghost before = es@;
        let r = read_expr(&l[i]);
        assert(v.subrange(1, i + 1).drop_last() =~= v.subrange(1, i as int));
        assert(v.subrange(1, i + 1).last() == v[i as int]);
        match r {
            Err(e) => {
                proof {
                    assert(v.subrange(1, n as int).take(i - 1 + 1) =~= v.subrange(1, i + 1));
                    lemma_parse_all_prefix_err(v.subrange(1, n as int), i - 1 + 1);
                }
                return Err(e);
            },
            Ok(e) => {
                es.push(e);
                assert(es@.drop_last() =~= before);
            },
        }
        i = i + 1;
    }
    Ok(es)
}

/// Parses the bindings of a `let`, the elements of the list `b`.
fn parse_binds(b: &SExpr, bindings: &Vec<SExpr>) -> (r: Result<Vec<(String, Expr)>, ParseError>)
    requires
        b matches SExpr::List(v) && v == bindings,
    ensures
        view_parse_binds(r) == parse_binds_spec(view_sexps(bindings@)),
    decreases b, 0int,
{
    let ghost bv = view_sexps(bindings@);
    let mut pairs: Vec<(String, Expr)> = Vec::new();
    let mut j: usize = 0;
    assert(bv.take(0) =~= Seq::<SpecSExpr>::empty());
    while j < bindings.len()
        invariant
            b matches SExpr::List(v) && v == bindings,
            bv == view_sexps(bindings@),
            j <= bindings@.len(),
            parse_binds_spec(bv.take(j as int)) == Ok::<Seq<(Seq<char>, SpecExpr)>, ParseError>(view_binds(pairs@)),
        decreases bindings.len() - j,
    {
        let ghost before = pairs@;
        let r = read_bind(&bindings[j]);
        assert(bv.take(j + 1).drop_last() =~= bv.take(j as int));
        assert(bv.take(j + 1).last() == bv[j as int]);
        match r {
            Err(e) => {
                proof { lemma_parse_binds_prefix_err(bv, j + 1); }
                return Err(e);
            },
            Ok(p) => {
                pairs.push(p);
                assert(pairs@.drop_last() =~= before);
            },
        }
        j = j + 1;
    }
    assert(bv.take(bindings@.len() as int) =~= bv);
    Ok(pairs)
}

/// Parses a binding: a list of a name that is no keyword and an expression.
fn read_bind(s: &SExpr) -> (r: Result<(String, Expr), ParseError>)
    ensures
        view_parse_bind(r) == parse_bind_spec(s@),
    decreases s, 1int,
{
    match s {
        SExpr::List(v) => {
            let ghost dv = view_sexps(v@);
            assert(s@ == SpecSExpr::List(dv));
            if v.len() == 2 {
                if let Some(n) = word_of(&v[0]) {
                    if is_keyword(n) || str_eq(n, "true") || str_eq(n, "false") || str_eq(n, "input") {
                        return Err(ParseError::Keyword);
                    }
                    let e = read_expr(&v[1])?;
                    return Ok((owned(n), e));
                }
            }
            Err(ParseError::Invalid)
        },
        _ => Err(ParseError::Invalid),
    }
}

/// Parses an s-expression into an expression.
fn read_expr(s: &SExpr) -> (r: Result<Expr, ParseError>)
    ensures
        view_parse(r) == parse_spec(s@),
    decreases s, 1int,
{
    match s {
        SExpr::Atom(SAtom::I(n)) => {
            if *n > 4611686018427387903 || *n < -4611686018427387904 {
                Err(ParseError::Overflow)
            } else {
                Ok(Expr::Number(*n))
            }
        },
        SExpr::Atom(SAtom::S(n)) => {
            if is_keyword(n.as_str()) {
                Err(ParseError::Keyword)
            } else if str_eq(n.as_str(), "true") {
                Ok(Expr::Boolean(true))
            } else if str_eq(n.as_str(), "false") {
                Ok(Expr::Boolean(false))
            } else {
                Ok(Expr::Id(n.clone()))
            }
        },
        SExpr::Atom(SAtom::F(_)) => Err(ParseError::Invalid),
        SExpr::List(l) => {
            let ghost v = view_sexps(l@);
            assert(s@ == SpecSExpr::List(v));
            let n = l.len();
            if n == 0 {
                return Err(ParseError::Invalid);
            }
            let op = match word_of(&l[0]) {
                Some(op) => op,
                None => return Err(ParseError::Invalid),
            };
            if n == 2 {
                if str_eq(op, "add1") {
                    let a = read_expr(&l[1])?;
                    return Ok(Expr::UnOp(Op1::Add1, Box::new(a)));
                } else if str_eq(op, "sub1") {
                    let a = read_expr(&l[1])?;
                    return Ok(Expr::UnOp(Op1::Sub1, Box::new(a)));
                } else if str_eq(op, "isnum") {
                    let a = read_expr(&l[1])?;
                    return Ok(Expr::UnOp(Op1::IsNum, Box::new(a)));
                } else if str_eq(op, "isbool") {
                    let a = read_expr(&l[1])?;
                    return Ok(Expr::UnOp(Op1::IsBool, Box::new(a)));
                } else if str_eq(op, "loop") {
                    let a = read_expr(&l[1])?;
                    return Ok(Expr::Loop(Box::new(a)));
                } else if str_eq(op, "break") {
                    let a = read_expr(&l[1])?;
                    return Ok(Expr::Break(Box::new(a)));
                }
            }
            if n == 3 && str_eq(op, "set!") {
                if let Some(name) = word_of(&l[1]) {
                    let a = read_expr(&l[2])?;
                    return Ok(Expr::Assign(owned(name), Box::new(a)));
                }
            }
            if n == 3 {
                if let Some(o) = binop_word(op) {
                    let a = read_expr(&l[1])?;
                    let b = read_expr(&l[2])?;
                    return Ok(Expr::BinOp(o, Box::new(a), Box::new(b)));
                }
            }
            if n == 4 && str_eq(op, "if") {
                let c = read_expr(&l[1])?;
                let t = read_expr(&l[2])?;
                let f = read_expr(&l[3])?;
                return Ok(Expr::If(Box::new(c), Box::new(t), Box::new(f)));
            }
            if str_eq(op, "block") {
                let es = parse_items(s, l)?;
                proof { lemma_view_exprs(es@); }
                if es.len() == 0 {
                    return Err(ParseError::EmptyBlock);
                }
                return Ok(Expr::Block(es));
            }
            if n == 3 && str_eq(op, "let") {
                if let SExpr::List(bindings) = &l[1] {
                    let pairs = parse_binds(&l[1], bindings)?;
                    proof { lemma_view_binds(pairs@); }
                    if pairs.len() == 0 {
                        return Err(ParseError::EmptyBindings);
                    }
                    let body = read_expr(&l[2])?;
                    return Ok(Expr::Let(pairs, Box::new(body)));
                }
            }
            Err(ParseError::Invalid)
        },
    }
}

/// Whether `s` is an expression: `Ok` exactly where [`parse_spec`] parses
/// it, else the [`ParseError`] for its first fault, which the compiler
/// stops with.
pub fn check_expr(s: &SExpr) -> (r: Result<(), ParseError>)
    ensures
        r == (match parse_spec(s@) {
            Ok(_) => Ok::<(), ParseError>(()),
            Err(e) => Err(e),
        }),
{
    match read_expr(s) {
        Ok(_) => Ok(()),
        Err(e) => Err(e),
    }
}

/// Parses an s-expression into an expression: what [`parse_spec`] gives.
/// It takes only what [`check_expr`] passes.
pub fn parse_expr(s: &SExpr) -> (r: Expr)
    requires
        parse_spec(s@) is Ok,
    ensures
        r@ == parse_spec(s@)->Ok_0,
{
    match read_expr(s) {
        Ok(e) => e,
        Err(_) => {
            proof {
                assert(false);
            }
            Expr::Number(0)
        },
    }
}

/// Whether `s` is a binding of a `let`: `Ok` exactly where
/// [`parse_bind_spec`] parses it, else the [`ParseError`] for its first
/// fault.
pub fn check_bind(s: &SExpr) -> (r: Result<(), ParseError>)
    ensures
        r == (match parse_bind_spec(s@) {
            Ok(_) => Ok::<(), ParseError>(()),
            Err(e) => Err(e),
        }),
{
    match read_bind(s) {
        Ok(_) => Ok(()),
        Err(e) => Err(e),
    }
}

/// Parses a binding of a `let`: a list of a name and an expression, as
/// [`parse_bind_spec`] gives it. It takes only what [`check_bind`] passes.
pub fn parse_bind(s: &SExpr) -> (r: (String, Expr))
    requires
        parse_bind_spec(s@) is Ok,
    ensures
        (r.0@, r.1@) == parse_bind_spec(s@)->Ok_0,
{
    match read_bind(s) {
        Ok(b) => b,
        Err(_) => {
            proof {
                assert(false);
            }
            (String::new(), Expr::Number(0))
        },
    }
}

/// Why an expression does not compile.
#[derive(Debug)]
pub enum CompileError {
    /// A name that no `let` binds.
    UnboundVariable(String),
    /// A `break` outside any loop.
    BreakOutsideLoop,
    /// A `let` that binds one name twice.
    DuplicateBinding,
}

/// The mathematical model of a [`CompileError`].
pub enum SpecCompileError {
    UnboundVariable(Seq<char>),
    BreakOutsideLoop,
    DuplicateBinding,
}

impl View for CompileError {
    type V = SpecCompileError;

    open spec fn view(&self) -> SpecCompileError {
        match self {
            CompileError::UnboundVariable(x) => SpecCompileError::UnboundVariable(x@),
            CompileError::BreakOutsideLoop => SpecCompileError::BreakOutsideLoop,
            CompileError::DuplicateBinding => SpecCompileError::DuplicateBinding,
        }
    }
}

/// The label that `new_label` makes from a name and a counter value.
pub open spec fn label_text(s: Seq<char>, n: int) -> Seq<char> {
    s + "_"@ + int_decimal(n)
}

/// Makes a label from `s` and the counter, and increments the counter.
pub fn new_label(l: &mut i32, s: &str) -> (r: String)
    requires
        *old(l) < i32::MAX,
    ensures
        *final(l) == *old(l) + 1,
        r@ == label_text(s@, *old(l) as int),
{
    let current = *l;
    *l = current + 1;
    let mut r = String::new();
    r.append(s);
    proof { reveal_strlit("_"); }
    r.append("_");
    push_i64_decimal(&mut r, current as i64);
    assert(r@ =~= label_text(s@, current as int));
    r
}

pub open spec fn rax() -> Val {
    Val::Reg(Reg::RAX)
}

pub open spec fn rbx() -> Val {
    Val::Reg(Reg::RBX)
}

/// The stack slot at byte offset `8 * si`.
pub open spec fn slot(si: int) -> Val {
    Val::RegOffset(Reg::RSP, (si * 8) as i32)
}

/// The largest stack index that compilation reaches: byte offsets must fit
/// in an `i32`.
pub open spec fn max_stack_index() -> int {
    0x0fff_ffff
}

/// What a unary operator emits once its operand is in rax.
pub open spec fn unop_tail(op: Op1) -> Seq<SpecInstr> {
    match op {
        Op1::Add1 => seq![SpecInstr::IAdd(rax(), Val::Imm(2)), SpecInstr::IJo()],
        Op1::Sub1 => seq![SpecInstr::ISub(rax(), Val::Imm(2)), SpecInstr::IJo()],
        Op1::IsBool => seq![
            SpecInstr::IAnd(rax(), Val::Imm(1)),
            SpecInstr::ICmp(rax(), Val::Imm(1)),
            SpecInstr::IMov(rbx(), Val::Imm(1)),
            SpecInstr::IMov(rax(), Val::Imm(3)),
            SpecInstr::ICmovl(rax(), rbx()),
        ],
        Op1::IsNum => seq![
            SpecInstr::IAnd(rax(), Val::Imm(1)),
            SpecInstr::ICmp(rax(), Val::Imm(1)),
            SpecInstr::IMov(rbx(), Val::Imm(3)),
            SpecInstr::IMov(rax(), Val::Imm(1)),
            SpecInstr::ICmovl(rax(), rbx()),
        ],
    }
}

/// Jumps to the error code where the value in rbx is not a number.
pub open spec fn number_test() -> Seq<SpecInstr> {
    seq![
        SpecInstr::IXor(rbx(), Val::Imm(0)),
        SpecInstr::ITest(rbx(), Val::Imm(1)),
        SpecInstr::IJne("throw_error"@),
    ]
}

/// Sets rax to true (3) where the flags satisfy `c`, to false (1) otherwise.
pub open spec fn select(c: SpecInstr) -> Seq<SpecInstr> {
    seq![SpecInstr::IMov(rbx(), Val::Imm(3)), SpecInstr::IMov(rax(), Val::Imm(1)), c]
}

/// What a binary operator emits once its first operand is in the stack
/// slot `off` and its second in rax.
pub open spec fn binop_tail(op: Op2, off: Val) -> Seq<SpecInstr> {
    match op {
        Op2::Equal => seq![
            SpecInstr::IMov(rbx(), rax()),
            SpecInstr::IXor(rbx(), off),
            SpecInstr::ITest(rbx(), Val::Imm(1)),
            SpecInstr::IJne("throw_error"@),
            SpecInstr::ICmp(rax(), off),
        ] + select(SpecInstr::ICMov(rax(), rbx())),
        _ => seq![SpecInstr::IMov(rbx(), rax())] + number_test() + seq![SpecInstr::IMov(rbx(), off)] + number_test()
            + match op {
            Op2::Plus => seq![SpecInstr::IAdd(rax(), off), SpecInstr::IJo()],
            Op2::Minus => seq![SpecInstr::ISub(off, rax()), SpecInstr::IMov(rax(), off), SpecInstr::IJo()],
            Op2::Times => seq![SpecInstr::ISar(rax(), Val::Imm(1)), SpecInstr::IMul(rax(), off), SpecInstr::IJo()],
            Op2::Greater => seq![SpecInstr::ICmp(off, rax())] + select(SpecInstr::ICMovg(rax(), rbx())),
            Op2::GreaterEqual => seq![SpecInstr::ICmp(off, rax())] + select(SpecInstr::ICMovge(rax(), rbx())),
            Op2::Less => seq![SpecInstr::ICmp(off, rax())] + select(SpecInstr::ICmovl(rax(), rbx())),
            _ => seq![SpecInstr::ICmp(off, rax())] + select(SpecInstr::ICmovle(rax(), rbx())),
        },
    }
}

/// The result of compiling: the instructions emitted and the label counter
/// after them, or the error that stops compilation.
pub type Compiled = Result<(Seq<SpecInstr>, int), SpecCompileError>;

/// Compiles the expressions of a block in order, all at stack index `si`.
pub open spec fn compile_block_spec(es: Seq<SpecExpr>, si: int, env: Map<Seq<char>, i32>, l: int, brk: Seq<char>) -> Compiled
    decreases es, 0int,
{
    if es.len() == 0 {
        Ok((Seq::empty(), l))
    } else {
        match compile_block_spec(es.drop_last(), si, env, l, brk) {
            Err(x) => Err(x),
            Ok((i1, l1)) => match compile_spec(es.last(), si, env, l1, brk) {
                Err(x) => Err(x),
                Ok((i2, l2)) => Ok((i1 + i2, l2)),
            },
        }
    }
}

/// Compiles the bindings of a `let` in order: each is compiled with the
/// environment so far, then bound to the next stack slot; a name bound
/// twice in one `let` is an error. Gives the instructions, the counter, the
/// environment, the next stack index, and the names bound.
pub open spec fn compile_binds_spec(
    bs: Seq<(Seq<char>, SpecExpr)>,
    si: int,
    env: Map<Seq<char>, i32>,
    l: int,
    brk: Seq<char>,
) -> Result<(Seq<SpecInstr>, int, Map<Seq<char>, i32>, int, Seq<Seq<char>>), SpecCompileError>
    decreases bs, 0int,
{
    if bs.len() == 0 {
        Ok((Seq::empty(), l, env, si, Seq::empty()))
    } else {
        match compile_binds_spec(bs.drop_last(), si, env, l, brk) {
            Err(x) => Err(x),
            Ok((i1, l1, env1, si1, layer)) => match compile_spec(bs.last().1, si1, env1, l1, brk) {
                Err(x) => Err(x),
                Ok((i2, l2)) => if layer.contains(bs.last().0) {
                    Err(SpecCompileError::DuplicateBinding)
                } else {
                    Ok(
                        (
                            i1 + i2 + seq![SpecInstr::IMov(slot(si1), rax())],
                            l2,
                            env1.insert(bs.last().0, (si1 * 8) as i32),
                            si1 + 1,
                            layer.push(bs.last().0),
                        ),
                    )
                },
            },
        }
    }
}

/// What compiling `e` emits, with stack index `si`, the environment `env`
/// from names to byte offsets below rsp, the label counter at `l`, and the
/// label that a `break` jumps to (empty outside any loop).
pub open spec fn compile_spec(e: SpecExpr, si: int, env: Map<Seq<char>, i32>, l: int, brk: Seq<char>) -> Compiled
    decreases e, 1int,
{
    match e {
        SpecExpr::Number(n) => Ok((seq![SpecInstr::IMov(rax(), Val::Imm(n << 1))], l)),
        SpecExpr::Id(x) => if x == "input"@ {
            Ok((seq![SpecInstr::IMov(rax(), Val::Reg(Reg::RDI))], l))
        } else if !env.contains_key(x) {
            Err(SpecCompileError::UnboundVariable(x))
        } else {
            Ok((seq![SpecInstr::IMov(rax(), Val::RegOffset(Reg::RSP, env[x]))], l))
        },
        SpecExpr::Boolean(b) => Ok((seq![SpecInstr::IMov(rax(), Val::Imm(if b { 3 } else { 1 }))], l)),
        SpecExpr::If(c, t, f) => {
            let end = label_text("ifend"@, l);
            let els = label_text("ifelse"@, l + 1);
            match compile_spec(*c, si, env, l + 2, brk) {
                Err(x) => Err(x),
                Ok((i1, l1)) => match compile_spec(*t, si, env, l1, brk) {
                    Err(x) => Err(x),
                    Ok((i2, l2)) => match compile_spec(*f, si, env, l2, brk) {
                        Err(x) => Err(x),
                        Ok((i3, l3)) => Ok(
                            (
                                i1 + seq![SpecInstr::ICmp(rax(), Val::Imm(1)), SpecInstr::IJe(els)] + i2 + seq![
                                    SpecInstr::IJmp(end),
                                    SpecInstr::ILabel(els),
                                ] + i3 + seq![SpecInstr::ILabel(end)],
                                l3,
                            ),
                        ),
                    },
                },
            }
        },
        SpecExpr::Loop(a) => {
            let start = label_text("loopstart"@, l);
            let end = label_text("loopend"@, l + 1);
            match compile_spec(*a, si, env, l + 2, end) {
                Err(x) => Err(x),
                Ok((i1, l1)) => Ok(
                    (seq![SpecInstr::ILabel(start)] + i1 + seq![SpecInstr::IJmp(start), SpecInstr::ILabel(end)], l1),
                ),
            }
        },
        SpecExpr::Break(a) => if brk == Seq::<char>::empty() {
            Err(SpecCompileError::BreakOutsideLoop)
        } else {
            match compile_spec(*a, si, env, l, Seq::empty()) {
                Err(x) => Err(x),
                Ok((i1, l1)) => Ok((i1 + seq![SpecInstr::IJmp(brk)], l1)),
            }
        },
        SpecExpr::Block(es) => compile_block_spec(es, si, env, l, brk),
        SpecExpr::Assign(x, a) => if !env.contains_key(x) {
            Err(SpecCompileError::UnboundVariable(x))
        } else {
            match compile_spec(*a, si, env, l, brk) {
                Err(y) => Err(y),
                Ok((i1, l1)) => Ok((i1 + seq![SpecInstr::IMov(Val::RegOffset(Reg::RSP, env[x]), rax())], l1)),
            }
        },
        SpecExpr::UnOp(op, a) => match compile_spec(*a, si, env, l, brk) {
            Err(x) => Err(x),
            Ok((i1, l1)) => Ok((i1 + unop_tail(op), l1)),
        },
        SpecExpr::BinOp(op, a, b) => match compile_spec(*a, si, env, l, brk) {
            Err(x) => Err(x),
            Ok((i1, l1)) => match compile_spec(*b, si + 1, env, l1, brk) {
                Err(x) => Err(x),
                Ok((i2, l2)) => Ok((i1 + seq![SpecInstr::IMov(slot(si), rax())] + i2 + binop_tail(op, slot(si)), l2)),
            },
        },
        SpecExpr::Let(bs, body) => match compile_binds_spec(bs, si, env, l, brk) {
            Err(x) => Err(x),
            Ok((i1, l1, env1, si1, _)) => match compile_spec(*body, si1 + 1, env1, l1, brk) {
                Err(x) => Err(x),
                Ok((i2, l2)) => Ok((i1 + i2, l2)),
            },
        },
    }
}

/// The number of nodes of an expression, with one more per binding.
pub open spec fn expr_size(e: SpecExpr) -> nat
    decreases e, 1int,
{
    match e {
        SpecExpr::Let(bs, body) => 1 + binds_size(bs) + expr_size(*body),
        SpecExpr::UnOp(_, a) => 1 + expr_size(*a),
        SpecExpr::BinOp(_, a, b) => 1 + expr_size(*a) + expr_size(*b),
        SpecExpr::If(c, t, f) => 1 + expr_size(*c) + expr_size(*t) + expr_size(*f),
        SpecExpr::Loop(a) => 1 + expr_size(*a),
        SpecExpr::Break(a) => 1 + expr_size(*a),
        SpecExpr::Assign(_, a) => 1 + expr_size(*a),
        SpecExpr::Block(es) => 1 + exprs_size(es),
        _ => 1,
    }
}

pub open spec fn exprs_size(es: Seq<SpecExpr>) -> nat
    decreases es, 0int,
{
    if es.len() == 0 {
        0
    } else {
        exprs_size(es.drop_last()) + expr_size(es.last())
    }
}

pub open spec fn binds_size(bs: Seq<(Seq<char>, SpecExpr)>) -> nat
    decreases bs, 0int,
{
    if bs.len() == 0 {
        0
    } else {
        binds_size(bs.drop_last()) + 1 + expr_size(bs.last().1)
    }
}

/// A call of a compiling function did what `expected` says.
pub open spec fn outcome(r: Result<(), CompileError>, expected: Compiled, before: Seq<Instr>, after: Seq<Instr>, l: i32) -> bool {
    match expected {
        Ok((is, l1)) => r is Ok && view_instrs(after) == view_instrs(before) + is && l1 == l as int,
        Err(x) => r matches Err(y) && y@ == x,
    }
}

/// What a compiling function may assume: its stack indexes and labels stay
/// within their bounds.
pub open spec fn within_bounds(e: SpecExpr, si: int, l: i32) -> bool {
    &&& 0 <= si
    &&& si + expr_size(e) <= max_stack_index()
    &&& 0 <= l
    &&& l + 2 * expr_size(e) <= i32::MAX
}

/// Appends one instruction.
fn emit(out: &mut Vec<Instr>, i: Instr)
    ensures
        view_instrs(final(out)@) == view_instrs(old(out)@).push(i@),
{
    out.push(i);
    assert(view_instrs(out@) =~= view_instrs(old(out)@).push(i@));
}

fn throw_error() -> (r: String)
    ensures
        r@ == "throw_error"@,
{
    owned("throw_error")
}

fn emit_number_test(out: &mut Vec<Instr>)
    ensures
        view_instrs(final(out)@) == view_instrs(old(out)@) + number_test(),
{
    emit(out, Instr::IXor(Val::Reg(Reg::RBX), Val::Imm(0)));
    emit(out, Instr::ITest(Val::Reg(Reg::RBX), Val::Imm(1)));
    emit(out, Instr::IJne(throw_error()));
    assert(view_instrs(out@) =~= view_instrs(old(out)@) + number_test());
}

fn emit_select(out: &mut Vec<Instr>, c: Instr)
    ensures
        view_instrs(final(out)@) == view_instrs(old(out)@) + select(c@),
{
    let ghost cs = c@;
    emit(out, Instr::IMov(Val::Reg(Reg::RBX), Val::Imm(3)));
    emit(out, Instr::IMov(Val::Reg(Reg::RAX), Val::Imm(1)));
    emit(out, c);
    assert(view_instrs(out@) =~= view_instrs(old(out)@) + select(cs));
}

/// Appends what a binary operator emits once its operands are in the stack
/// slot `off` and in rax.
fn emit_binop_tail(out: &mut Vec<Instr>, op: Op2, off: Val)
    ensures
        view_instrs(final(out)@) == view_instrs(old(out)@) + binop_tail(op, off),
{
    let ghost start = view_instrs(out@);
    match op {
        Op2::Equal => {
            emit(out, Instr::IMov(Val::Reg(Reg::RBX), Val::Reg(Reg::RAX)));
            emit(out, Instr::IXor(Val::Reg(Reg::RBX), off));
            emit(out, Instr::ITest(Val::Reg(Reg::RBX), Val::Imm(1)));
            emit(out, Instr::IJne(throw_error()));
            emit(out, Instr::ICmp(Val::Reg(Reg::RAX), off));
            emit_select(out, Instr::ICMov(Val::Reg(Reg::RAX), Val::Reg(Reg::RBX)));
            assert(view_instrs(out@) =~= start + binop_tail(op, off));
        },
        _ => {
            emit(out, Instr::IMov(Val::Reg(Reg::RBX), Val::Reg(Reg::RAX)));
            emit_number_test(out);
            emit(out, Instr::IMov(Val::Reg(Reg::RBX), off));
            emit_number_test(out);
            let ghost mid = view_instrs(out@);
            match op {
                Op2::Plus => {
                    emit(out, Instr::IAdd(Val::Reg(Reg::RAX), off));
                    emit(out, Instr::IJo());
                },
                Op2::Minus => {
                    emit(out, Instr::ISub(off, Val::Reg(Reg::RAX)));
                    emit(out, Instr::IMov(Val::Reg(Reg::RAX), off));
                    emit(out, Instr::IJo());
                },
                Op2::Times => {
                    emit(out, Instr::ISar(Val::Reg(Reg::RAX), Val::Imm(1)));
                    emit(out, Instr::IMul(Val::Reg(Reg::RAX), off));
                    emit(out, Instr::IJo());
                },
                Op2::Greater => {
                    emit(out, Instr::ICmp(off, Val::Reg(Reg::RAX)));
                    emit_select(out, Instr::ICMovg(Val::Reg(Reg::RAX), Val::Reg(Reg::RBX)));
                },
                Op2::GreaterEqual => {
                    emit(out, Instr::ICmp(off, Val::Reg(Reg::RAX)));
                    emit_select(out, Instr::ICMovge(Val::Reg(Reg::RAX), Val::Reg(Reg::RBX)));
                },
                Op2::Less => {
                    emit(out, Instr::ICmp(off, Val::Reg(Reg::RAX)));
                    emit_select(out, Instr::ICmovl(Val::Reg(Reg::RAX), Val::Reg(Reg::RBX)));
                },
                _ => {
                    emit(out, Instr::ICmp(off, Val::Reg(Reg::RAX)));
                    emit_select(out, Instr::ICmovle(Val::Reg(Reg::RAX), Val::Reg(Reg::RBX)));
                },
            }
            assert(view_instrs(out@) =~= start + binop_tail(op, off));
        },
    }
}

/// Appends what a unary operator emits once its operand is in rax.
fn emit_unop_tail(out: &mut Vec<Instr>, op: Op1)
    ensures
        view_instrs(final(out)@) == view_instrs(old(out)@) + unop_tail(op),
{
    match op {
        Op1::Add1 => {
            emit(out, Instr::IAdd(Val::Reg(Reg::RAX), Val::Imm(2)));
            emit(out, Instr::IJo());
        },
        Op1::Sub1 => {
            emit(out, Instr::ISub(Val::Reg(Reg::RAX), Val::Imm(2)));
            emit(out, Instr::IJo());
        },
        Op1::IsBool => {
            emit(out, Instr::IAnd(Val::Reg(Reg::RAX), Val::Imm(1)));
            emit(out, Instr::ICmp(Val::Reg(Reg::RAX), Val::Imm(1)));
            emit(out, Instr::IMov(Val::Reg(Reg::RBX), Val::Imm(1)));
            emit(out, Instr::IMov(Val::Reg(Reg::RAX), Val::Imm(3)));
            emit(out, Instr::ICmovl(Val::Reg(Reg::RAX), Val::Reg(Reg::RBX)));
        },
        Op1::IsNum => {
            emit(out, Instr::IAnd(Val::Reg(Reg::RAX), Val::Imm(1)));
            emit(out, Instr::ICmp(Val::Reg(Reg::RAX), Val::Imm(1)));
            emit(out, Instr::IMov(Val::Reg(Reg::RBX), Val::Imm(3)));
            emit(out, Instr::IMov(Val::Reg(Reg::RAX), Val::Imm(1)));
            emit(out, Instr::ICmovl(Val::Reg(Reg::RAX), Val::Reg(Reg::RBX)));
        },
    }
    assert(view_instrs(out@) =~= view_instrs(old(out)@) + unop_tail(op));
}

proof fn lemma_exprs_size_take(es: Seq<SpecExpr>, k: int)
    requires
        0 < k <= es.len(),
    ensures
        exprs_size(es.take(k)) == exprs_size(es.take(k - 1)) + expr_size(es[k - 1]),
        exprs_size(es.take(k)) <= exprs_size(es),
    decreases es.len(),
{
    assert(es.take(k).drop_last() =~= es.take(k - 1));
    if k < es.len() {
        lemma_exprs_size_take(es.drop_last(), k);
        assert(es.drop_last().take(k) =~= es.take(k));
        assert(es.drop_last().take(k - 1) =~= es.take(k - 1));
    } else {
        assert(es.take(k) =~= es);
    }
}

proof fn lemma_binds_size_take(bs: Seq<(Seq<char>, SpecExpr)>, k: int)
    requires
        0 < k <= bs.len(),
    ensures
        binds_size(bs.take(k)) == binds_size(bs.take(k - 1)) + 1 + expr_size(bs[k - 1].1),
        binds_size(bs.take(k)) <= binds_size(bs),
    decreases bs.len(),
{
    assert(bs.take(k).drop_last() =~= bs.take(k - 1));
    if k < bs.len() {
        lemma_binds_size_take(bs.drop_last(), k);
        assert(bs.drop_last().take(k) =~= bs.take(k));
        assert(bs.drop_last().take(k - 1) =~= bs.take(k - 1));
    } else {
        assert(bs.take(k) =~= bs);
    }
}

proof fn lemma_block_prefix_err(es: Seq<SpecExpr>, k: int, si: int, env: Map<Seq<char>, i32>, l: int, brk: Seq<char>)
    requires
        0 <= k <= es.len(),
        compile_block_spec(es.take(k), si, env, l, brk) is Err,
    ensures
        compile_block_spec(es, si, env, l, brk) == compile_block_spec(es.take(k), si, env, l, brk),
    decreases es.len(),
{
    if k == es.len() {
        assert(es.take(k) =~= es);
    } else {
        assert(es.drop_last().take(k) =~= es.take(k));
        lemma_block_prefix_err(es.drop_last(), k, si, env, l, brk);
    }
}

proof fn lemma_binds_prefix_err(bs: Seq<(Seq<char>, SpecExpr)>, k: int, si: int, env: Map<Seq<char>, i32>, l: int, brk: Seq<char>)
    requires
        0 <= k <= bs.len(),
        compile_binds_spec(bs.take(k), si, env, l, brk) is Err,
    ensures
        compile_binds_spec(bs, si, env, l, brk) == compile_binds_spec(bs.take(k), si, env, l, brk),
    decreases bs.len(),
{
    if k == bs.len() {
        assert(bs.take(k) =~= bs);
    } else {
        assert(bs.drop_last().take(k) =~= bs.take(k));
        lemma_binds_prefix_err(bs.drop_last(), k, si, env, l, brk);
    }
}

/// Whether `v` holds a name with the characters of `t`.
fn holds_name(v: &Vec<String>, t: &str) -> (r: bool)
    ensures
        r == v@.map_values(|x: String| x@).contains(t@),
{
    let ghost names = v@.map_values(|x: String| x@);
    let mut k: usize = 0;
    while k < v.len()
        invariant
            names == v@.map_values(|x: String| x@),
            k <= v@.len(),
            forall|j: int| 0 <= j < k ==> v@[j]@ != t@,
        decreases v.len() - k,
    {
        if str_eq(v[k].as_str(), t) {
            assert(names[k as int] == t@);
            return true;
        }
        k = k + 1;
    }
    assert forall|j: int| 0 <= j < names.len() implies names[j] != t@ by {
        assert(v@[j]@ != t@);
    }
    false
}

/// Compiles `e` into `out`; see [`compile_spec`] for what it emits.
fn compile_into(e: &Expr, si: i32, env: &Env, l: &mut i32, brk: &str, out: &mut Vec<Instr>) -> (r: Result<(), CompileError>)
    requires
        within_bounds(e@, si as int, *old(l)),
    ensures
        outcome(r, compile_spec(e@, si as int, env_contents(*env), *old(l) as int, brk@), old(out)@, final(out)@, *final(l)),
        r is Ok ==> *old(l) <= *final(l) <= *old(l) + 2 * expr_size(e@),
    decreases e, 1int,
{
    let ghost envm = env_contents(*env);
    let ghost l0 = *old(l) as int;
    let ghost start = view_instrs(out@);
    match e {
        Expr::Number(n) => {
            emit(out, Instr::IMov(Val::Reg(Reg::RAX), Val::Imm(*n << 1)));
        },
        Expr::Id(s) => {
            if str_eq(s.as_str(), "input") {
                emit(out, Instr::IMov(Val::Reg(Reg::RAX), Val::Reg(Reg::RDI)));
            } else {
                match env_get(env, s.as_str()) {
                    Some(o) => emit(out, Instr::IMov(Val::Reg(Reg::RAX), Val::RegOffset(Reg::RSP, o))),
                    None => return Err(CompileError::UnboundVariable(s.clone())),
                }
            }
        },
        Expr::Boolean(b) => {
            emit(out, Instr::IMov(Val::Reg(Reg::RAX), Val::Imm(if *b { 3 } else { 1 })));
        },
        Expr::Loop(a) => {
            let start_label = new_label(l, "loopstart");
            let end_label = new_label(l, "loopend");
            emit(out, Instr::ILabel(start_label.clone()));
            let ghost s1 = view_instrs(out@);
            compile_into(a, si, env, l, end_label.as_str(), out)?;
            let ghost s2 = view_instrs(out@);
            emit(out, Instr::IJmp(start_label));
            emit(out, Instr::ILabel(end_label));
        },
        Expr::Break(a) => {
            proof {
                reveal_strlit("");
                assert(""@ =~= Seq::<char>::empty());
            }
            if str_eq(brk, "") {
                return Err(CompileError::BreakOutsideLoop);
            }
            compile_into(a, si, env, l, "", out)?;
            emit(out, Instr::IJmp(owned(brk)));
        },
        Expr::Assign(x, a) => {
            match env_get(env, x.as_str()) {
                Some(o) => {
                    compile_into(a, si, env, l, brk, out)?;
                    emit(out, Instr::IMov(Val::RegOffset(Reg::RSP, o), Val::Reg(Reg::RAX)));
                },
                None => return Err(CompileError::UnboundVariable(x.clone())),
            }
        },
        Expr::UnOp(op, a) => {
            compile_into(a, si, env, l, brk, out)?;
            emit_unop_tail(out, *op);
        },
        Expr::BinOp(op, a, b) => {
            compile_into(a, si, env, l, brk, out)?;
            let ghost s1 = view_instrs(out@);
            let off = Val::RegOffset(Reg::RSP, si * 8);
            emit(out, Instr::IMov(off, Val::Reg(Reg::RAX)));
            let ghost s2 = view_instrs(out@);
            compile_into(b, si + 1, env, l, brk, out)?;
            let ghost s3 = view_instrs(out@);
            emit_binop_tail(out, *op, off);
        },
        Expr::If(_, _, _) => {
            return compile_if(e, si, env, l, brk, out);
        },
        Expr::Block(_) => {
            return compile_block(e, si, env, l, brk, out);
        },
        Expr::Let(_, _) => {
            return compile_let(e, si, env, l, brk, out);
        },
    }
    assert(view_instrs(out@) =~= start + compile_spec(e@, si as int, envm, l0, brk@)->Ok_0.0);
    Ok(())
}

/// Compiles an `if`: the condition, a jump to the else branch where it is
/// false, the then branch, and the else branch.
fn compile_if(e: &Expr, si: i32, env: &Env, l: &mut i32, brk: &str, out: &mut Vec<Instr>) -> (r: Result<(), CompileError>)
    requires
        e is If,
        within_bounds(e@, si as int, *old(l)),
    ensures
        outcome(r, compile_spec(e@, si as int, env_contents(*env), *old(l) as int, brk@), old(out)@, final(out)@, *final(l)),
        r is Ok ==> *old(l) <= *final(l) <= *old(l) + 2 * expr_size(e@),
    decreases e, 0int,
{
    let ghost envm = env_contents(*env);
    let ghost l0 = *old(l) as int;
    let ghost start = view_instrs(out@);
    match e {
        Expr::If(cond, thn, els) => {
            let end_label = new_label(l, "ifend");
            let else_label = new_label(l, "ifelse");
            compile_into(cond, si, env, l, brk, out)?;
            let ghost s1 = view_instrs(out@);
            emit(out, Instr::ICmp(Val::Reg(Reg::RAX), Val::Imm(1)));
            emit(out, Instr::IJe(else_label.clone()));
            let ghost s2 = view_instrs(out@);
            compile_into(thn, si, env, l, brk, out)?;
            let ghost s3 = view_instrs(out@);
            emit(out, Instr::IJmp(end_label.clone()));
            emit(out, Instr::ILabel(else_label));
            let ghost s4 = view_instrs(out@);
            compile_into(els, si, env, l, brk, out)?;
            let ghost s5 = view_instrs(out@);
            emit(out, Instr::ILabel(end_label));
            assert(view_instrs(out@) =~= start + compile_spec(e@, si as int, envm, l0, brk@)->Ok_0.0);
            Ok(())
        },
        _ => Ok(()),
    }
}

/// Compiles the expressions of a block in order.
fn compile_block(e: &Expr, si: i32, env: &Env, l: &mut i32, brk: &str, out: &mut Vec<Instr>) -> (r: Result<(), CompileError>)
    requires
        e is Block,
        within_bounds(e@, si as int, *old(l)),
    ensures
        outcome(r, compile_spec(e@, si as int, env_contents(*env), *old(l) as int, brk@), old(out)@, final(out)@, *final(l)),
        r is Ok ==> *old(l) <= *final(l) <= *old(l) + 2 * expr_size(e@),
    decreases e, 0int,
{
    let ghost envm = env_contents(*env);
    let ghost l0 = *old(l) as int;
    let ghost start = view_instrs(out@);
    match e {
        Expr::Block(es) => {
            let ghost ses = view_exprs(es@);
            assert(e@ == SpecExpr::Block(ses));
            let mut k: usize = 0;
            assert(ses.take(0) =~= Seq::<SpecExpr>::empty());
            assert(view_instrs(out@).subrange(start.len() as int, start.len() as int) =~= Seq::<SpecInstr>::empty());
            assert(view_instrs(out@).subrange(0, start.len() as int) =~= start);
            while k < es.len()
                invariant
                    e matches Expr::Block(v) && v == es,
                    ses == view_exprs(es@),
                    envm == env_contents(*env),
                    l0 == *old(l) as int,
                    start == view_instrs(old(out)@),
                    within_bounds(e@, si as int, *old(l)),
                    k <= es@.len(),
                    compile_block_spec(ses.take(k as int), si as int, envm, l0, brk@) == Ok::<(Seq<SpecInstr>, int), SpecCompileError>(
                        (view_instrs(out@).subrange(start.len() as int, view_instrs(out@).len() as int), *l as int)),
                    view_instrs(out@).len() >= start.len(),
                    view_instrs(out@).subrange(0, start.len() as int) == start,
                    l0 <= *l <= l0 + 2 * exprs_size(ses.take(k as int)),
                    exprs_size(ses.take(k as int)) <= exprs_size(ses),
                decreases es.len() - k,
            {
                let ghost before = view_instrs(out@);
                let ghost lb = *l as int;
                proof {
                    lemma_view_exprs(es@);
                    lemma_view_exprs_index(es@, k as int);
                    assert(ses.take(k + 1).drop_last() =~= ses.take(k as int));
                    assert(ses.take(k + 1).last() == ses[k as int]);
                    lemma_exprs_size_take(ses, k + 1);
                }
                let r = compile_into(&es[k], si, env, l, brk, out);
                match r {
                    Err(x) => {
                        proof { lemma_block_prefix_err(ses, k + 1, si as int, envm, l0, brk@); }
                        return Err(x);
                    },
                    Ok(()) => {},
                }
                proof {
                    let after = view_instrs(out@);
                    let is = compile_spec(ses[k as int], si as int, envm, lb, brk@)->Ok_0.0;
                    assert(after =~= before + is);
                    assert(after.subrange(0, start.len() as int) =~= start);
                    assert(after.subrange(start.len() as int, after.len() as int) =~=
                        before.subrange(start.len() as int, before.len() as int) + is);
                }
                k = k + 1;
            }
            proof { lemma_view_exprs(es@); }
            assert(ses.take(es@.len() as int) =~= ses);
            assert(view_instrs(out@) =~= start + view_instrs(out@).subrange(start.len() as int, view_instrs(out@).len() as int));
            Ok(())
        },
        _ => Ok(()),
    }
}

/// Compiles a `let`: each binding in turn is compiled with the environment
/// so far and stored in the next stack slot; then the body, one slot
/// further on.
fn compile_let(e: &Expr, si: i32, env: &Env, l: &mut i32, brk: &str, out: &mut Vec<Instr>) -> (r: Result<(), CompileError>)
    requires
        e is Let,
        within_bounds(e@, si as int, *old(l)),
    ensures
        outcome(r, compile_spec(e@, si as int, env_contents(*env), *old(l) as int, brk@), old(out)@, final(out)@, *final(l)),
        r is Ok ==> *old(l) <= *final(l) <= *old(l) + 2 * expr_size(e@),
    decreases e, 0int,
{
    let ghost envm = env_contents(*env);
    let ghost l0 = *old(l) as int;
    let ghost start = view_instrs(out@);
    match e {
        Expr::Let(bindings, body) => {
            let ghost bs = view_binds(bindings@);
            assert(e@ == SpecExpr::Let(bs, Box::new(body@)));
            let mut new_env = env_clone(env);
            let mut cur_si = si;
            let mut cur_layer: Vec<String> = Vec::new();
            let mut k: usize = 0;
            assert(bs.take(0) =~= Seq::<(Seq<char>, SpecExpr)>::empty());
            assert(cur_layer@.map_values(|x: String| x@) =~= Seq::<Seq<char>>::empty());
            assert(view_instrs(out@).subrange(start.len() as int, start.len() as int) =~= Seq::<SpecInstr>::empty());
            assert(view_instrs(out@).subrange(0, start.len() as int) =~= start);
            while k < bindings.len()
                invariant
                    e matches Expr::Let(v, _) && v == bindings,
                    bs == view_binds(bindings@),
                    envm == env_contents(*env),
                    l0 == *old(l) as int,
                    start == view_instrs(old(out)@),
                    within_bounds(e@, si as int, *old(l)),
                    k <= bindings@.len(),
                    si <= cur_si <= si + binds_size(bs.take(k as int)),
                    compile_binds_spec(bs.take(k as int), si as int, envm, l0, brk@) == Ok::<(Seq<SpecInstr>, int, Map<Seq<char>, i32>, int, Seq<Seq<char>>), SpecCompileError>(
                        (view_instrs(out@).subrange(start.len() as int, view_instrs(out@).len() as int), *l as int,
                        env_contents(new_env), cur_si as int, cur_layer@.map_values(|x: String| x@))),
                    view_instrs(out@).len() >= start.len(),
                    view_instrs(out@).subrange(0, start.len() as int) == start,
                    l0 <= *l <= l0 + 2 * binds_size(bs.take(k as int)),
                    binds_size(bs.take(k as int)) <= binds_size(bs),
                decreases bindings.len() - k,
            {
                let ghost before = view_instrs(out@);
                let ghost lb = *l as int;
                let ghost layer = cur_layer@.map_values(|x: String| x@);
                proof {
                    lemma_view_binds(bindings@);
                    lemma_view_binds_index(bindings@, k as int);
                    assert(bs.take(k + 1).drop_last() =~= bs.take(k as int));
                    assert(bs.take(k + 1).last() == bs[k as int]);
                    lemma_binds_size_take(bs, k + 1);
                }
                let (variable, val_exp) = &bindings[k];
                let ghost env1 = env_contents(new_env);
                let r = compile_into(val_exp, cur_si, &new_env, l, brk, out);
                match r {
                    Err(x) => {
                        proof { lemma_binds_prefix_err(bs, k + 1, si as int, envm, l0, brk@); }
                        return Err(x);
                    },
                    Ok(()) => {},
                }
                if holds_name(&cur_layer, variable.as_str()) {
                    proof { lemma_binds_prefix_err(bs, k + 1, si as int, envm, l0, brk@); }
                    return Err(CompileError::DuplicateBinding);
                }
                let ghost mid = view_instrs(out@);
                env_insert(&mut new_env, variable.clone(), cur_si * 8);
                cur_layer.push(variable.clone());
                emit(out, Instr::IMov(Val::RegOffset(Reg::RSP, cur_si * 8), Val::Reg(Reg::RAX)));
                proof {
                    let after = view_instrs(out@);
                    let is = compile_spec(bs[k as int].1, cur_si as int, env1, lb, brk@)->Ok_0.0;
                    assert(mid =~= before + is);
                    assert(after.subrange(0, start.len() as int) =~= start);
                    assert(after.subrange(start.len() as int, after.len() as int) =~=
                        before.subrange(start.len() as int, before.len() as int) + is + seq![SpecInstr::IMov(slot(cur_si as int), rax())]);
                    assert(cur_layer@.map_values(|x: String| x@) =~= layer.push(variable@));
                }
                cur_si = cur_si + 1;
                k = k + 1;
            }
            proof { lemma_view_binds(bindings@); }
            assert(bs.take(bindings@.len() as int) =~= bs);
            let ghost s1 = view_instrs(out@);
            compile_into(body, cur_si + 1, &new_env, l, brk, out)?;
            proof {
                assert(s1 =~= start + s1.subrange(start.len() as int, s1.len() as int));
            }
            assert(view_instrs(out@) =~= start + compile_spec(e@, si as int, envm, l0, brk@)->Ok_0.0);
            Ok(())
        },
        _ => Ok(()),
    }
}

/// Whether `e` compiles with stack index `si`, the environment `env`, the
/// label counter `l` and the label `break_target` that a `break` jumps to
/// (empty outside any loop): `Ok` exactly where [`compile_spec`] succeeds,
/// else the [`CompileError`] for the first fault (an unbound name, a
/// duplicate binding, a `break` outside any loop), whose
/// [`CompileError::message`] the compiler stops with.
pub fn check_compile(e: &Expr, si: i32, env: &Env, l: i32, break_target: &String) -> (r: Result<(), CompileError>)
    requires
        within_bounds(e@, si as int, l),
    ensures
        (r is Ok) == (compile_spec(e@, si as int, env_contents(*env), l as int, break_target@) is Ok),
        r matches Err(x) ==> compile_spec(e@, si as int, env_contents(*env), l as int, break_target@) == Err::<
            (Seq<SpecInstr>, int),
            SpecCompileError,
        >(x@),
{
    let mut k = l;
    let mut v: Vec<Instr> = Vec::new();
    compile_into(e, si, env, &mut k, break_target.as_str(), &mut v)
}

/// Compiles `e` into instructions, with stack index `si`, the environment
/// `env` from names to byte offsets below rsp, the label counter `l`, and
/// the label `break_target` that a `break` jumps to (empty outside any
/// loop). What it gives is [`compile_spec`]. It takes only what
/// [`check_compile`] passes.
pub fn compile_to_instrs(e: &Expr, si: i32, env: &Env, l: &mut i32, break_target: &String) -> (r: Vec<Instr>)
    requires
        within_bounds(e@, si as int, *old(l)),
        compile_spec(e@, si as int, env_contents(*env), *old(l) as int, break_target@) is Ok,
    ensures
        Ok::<(Seq<SpecInstr>, int), SpecCompileError>((view_instrs(r@), *final(l) as int)) == compile_spec(
            e@,
            si as int,
            env_contents(*env),
            *old(l) as int,
            break_target@,
        ),
        *old(l) <= *final(l) <= *old(l) + 2 * expr_size(e@),
{
    let mut v: Vec<Instr> = Vec::new();
    assert(view_instrs(v@) =~= Seq::<SpecInstr>::empty());
    let r = compile_into(e, si, env, l, break_target.as_str(), &mut v);
    proof {
        if r is Err {
            assert(false);
        }
    }
    v
}

/// The assembly name of a register.
pub open spec fn reg_text(r: Reg) -> Seq<char> {
    match r {
        Reg::RAX => "rax"@,
        Reg::RBX => "rbx"@,
        Reg::RSP => "rsp"@,
        Reg::RDI => "rdi"@,
    }
}

/// An operand that has assembly text: rsp only as the base of a memory slot.
pub open spec fn printable_val(v: Val) -> bool {
    match v {
        Val::Reg(r) => r != Reg::RSP,
        Val::RegOffset(r, _) => r == Reg::RSP,
        _ => true,
    }
}

/// The assembly text of a printable operand.
pub open spec fn val_text(v: Val) -> Seq<char> {
    match v {
        Val::Imm(n) => int_decimal(n as int),
        Val::Reg(r) => reg_text(r),
        Val::RegOffset(_, o) => "[rsp - "@ + int_decimal(o as int) + "]"@,
    }
}

/// The assembly text of an operand.
pub fn val_to_str(v: &Val) -> (s: String)
    requires
        printable_val(*v),
    ensures
        s@ == val_text(*v),
{
    let mut s = String::new();
    match v {
        Val::Imm(n) => push_i64_decimal(&mut s, *n),
        Val::Reg(Reg::RAX) => {
            proof { reveal_strlit("rax"); }
            s.append("rax");
        },
        Val::Reg(Reg::RBX) => {
            proof { reveal_strlit("rbx"); }
            s.append("rbx");
        },
        Val::Reg(_) => {
            proof { reveal_strlit("rdi"); }
            s.append("rdi");
        },
        Val::RegOffset(_, offset) => {
            proof {
                reveal_strlit("[rsp - ");
                reveal_strlit("]");
            }
            s.append("[rsp - ");
            push_i64_decimal(&mut s, *offset as i64);
            s.append("]");
        },
    }
    assert(s@ =~= val_text(*v));
    s
}

/// An instruction that has assembly text: its operands do.
pub open spec fn printable(i: SpecInstr) -> bool {
    match i {
        SpecInstr::IMov(a, b) => printable_val(a) && printable_val(b),
        SpecInstr::IAdd(a, b) => printable_val(a) && printable_val(b),
        SpecInstr::ISub(a, b) => printable_val(a) && printable_val(b),
        SpecInstr::IMul(a, b) => printable_val(a) && printable_val(b),
        SpecInstr::ICmp(a, b) => printable_val(a) && printable_val(b),
        SpecInstr::ICMov(a, b) => printable_val(a) && printable_val(b),
        SpecInstr::ICMovg(a, b) => printable_val(a) && printable_val(b),
        SpecInstr::ICMovge(a, b) => printable_val(a) && printable_val(b),
        SpecInstr::ICmovl(a, b) => printable_val(a) && printable_val(b),
        SpecInstr::ICmovle(a, b) => printable_val(a) && printable_val(b),
        SpecInstr::IXor(a, b) => printable_val(a) && printable_val(b),
        SpecInstr::IAnd(a, b) => printable_val(a) && printable_val(b),
        SpecInstr::ISar(a, b) => printable_val(a) && printable_val(b),
        SpecInstr::ITest(a, b) => printable_val(a) && printable_val(b),
        _ => true,
    }
}

/// The assembly text of a printable instruction.
pub open spec fn instr_text(i: SpecInstr) -> Seq<char> {
    match i {
        SpecInstr::IMov(a, b) => "mov "@ + val_text(a) + ", "@ + val_text(b),
        SpecInstr::IAdd(a, b) => "add "@ + val_text(a) + ", "@ + val_text(b),
        SpecInstr::ISub(a, b) => "sub "@ + val_text(a) + ", "@ + val_text(b),
        SpecInstr::IMul(a, b) => "imul "@ + val_text(a) + ", "@ + val_text(b),
        SpecInstr::ICmp(a, b) => "cmp "@ + val_text(a) + ", "@ + val_text(b),
        SpecInstr::ICMov(a, b) => "cmove "@ + val_text(a) + ", "@ + val_text(b),
        SpecInstr::ICMovg(a, b) => "cmovg "@ + val_text(a) + ", "@ + val_text(b),
        SpecInstr::ICMovge(a, b) => "cmovge "@ + val_text(a) + ", "@ + val_text(b),
        SpecInstr::ICmovl(a, b) => "cmovl "@ + val_text(a) + ", "@ + val_text(b),
        SpecInstr::ICmovle(a, b) => "cmovle "@ + val_text(a) + ", "@ + val_text(b),
        SpecInstr::IXor(a, b) => "xor "@ + val_text(a) + ", "@ + val_text(b),
        SpecInstr::IAnd(a, b) => "and "@ + val_text(a) + ", "@ + val_text(b),
        SpecInstr::ISar(a, b) => "sar "@ + val_text(a) + ", "@ + val_text(b),
        SpecInstr::ITest(a, b) => "test "@ + val_text(a) + ", "@ + val_text(b),
        SpecInstr::IJe(l) => "je "@ + l,
        SpecInstr::IJne(l) => "jne "@ + l,
        SpecInstr::IJmp(l) => "jmp "@ + l,
        SpecInstr::IJo() => "jo overflow"@,
        SpecInstr::ILabel(l) => l + ":"@,
    }
}

fn push_two(s: &mut String, name: &str, a: &Val, b: &Val)
    requires
        printable_val(*a),
        printable_val(*b),
    ensures
        final(s)@ == old(s)@ + name@ + val_text(*a) + ", "@ + val_text(*b),
{
    s.append(name);
    let t = val_to_str(a);
    s.append(t.as_str());
    proof { reveal_strlit(", "); }
    s.append(", ");
    let u = val_to_str(b);
    s.append(u.as_str());
    assert(final(s)@ =~= old(s)@ + name@ + val_text(*a) + ", "@ + val_text(*b));
}

/// The assembly text of an instruction.
pub fn instr_to_str(i: &Instr) -> (s: String)
    requires
        printable(i@),
    ensures
        s@ == instr_text(i@),
{
    let mut s = String::new();
    match i {
        Instr::IMov(a, b) => {
            proof { reveal_strlit("mov "); }
            push_two(&mut s, "mov ", a, b);
        },
        Instr::IAdd(a, b) => {
            proof { reveal_strlit("add "); }
            push_two(&mut s, "add ", a, b);
        },
        Instr::ISub(a, b) => {
            proof { reveal_strlit("sub "); }
            push_two(&mut s, "sub ", a, b);
        },
        Instr::IMul(a, b) => {
            proof { reveal_strlit("imul "); }
            push_two(&mut s, "imul ", a, b);
        },
        Instr::ICmp(a, b) => {
            proof { reveal_strlit("cmp "); }
            push_two(&mut s, "cmp ", a, b);
        },
        Instr::ICMov(a, b) => {
            proof { reveal_strlit("cmove "); }
            push_two(&mut s, "cmove ", a, b);
        },
        Instr::ICMovg(a, b) => {
            proof { reveal_strlit("cmovg "); }
            push_two(&mut s, "cmovg ", a, b);
        },
        Instr::ICMovge(a, b) => {
            proof { reveal_strlit("cmovge "); }
            push_two(&mut s, "cmovge ", a, b);
        },
        Instr::ICmovl(a, b) => {
            proof { reveal_strlit("cmovl "); }
            push_two(&mut s, "cmovl ", a, b);
        },
        Instr::ICmovle(a, b) => {
            proof { reveal_strlit("cmovle "); }
            push_two(&mut s, "cmovle ", a, b);
        },
        Instr::IXor(a, b) => {
            proof { reveal_strlit("xor "); }
            push_two(&mut s, "xor ", a, b);
        },
        Instr::IAnd(a, b) => {
            proof { reveal_strlit("and "); }
            push_two(&mut s, "and ", a, b);
        },
        Instr::ISar(a, b) => {
            proof { reveal_strlit("sar "); }
            push_two(&mut s, "sar ", a, b);
        },
        Instr::ITest(a, b) => {
            proof { reveal_strlit("test "); }
            push_two(&mut s, "test ", a, b);
        },
        Instr::IJe(l) => {
            proof { reveal_strlit("je "); }
            s.append("je ");
            s.append(l.as_str());
        },
        Instr::IJne(l) => {
            proof { reveal_strlit("jne "); }
            s.append("jne ");
            s.append(l.as_str());
        },
        Instr::IJmp(l) => {
            proof { reveal_strlit("jmp "); }
            s.append("jmp ");
            s.append(l.as_str());
        },
        Instr::IJo() => {
            proof { reveal_strlit("jo overflow"); }
            s.append("jo overflow");
        },
        Instr::ILabel(l) => {
            proof { reveal_strlit(":"); }
            s.append(l.as_str());
            s.append(":");
        },
    }
    assert(s@ =~= instr_text(i@));
    s
}

/// The text of a sequence of instructions: each instruction's text and a
/// line break.
pub open spec fn instrs_text(is: Seq<SpecInstr>) -> Seq<char>
    decreases is.len(),
{
    if is.len() == 0 {
        Seq::empty()
    } else {
        instrs_text(is.drop_last()) + instr_text(is.last()) + "\n"@
    }
}

pub open spec fn all_printable(s: Seq<SpecInstr>) -> bool {
    forall|k: int| 0 <= k < s.len() ==> #[trigger] printable(s[k])
}

/// Every instruction that compiling emits has assembly text.
pub proof fn lemma_compile_printable(e: SpecExpr, si: int, env: Map<Seq<char>, i32>, l: int, brk: Seq<char>)
    requires
        compile_spec(e, si, env, l, brk) is Ok,
    ensures
        all_printable(compile_spec(e, si, env, l, brk)->Ok_0.0),
    decreases e, 1int,
{
    let r = compile_spec(e, si, env, l, brk)->Ok_0.0;
    match e {
        SpecExpr::If(c, t, f) => {
            let (i1, l1) = compile_spec(*c, si, env, l + 2, brk)->Ok_0;
            let (i2, l2) = compile_spec(*t, si, env, l1, brk)->Ok_0;
            lemma_compile_printable(*c, si, env, l + 2, brk);
            lemma_compile_printable(*t, si, env, l1, brk);
            lemma_compile_printable(*f, si, env, l2, brk);
        },
        SpecExpr::Loop(a) => {
            lemma_compile_printable(*a, si, env, l + 2, label_text("loopend"@, l + 1));
        },
        SpecExpr::Break(a) => {
            lemma_compile_printable(*a, si, env, l, Seq::empty());
        },
        SpecExpr::Block(es) => {
            lemma_block_printable(es, si, env, l, brk);
        },
        SpecExpr::Assign(_, a) => {
            lemma_compile_printable(*a, si, env, l, brk);
        },
        SpecExpr::UnOp(_, a) => {
            lemma_compile_printable(*a, si, env, l, brk);
        },
        SpecExpr::BinOp(_, a, b) => {
            let (i1, l1) = compile_spec(*a, si, env, l, brk)->Ok_0;
            lemma_compile_printable(*a, si, env, l, brk);
            lemma_compile_printable(*b, si + 1, env, l1, brk);
        },
        SpecExpr::Let(bs, body) => {
            let (i1, l1, env1, si1, _) = compile_binds_spec(bs, si, env, l, brk)->Ok_0;
            lemma_binds_printable(bs, si, env, l, brk);
            lemma_compile_printable(*body, si1 + 1, env1, l1, brk);
        },
        _ => {},
    }
}

proof fn lemma_block_printable(es: Seq<SpecExpr>, si: int, env: Map<Seq<char>, i32>, l: int, brk: Seq<char>)
    requires
        compile_block_spec(es, si, env, l, brk) is Ok,
    ensures
        all_printable(compile_block_spec(es, si, env, l, brk)->Ok_0.0),
    decreases es, 0int,
{
    if es.len() > 0 {
        let (i1, l1) = compile_block_spec(es.drop_last(), si, env, l, brk)->Ok_0;
        lemma_block_printable(es.drop_last(), si, env, l, brk);
        lemma_compile_printable(es.last(), si, env, l1, brk);
    }
}

proof fn lemma_binds_printable(bs: Seq<(Seq<char>, SpecExpr)>, si: int, env: Map<Seq<char>, i32>, l: int, brk: Seq<char>)
    requires
        compile_binds_spec(bs, si, env, l, brk) is Ok,
    ensures
        all_printable(compile_binds_spec(bs, si, env, l, brk)->Ok_0.0),
    decreases bs, 0int,
{
    if bs.len() > 0 {
        let (i1, l1, env1, si1, _) = compile_binds_spec(bs.drop_last(), si, env, l, brk)->Ok_0;
        lemma_binds_printable(bs.drop_last(), si, env, l, brk);
        lemma_compile_printable(bs.last().1, si1, env1, l1, brk);
    }
}

/// Compiles an expression: the text of its instructions, each on a line of
/// its own, from stack index 2, an empty environment and no loop. It takes
/// only what [`check_compile`] passes there.
pub fn compile(e: &Expr) -> (r: String)
    requires
        2 + expr_size(e@) <= max_stack_index(),
        compile_spec(e@, 2, Map::empty(), 0, Seq::empty()) is Ok,
    ensures
        r@ == instrs_text(compile_spec(e@, 2, Map::empty(), 0, Seq::empty())->Ok_0.0),
{
    let mut l: i32 = 0;
    let break_target = String::new();
    let env = env_new();
    assert(env_contents(env) == Map::<Seq<char>, i32>::empty());
    assert(break_target@ =~= Seq::<char>::empty());
    let instr = compile_to_instrs(e, 2, &env, &mut l, &break_target);
    let ghost is = view_instrs(instr@);
    proof { lemma_compile_printable(e@, 2, Map::empty(), 0, Seq::empty()); }
    let mut res = String::new();
    let mut i: usize = 0;
    assert(is.take(0) =~= Seq::<SpecInstr>::empty());
    while i < instr.len()
        invariant
            is == view_instrs(instr@),
            all_printable(is),
            i <= instr@.len(),
            res@ == instrs_text(is.take(i as int)),
        decreases instr.len() - i,
    {
        assert(is[i as int] == instr@[i as int]@);
        assert(printable(is[i as int]));
        let t = instr_to_str(&instr[i]);
        res.append(t.as_str());
        proof { reveal_strlit("\n"); }
        res.append("\n");
        assert(is.take(i + 1).drop_last() =~= is.take(i as int));
        assert(res@ =~= instrs_text(is.take(i + 1)));
        i = i + 1;
    }
    assert(is.take(instr@.len() as int) =~= is);
    res
}

proof fn lemma_exprs_size_step_count(es: Seq<SpecExpr>, k: int)
    requires
        0 < k <= es.len(),
    ensures
        exprs_size(es.take(k)) == exprs_size(es.take(k - 1)) + expr_size(es[k - 1]),
{
    assert(es.take(k).drop_last() =~= es.take(k - 1));
}

proof fn lemma_exprs_size_monotone(es: Seq<SpecExpr>, k: int)
    requires
        0 <= k <= es.len(),
    ensures
        exprs_size(es.take(k)) <= exprs_size(es),
    decreases es.len(),
{
    if k < es.len() {
        lemma_exprs_size_monotone(es.drop_last(), k);
        assert(es.drop_last().take(k) =~= es.take(k));
    } else {
        assert(es.take(k) =~= es);
    }
}

proof fn lemma_binds_size_step(bs: Seq<(Seq<char>, SpecExpr)>, k: int)
    requires
        0 < k <= bs.len(),
    ensures
        binds_size(bs.take(k)) == binds_size(bs.take(k - 1)) + 1 + expr_size(bs[k - 1].1),
{
    assert(bs.take(k).drop_last() =~= bs.take(k - 1));
}

proof fn lemma_binds_size_monotone(bs: Seq<(Seq<char>, SpecExpr)>, k: int)
    requires
        0 <= k <= bs.len(),
    ensures
        binds_size(bs.take(k)) <= binds_size(bs),
    decreases bs.len(),
{
    if k < bs.len() {
        lemma_binds_size_monotone(bs.drop_last(), k);
        assert(bs.drop_last().take(k) =~= bs.take(k));
    } else {
        assert(bs.take(k) =~= bs);
    }
}

/// The total size of the expressions of a block, if it is at most `budget`.
fn count_list(e: &Expr, es: &Vec<Expr>, budget: u64) -> (r: Option<u64>)
    requires
        e matches Expr::Block(v) && v == es,
    ensures
        match r {
            Some(n) => n == exprs_size(view_exprs(es@)) && n <= budget,
            None => exprs_size(view_exprs(es@)) > budget,
        },
    decreases e, 0int,
{
    let ghost v = view_exprs(es@);
    let mut total: u64 = 0;
    let mut k: usize = 0;
    assert(v.take(0) =~= Seq::<SpecExpr>::empty());
    while k < es.len()
        invariant
            e matches Expr::Block(w) && w == es,
            v == view_exprs(es@),
            k <= es@.len(),
            total == exprs_size(v.take(k as int)),
            total <= budget,
        decreases es.len() - k,
    {
        proof {
            lemma_view_exprs(es@);
            lemma_view_exprs_index(es@, k as int);
            lemma_exprs_size_step_count(v, k + 1);
        }
        match count_nodes(&es[k], budget - total) {
            Some(n) => total = total + n,
            None => {
                proof { lemma_exprs_size_monotone(v, k + 1); }
                return None;
            },
        }
        k = k + 1;
    }
    proof { lemma_view_exprs(es@); }
    assert(v.take(es@.len() as int) =~= v);
    Some(total)
}

/// The size of `e` (see [`expr_size`]), if it is at most `budget`.
pub fn count_nodes(e: &Expr, budget: u64) -> (r: Option<u64>)
    ensures
        match r {
            Some(n) => n == expr_size(e@) && n <= budget,
            None => expr_size(e@) > budget,
        },
    decreases e, 1int,
{
    if budget == 0 {
        return None;
    }
    let inner = budget - 1;
    let used: u64 = match e {
        Expr::Let(binds, body) => {
            let ghost bs = view_binds(binds@);
            let mut total: u64 = 0;
            let mut k: usize = 0;
            assert(bs.take(0) =~= Seq::<(Seq<char>, SpecExpr)>::empty());
            while k < binds.len()
                invariant
                    e matches Expr::Let(b, _) && b == binds,
                    inner + 1 == budget,
                    bs == view_binds(binds@),
                    k <= binds@.len(),
                    total == binds_size(bs.take(k as int)),
                    total <= inner,
                decreases binds.len() - k,
            {
                proof {
                    lemma_view_binds(binds@);
                    lemma_view_binds_index(binds@, k as int);
                    lemma_binds_size_step(bs, k + 1);
                }
                if total == inner {
                    proof { lemma_binds_size_monotone(bs, k + 1); }
                    return None;
                }
                match count_nodes(&binds[k].1, inner - total - 1) {
                    Some(n) => total = total + 1 + n,
                    None => {
                        proof { lemma_binds_size_monotone(bs, k + 1); }
                        return None;
                    },
                }
                k = k + 1;
            }
            proof { lemma_view_binds(binds@); }
            assert(bs.take(binds@.len() as int) =~= bs);
            match count_nodes(body, inner - total) {
                Some(n) => total + n,
                None => return None,
            }
        },
        Expr::UnOp(_, a) | Expr::Loop(a) | Expr::Break(a) | Expr::Assign(_, a) => match count_nodes(a, inner) {
            Some(n) => n,
            None => return None,
        },
        Expr::BinOp(_, a, b) => {
            let n = match count_nodes(a, inner) {
                Some(n) => n,
                None => return None,
            };
            match count_nodes(b, inner - n) {
                Some(m) => n + m,
                None => return None,
            }
        },
        Expr::If(c, t, f) => {
            let n = match count_nodes(c, inner) {
                Some(n) => n,
                None => return None,
            };
            let m = match count_nodes(t, inner - n) {
                Some(m) => m,
                None => return None,
            };
            match count_nodes(f, inner - n - m) {
                Some(p) => n + m + p,
                None => return None,
            }
        },
        Expr::Block(es) => match count_list(e, es, inner) {
            Some(n) => n,
            None => return None,
        },
        _ => 0,
    };
    Some(used + 1)
}


/// Why a program's text does not compile.
#[derive(Debug)]
pub enum ProgramError {
    Parse(ParseError),
    Compile(CompileError),
    /// The expression has more nodes than the compiler takes: a bound on its
    /// size that keeps every stack offset, and the label counter, within its
    /// integer type.
    TooLarge,
}

/// The mathematical model of a [`ProgramError`].
pub enum SpecProgramError {
    Parse(ParseError),
    Compile(SpecCompileError),
    TooLarge,
}

impl View for ProgramError {
    type V = SpecProgramError;

    open spec fn view(&self) -> SpecProgramError {
        match self {
            ProgramError::Parse(e) => SpecProgramError::Parse(*e),
            ProgramError::Compile(e) => SpecProgramError::Compile(e@),
            ProgramError::TooLarge => SpecProgramError::TooLarge,
        }
    }
}

/// The assembly file: the handlers of type errors and overflows, then the
/// code of the expression.
pub open spec fn asm_file(main: Seq<char>) -> Seq<char> {
    "\nsection .text\nextern snek_error\nglobal our_code_starts_here\nthrow_error:\nmov rdi, 7\npush rsp\ncall snek_error\noverflow:\nmov rdi, 5\npush rsp\ncall snek_error\nour_code_starts_here:\n"@
        + main + "\nret\n"@
}

/// What the compiler writes for a program's text.
pub open spec fn program_spec(text: Seq<char>) -> Result<Seq<char>, SpecProgramError> {
    match sexp_parse(text) {
        Err(_) => Err(SpecProgramError::Parse(ParseError::InvalidSexp)),
        Ok(sx) => match parse_spec(sx) {
            Err(e) => Err(SpecProgramError::Parse(e)),
            Ok(e) => if 2 + expr_size(e) > max_stack_index() {
                Err(SpecProgramError::TooLarge)
            } else {
                match compile_spec(e, 2, Map::empty(), 0, Seq::empty()) {
                    Err(x) => Err(SpecProgramError::Compile(x)),
                    Ok((is, _)) => Ok(asm_file(instrs_text(is))),
                }
            },
        },
    }
}

pub open spec fn view_program(r: Result<String, ProgramError>) -> Result<Seq<char>, SpecProgramError> {
    match r {
        Ok(s) => Ok(s@),
        Err(e) => Err(e@),
    }
}

/// Compiles a program's text into the assembly file; see [`program_spec`].
pub fn compile_program(text: &str) -> (r: Result<String, ProgramError>)
    ensures
        view_program(r) == program_spec(text@),
{
    let expr = match read_sexp(text) {
        Ok(parsed) => match check_expr(&parsed) {
            Ok(()) => parse_expr(&parsed),
            Err(e) => return Err(ProgramError::Parse(e)),
        },
        Err(_) => return Err(ProgramError::Parse(ParseError::InvalidSexp)),
    };
    let fits = match count_nodes(&expr, 0x0fff_ffff) {
        Some(m) => m <= 0x0fff_fffd,
        None => false,
    };
    if !fits {
        return Err(ProgramError::TooLarge);
    }
    let env = env_new();
    let break_target = String::new();
    assert(env_contents(env) == Map::<Seq<char>, i32>::empty());
    assert(break_target@ =~= Seq::<char>::empty());
    if let Err(x) = check_compile(&expr, 2, &env, 0, &break_target) {
        return Err(ProgramError::Compile(x));
    }
    let result = compile(&expr);
    let mut out = String::new();
    proof {
        reveal_strlit("\nsection .text\nextern snek_error\nglobal our_code_starts_here\nthrow_error:\nmov rdi, 7\npush rsp\ncall snek_error\noverflow:\nmov rdi, 5\npush rsp\ncall snek_error\nour_code_starts_here:\n");
        reveal_strlit("\nret\n");
    }
    out.append("\nsection .text\nextern snek_error\nglobal our_code_starts_here\nthrow_error:\nmov rdi, 7\npush rsp\ncall snek_error\noverflow:\nmov rdi, 5\npush rsp\ncall snek_error\nour_code_starts_here:\n");
    out.append(result.as_str());
    out.append("\nret\n");
    assert(out@ =~= asm_file(result@));
    Ok(out)
}

/// The message with which the compiler stops on a parse error.
pub open spec fn parse_error_text(e: ParseError) -> Seq<char> {
    match e {
        ParseError::Overflow => "Invalid, overflow!"@,
        ParseError::Keyword => "keyword"@,
        ParseError::EmptyBlock => "Invalid! Empty block"@,
        ParseError::EmptyBindings => "Invalid! Empty bindings"@,
        ParseError::Invalid => "Invalid"@,
        ParseError::InvalidSexp => "Invalid!"@,
    }
}

impl ParseError {
    /// The message with which the compiler stops on this error.
    pub fn message(&self) -> (r: String)
        ensures
            r@ == parse_error_text(*self),
    {
        let mut s = String::new();
        match self {
            ParseError::Overflow => s.append("Invalid, overflow!"),
            ParseError::Keyword => s.append("keyword"),
            ParseError::EmptyBlock => s.append("Invalid! Empty block"),
            ParseError::EmptyBindings => s.append("Invalid! Empty bindings"),
            ParseError::Invalid => s.append("Invalid"),
            ParseError::InvalidSexp => s.append("Invalid!"),
        }
        proof {
            assert(s@ =~= parse_error_text(*self));
        }
        s
    }
}

/// The message with which the compiler stops on a compile error.
pub open spec fn compile_error_text(e: SpecCompileError) -> Seq<char> {
    match e {
        SpecCompileError::UnboundVariable(x) => "Unbound variable identifier "@ + x,
        SpecCompileError::BreakOutsideLoop => "Using break outside of loop!"@,
        SpecCompileError::DuplicateBinding => "Duplicate binding"@,
    }
}

impl CompileError {
    /// The message with which the compiler stops on this error.
    pub fn message(&self) -> (r: String)
        ensures
            r@ == compile_error_text(self@),
    {
        let mut s = String::new();
        match self {
            CompileError::UnboundVariable(x) => {
                s.append("Unbound variable identifier ");
                s.append(x.as_str());
            },
            CompileError::BreakOutsideLoop => s.append("Using break outside of loop!"),
            CompileError::DuplicateBinding => s.append("Duplicate binding"),
        }
        proof {
            assert(s@ =~= compile_error_text(self@));
        }
        s
    }
}

/// The message with which the compiler stops on a program error.
pub open spec fn program_error_text(e: SpecProgramError) -> Seq<char> {
    match e {
        SpecProgramError::Parse(p) => parse_error_text(p),
        SpecProgramError::Compile(c) => compile_error_text(c),
        SpecProgramError::TooLarge => "program too large"@,
    }
}

impl ProgramError {
    /// The message with which the compiler stops on this error.
    pub fn message(&self) -> (r: String)
        ensures
            r@ == program_error_text(self@),
    {
        match self {
            ProgramError::Parse(e) => e.message(),
            ProgramError::Compile(e) => e.message(),
            ProgramError::TooLarge => {
                let mut s = String::new();
                s.append("program too large");
                proof {
                    assert(s@ =~= "program too large"@);
                }
                s
            },
        }
    }
}

} // verus!
