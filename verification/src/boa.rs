//! The Boa compiler: 32-bit numbers, variables, `let`, and arithmetic.
use vstd::prelude::*;

pub mod semantics;

use crate::decimal::{int_decimal, push_i64_decimal};
use crate::env::{Env, env_clone, env_contents, env_get, env_new, env_union, env_update, lemma_im_union_agreeing};
use crate::sexpr::{SAtom, SExpr, SpecAtom, SpecSExpr, atom_word, read_sexp, sexp_parse, view_sexps, word_of};
use crate::text::str_eq;

verus! {

broadcast use
    vstd::std_specs::vec::axiom_vec_decreases_to_view,
    vstd::std_specs::vec::axiom_vec_index_decreases,
    crate::sexpr::lemma_view_sexps,
    crate::sexpr::lemma_view_sexps_index,
;

/// A register.
#[derive(Debug, Clone, Copy, PartialEq, Eq)]
pub enum Reg {
    RAX,
    RSP,
}

/// An operand: a register, an immediate, or a memory slot below a register.
#[derive(Debug, Clone, Copy, PartialEq, Eq)]
pub enum Val {
    Reg(Reg),
    Imm(i32),
    RegOffset(Reg, i32),
}

/// An instruction.
#[derive(Debug, Clone, Copy, PartialEq, Eq)]
pub enum Instr {
    IMov(Val, Val),
    IAdd(Val, Val),
    ISub(Val, Val),
    IMul(Val, Val),
}

/// A unary operator.
#[derive(Debug, Clone, Copy, PartialEq, Eq)]
pub enum Op1 {
    Add1,
    Sub1,
}

/// A binary operator.
#[derive(Debug, Clone, Copy, PartialEq, Eq)]
pub enum Op2 {
    Plus,
    Minus,
    Times,
}

/// An expression.
#[derive(Debug)]
pub enum Expr {
    Number(i32),
    Id(String),
    Let(Vec<(String, Expr)>, Box<Expr>),
    UnOp(Op1, Box<Expr>),
    BinOp(Op2, Box<Expr>, Box<Expr>),
}

/// The mathematical model of an [`Expr`].
pub enum SpecExpr {
    Number(i32),
    Id(Seq<char>),
    Let(Seq<(Seq<char>, SpecExpr)>, Box<SpecExpr>),
    UnOp(Op1, Box<SpecExpr>),
    BinOp(Op2, Box<SpecExpr>, Box<SpecExpr>),
}

pub open spec fn view_binds(s: Seq<(String, Expr)>) -> Seq<(Seq<char>, SpecExpr)>
    decreases s, 0int,
{
    if s.len() == 0 {
        Seq::empty()
    } else {
        view_binds(s.drop_last()).push((s.last().0@, view_expr(s.last().1)))
    }
}

pub open spec fn view_expr(e: Expr) -> SpecExpr
    decreases e, 1int,
{
    match e {
        Expr::Number(n) => SpecExpr::Number(n),
        Expr::Id(x) => SpecExpr::Id(x@),
        Expr::Let(bs, body) => SpecExpr::Let(view_binds(bs@), Box::new(view_expr(*body))),
        Expr::UnOp(op, a) => SpecExpr::UnOp(op, Box::new(view_expr(*a))),
        Expr::BinOp(op, a, b) => SpecExpr::BinOp(op, Box::new(view_expr(*a)), Box::new(view_expr(*b))),
    }
}

impl View for Expr {
    type V = SpecExpr;

    open spec fn view(&self) -> SpecExpr {
        view_expr(*self)
    }
}

/// The model of a list has one element per element.
pub proof fn lemma_view_binds(s: Seq<(String, Expr)>)
    ensures
        view_binds(s).len() == s.len(),
    decreases s.len(),
{
    if s.len() > 0 {
        lemma_view_binds(s.drop_last());
    }
}

/// Each element of the model of a list is the model of the element.
pub proof fn lemma_view_binds_index(s: Seq<(String, Expr)>, i: int)
    requires
        0 <= i < s.len(),
    ensures
        view_binds(s)[i] == (s[i].0@, view_expr(s[i].1)),
    decreases s.len(),
{
    lemma_view_binds(s);
    if i < s.len() - 1 {
        lemma_view_binds_index(s.drop_last(), i);
        assert(s.drop_last()[i] == s[i]);
    }
}

/// Why a text is not a program.
#[derive(Debug, Clone, Copy, PartialEq, Eq)]
pub enum ParseError {
    /// A number that does not fit in an `i32`.
    NumberOutOfRange,
    /// A `let` without bindings.
    NoBindingLet,
    /// An s-expression that is no form of the language, or text that is not
    /// an s-expression.
    InvalidSexp,
    /// A binding that is not a name and an expression.
    InvalidBind,
}

/// Why an expression does not compile.
#[derive(Debug)]
pub enum CompileError {
    /// A name that no `let` binds.
    UnboundVariable(String),
    /// A `let` that binds one name twice.
    DuplicateBinding,
    /// A `let` that binds `let`, `add1` or `sub1`.
    InvalidIdentifier,
}

/// The mathematical model of a [`CompileError`].
pub enum SpecCompileError {
    UnboundVariable(Seq<char>),
    DuplicateBinding,
    InvalidIdentifier,
}

impl View for CompileError {
    type V = SpecCompileError;

    open spec fn view(&self) -> SpecCompileError {
        match self {
            CompileError::UnboundVariable(x) => SpecCompileError::UnboundVariable(x@),
            CompileError::DuplicateBinding => SpecCompileError::DuplicateBinding,
            CompileError::InvalidIdentifier => SpecCompileError::InvalidIdentifier,
        }
    }
}

/// Parses each binding of `s` in order; the first error stops it.
pub open spec fn parse_binds_spec(s: Seq<SpecSExpr>) -> Result<Seq<(Seq<char>, SpecExpr)>, ParseError>
    decreases s, 0int,
{
    if s.len() == 0 {
        Ok(Seq::empty())
    } else {
        match parse_binds_spec(s.drop_last()) {
            Err(e) => Err(e),
            Ok(v) => match parse_bind_spec(s.last()) {
                Err(e) => Err(e),
                Ok(b) => Ok(v.push(b)),
            },
        }
    }
}

/// A binding is a list of a name and an expression.
pub open spec fn parse_bind_spec(s: SpecSExpr) -> Result<(Seq<char>, SpecExpr), ParseError>
    decreases s, 1int,
{
    match s {
        SpecSExpr::List(l) => if l.len() == 2 && atom_word(l[0]) is Some {
            match parse_spec(l[1]) {
                Err(e) => Err(e),
                Ok(e) => Ok((atom_word(l[0])->0, e)),
            }
        } else {
            Err(ParseError::InvalidBind)
        },
        _ => Err(ParseError::InvalidBind),
    }
}

/// The binary operator that a word names.
pub open spec fn binop_of(op: Seq<char>) -> Option<Op2> {
    if op == "+"@ {
        Some(Op2::Plus)
    } else if op == "-"@ {
        Some(Op2::Minus)
    } else if op == "*"@ {
        Some(Op2::Times)
    } else {
        None
    }
}

/// What an s-expression parses to: the grammar of the language.
pub open spec fn parse_spec(s: SpecSExpr) -> Result<SpecExpr, ParseError>
    decreases s, 2int,
{
    match s {
        SpecSExpr::Atom(SpecAtom::I(n)) => if i32::MIN <= n <= i32::MAX {
            Ok(SpecExpr::Number(n as i32))
        } else {
            Err(ParseError::NumberOutOfRange)
        },
        SpecSExpr::Atom(SpecAtom::S(x)) => Ok(SpecExpr::Id(x)),
        SpecSExpr::Atom(SpecAtom::F(_)) => Err(ParseError::InvalidSexp),
        SpecSExpr::List(l) => if l.len() == 0 || atom_word(l[0]) is None {
            Err(ParseError::InvalidSexp)
        } else {
            let op = atom_word(l[0])->0;
            if l.len() == 2 && (op == "add1"@ || op == "sub1"@) {
                match parse_spec(l[1]) {
                    Err(e) => Err(e),
                    Ok(a) => Ok(SpecExpr::UnOp(if op == "add1"@ { Op1::Add1 } else { Op1::Sub1 }, Box::new(a))),
                }
            } else if l.len() == 3 && binop_of(op) is Some {
                match parse_spec(l[1]) {
                    Err(e) => Err(e),
                    Ok(a) => match parse_spec(l[2]) {
                        Err(e) => Err(e),
                        Ok(b) => Ok(SpecExpr::BinOp(binop_of(op)->0, Box::new(a), Box::new(b))),
                    },
                }
            } else if l.len() == 3 && op == "let"@ && l[1] is List {
                let bs = l[1]->List_0;
                if bs.len() == 0 {
                    Err(ParseError::NoBindingLet)
                } else {
                    match parse_binds_spec(bs) {
                        Err(e) => Err(e),
                        Ok(v) => match parse_spec(l[2]) {
                            Err(e) => Err(e),
                            Ok(body) => Ok(SpecExpr::Let(v, Box::new(body))),
                        },
                    }
                }
            } else {
                Err(ParseError::InvalidSexp)
            }
        },
    }
}

pub open spec fn view_parse(r: Result<Expr, ParseError>) -> Result<SpecExpr, ParseError> {
    match r {
        Ok(e) => Ok(e@),
        Err(e) => Err(e),
    }
}

pub open spec fn view_parse_bind(r: Result<(String, Expr), ParseError>) -> Result<(Seq<char>, SpecExpr), ParseError> {
    match r {
        Ok(b) => Ok((b.0@, b.1@)),
        Err(e) => Err(e),
    }
}

pub open spec fn view_parse_binds(r: Result<Vec<(String, Expr)>, ParseError>) -> Result<Seq<(Seq<char>, SpecExpr)>, ParseError> {
    match r {
        Ok(v) => Ok(view_binds(v@)),
        Err(e) => Err(e),
    }
}

proof fn lemma_parse_binds_prefix_err(s: Seq<SpecSExpr>, k: int)
    requires
        0 <= k <= s.len(),
        parse_binds_spec(s.take(k)) is Err,
    ensures
        parse_binds_spec(s) == parse_binds_spec(s.take(k)),
    decreases s.len(),
{
    if k == s.len() {
        assert(s.take(k) =~= s);
    } else {
        assert(s.drop_last().take(k) =~= s.take(k));
        lemma_parse_binds_prefix_err(s.drop_last(), k);
    }
}

fn binop_word(op: &str) -> (r: Option<Op2>)
    ensures
        r == binop_of(op@),
{
    if str_eq(op, "+") {
        Some(Op2::Plus)
    } else if str_eq(op, "-") {
        Some(Op2::Minus)
    } else if str_eq(op, "*") {
        Some(Op2::Times)
    } else {
        None
    }
}

/// Parses the bindings of a `let`, the elements of the list `b`.
fn parse_binds(b: &SExpr, bindings: &Vec<SExpr>) -> (r: Result<Vec<(String, Expr)>, ParseError>)
    requires
        b matches SExpr::List(v) && v == bindings,
    ensures
        view_parse_binds(r) == parse_binds_spec(view_sexps(bindings@)),
    decreases b, 0int,
{
    let ghost bv = view_sexps(bindings@);
    let mut pairs: Vec<(String, Expr)> = Vec::new();
    let mut j: usize = 0;
    assert(bv.take(0) =~= Seq::<SpecSExpr>::empty());
    while j < bindings.len()
        invariant
            b matches SExpr::List(v) && v == bindings,
            bv == view_sexps(bindings@),
            j <= bindings@.len(),
            parse_binds_spec(bv.take(j as int)) == Ok::<Seq<(Seq<char>, SpecExpr)>, ParseError>(view_binds(pairs@)),
        decreases bindings.len() - j,
    {
        let ghost before = pairs@;
        let r = read_bind(&bindings[j]);
        assert(bv.take(j + 1).drop_last() =~= bv.take(j as int));
        assert(bv.take(j + 1).last() == bv[j as int]);
        match r {
            Err(e) => {
                proof { lemma_parse_binds_prefix_err(bv, j + 1); }
                return Err(e);
            },
            Ok(p) => {
                pairs.push(p);
                assert(pairs@.drop_last() =~= before);
            },
        }
        j = j + 1;
    }
    assert(bv.take(bindings@.len() as int) =~= bv);
    Ok(pairs)
}

/// Parses a binding: a list of a name and an expression.
fn read_bind(s: &SExpr) -> (r: Result<(String, Expr), ParseError>)
    ensures
        view_parse_bind(r) == parse_bind_spec(s@),
    decreases s, 1int,
{
    match s {
        SExpr::List(v) => {
            let ghost dv = view_sexps(v@);
            assert(s@ == SpecSExpr::List(dv));
            if v.len() == 2 {
                if let Some(var) = word_of(&v[0]) {
                    let e = read_expr(&v[1])?;
                    let mut name = String::new();
                    name.append(var);
                    assert(name@ =~= var@);
                    return Ok((name, e));
                }
            }
            Err(ParseError::InvalidBind)
        },
        _ => Err(ParseError::InvalidBind),
    }
}

/// Parses an s-expression into an expression.
fn read_expr(s: &SExpr) -> (r: Result<Expr, ParseError>)
    ensures
        view_parse(r) == parse_spec(s@),
    decreases s, 1int,
{
    match s {
        SExpr::Atom(SAtom::I(n)) => {
            if -2147483648 <= *n && *n <= 2147483647 {
                Ok(Expr::Number(*n as i32))
            } else {
                Err(ParseError::NumberOutOfRange)
            }
        },
        SExpr::Atom(SAtom::S(x)) => Ok(Expr::Id(x.clone())),
        SExpr::Atom(SAtom::F(_)) => Err(ParseError::InvalidSexp),
        SExpr::List(l) => {
            let ghost v = view_sexps(l@);
            assert(s@ == SpecSExpr::List(v));
            let n = l.len();
            if n == 0 {
                return Err(ParseError::InvalidSexp);
            }
            let op = match word_of(&l[0]) {
                Some(op) => op,
                None => return Err(ParseError::InvalidSexp),
            };
            if n == 2 {
                if str_eq(op, "add1") {
                    let a = read_expr(&l[1])?;
                    return Ok(Expr::UnOp(Op1::Add1, Box::new(a)));
                }
                if str_eq(op, "sub1") {
                    let a = read_expr(&l[1])?;
                    return Ok(Expr::UnOp(Op1::Sub1, Box::new(a)));
                }
            }
            if n == 3 {
                if let Some(o) = binop_word(op) {
                    let a = read_expr(&l[1])?;
                    let b = read_expr(&l[2])?;
                    return Ok(Expr::BinOp(o, Box::new(a), Box::new(b)));
                }
                if str_eq(op, "let") {
                    if let SExpr::List(bs) = &l[1] {
                        if bs.len() == 0 {
                            return Err(ParseError::NoBindingLet);
                        }
                        let pairs = parse_binds(&l[1], bs)?;
                        let body = read_expr(&l[2])?;
                        return Ok(Expr::Let(pairs, Box::new(body)));
                    }
                }
            }
            Err(ParseError::InvalidSexp)
        },
    }
}

/// Whether `s` is an expression: `Ok` exactly where [`parse_spec`] parses
/// it, else the [`ParseError`] for its first fault, which the compiler
/// stops with.
pub fn check_expr(s: &SExpr) -> (r: Result<(), ParseError>)
    ensures
        r == (match parse_spec(s@) {
            Ok(_) => Ok::<(), ParseError>(()),
            Err(e) => Err(e),
        }),
{
    match read_expr(s) {
        Ok(_) => Ok(()),
        Err(e) => Err(e),
    }
}

/// Parses an s-expression into an expression: what [`parse_spec`] gives.
/// It takes only what [`check_expr`] passes.
pub fn parse_expr(s: &SExpr) -> (r: Expr)
    requires
        parse_spec(s@) is Ok,
    ensures
        r@ == parse_spec(s@)->Ok_0,
{
    match read_expr(s) {
        Ok(e) => e,
        Err(_) => {
            proof {
                assert(false);
            }
            Expr::Number(0)
        },
    }
}

/// Whether `s` is a binding of a `let`: `Ok` exactly where
/// [`parse_bind_spec`] parses it, else the [`ParseError`] for its first
/// fault.
pub fn check_bind(s: &SExpr) -> (r: Result<(), ParseError>)
    ensures
        r == (match parse_bind_spec(s@) {
            Ok(_) => Ok::<(), ParseError>(()),
            Err(e) => Err(e),
        }),
{
    match read_bind(s) {
        Ok(_) => Ok(()),
        Err(e) => Err(e),
    }
}

/// Parses a binding of a `let`: a list of a name and an expression, as
/// [`parse_bind_spec`] gives it. It takes only what [`check_bind`] passes.
pub fn parse_bind(s: &SExpr) -> (r: (String, Expr))
    requires
        parse_bind_spec(s@) is Ok,
    ensures
        (r.0@, r.1@) == parse_bind_spec(s@)->Ok_0,
{
    match read_bind(s) {
        Ok(b) => b,
        Err(_) => {
            proof {
                assert(false);
            }
            (String::new(), Expr::Number(0))
        },
    }
}

/// The largest stack index that compilation reaches: stack offsets, eight
/// bytes per index, must fit in an `i32`.
pub open spec fn max_stack_index() -> int {
    0x0fff_ffff
}

/// The stack slot of index `i`.
pub open spec fn stk(i: int) -> Val {
    Val::RegOffset(Reg::RSP, (i * 8) as i32)
}

pub open spec fn rax() -> Val {
    Val::Reg(Reg::RAX)
}

/// Every stack index that an environment holds is within the bounds that
/// compilation keeps.
pub open spec fn env_in_bounds(env: Map<Seq<char>, i32>) -> bool {
    forall|x: Seq<char>| #[trigger] env.contains_key(x) ==> -max_stack_index() <= env[x] <= max_stack_index()
}

/// Compiles the bindings of a `let` in order. A name that the outer
/// environment binds keeps its slot; any other gets the next stack slot.
/// Each binding sees the outer environment and the bindings before it.
/// Gives the instructions, the new bindings and the next stack index.
pub open spec fn compile_binds_spec(bs: Seq<(Seq<char>, SpecExpr)>, si: int, env: Map<Seq<char>, i32>) -> Result<
    (Seq<Instr>, Map<Seq<char>, i32>, int),
    SpecCompileError,
>
    decreases bs, 0int,
{
    if bs.len() == 0 {
        Ok((Seq::empty(), Map::empty(), si))
    } else {
        match compile_binds_spec(bs.drop_last(), si, env) {
            Err(x) => Err(x),
            Ok((i1, ne, si1)) => {
                let x = bs.last().0;
                if ne.contains_key(x) {
                    Err(SpecCompileError::DuplicateBinding)
                } else if x == "let"@ || x == "add1"@ || x == "sub1"@ {
                    Err(SpecCompileError::InvalidIdentifier)
                } else {
                    match compile_spec(bs.last().1, si1, env.union_prefer_right(ne)) {
                        Err(y) => Err(y),
                        Ok(i2) => if !env.contains_key(x) {
                            Ok((i1 + i2 + seq![Instr::IMov(stk(si1), rax())], ne.insert(x, si1 as i32), si1 + 1))
                        } else {
                            Ok((i1 + i2 + seq![Instr::IMov(stk(env[x] as int), rax())], ne.insert(x, env[x]), si1))
                        },
                    }
                }
            },
        }
    }
}

/// What compiling `e` emits, with stack index `si` and the environment
/// `env` from names to stack indexes.
pub open spec fn compile_spec(e: SpecExpr, si: int, env: Map<Seq<char>, i32>) -> Result<Seq<Instr>, SpecCompileError>
    decreases e, 1int,
{
    match e {
        SpecExpr::Number(n) => Ok(seq![Instr::IMov(rax(), Val::Imm(n))]),
        SpecExpr::Id(x) => if env.contains_key(x) {
            Ok(seq![Instr::IMov(rax(), stk(env[x] as int))])
        } else {
            Err(SpecCompileError::UnboundVariable(x))
        },
        SpecExpr::Let(bs, body) => match compile_binds_spec(bs, si, env) {
            Err(x) => Err(x),
            Ok((i1, ne, si1)) => match compile_spec(*body, si1, env.union_prefer_right(ne)) {
                Err(x) => Err(x),
                Ok(i2) => Ok(i1 + i2),
            },
        },
        SpecExpr::UnOp(op, a) => match compile_spec(*a, si, env) {
            Err(x) => Err(x),
            Ok(i1) => Ok(i1 + seq![
                match op {
                    Op1::Add1 => Instr::IAdd(rax(), Val::Imm(1)),
                    Op1::Sub1 => Instr::ISub(rax(), Val::Imm(1)),
                },
            ]),
        },
        SpecExpr::BinOp(op, a, b) => match compile_spec(*b, si, env) {
            Err(x) => Err(x),
            Ok(i1) => match compile_spec(*a, si + 1, env) {
                Err(x) => Err(x),
                Ok(i2) => Ok(i1 + seq![Instr::IMov(stk(si), rax())] + i2 + seq![
                    match op {
                        Op2::Minus => Instr::ISub(rax(), stk(si)),
                        Op2::Plus => Instr::IAdd(rax(), stk(si)),
                        Op2::Times => Instr::IMul(rax(), stk(si)),
                    },
                ]),
            },
        },
    }
}

/// The number of nodes of an expression, with one more per binding.
pub open spec fn expr_size(e: SpecExpr) -> nat
    decreases e, 1int,
{
    match e {
        SpecExpr::Let(bs, body) => 1 + binds_size(bs) + expr_size(*body),
        SpecExpr::UnOp(_, a) => 1 + expr_size(*a),
        SpecExpr::BinOp(_, a, b) => 1 + expr_size(*a) + expr_size(*b),
        _ => 1,
    }
}

pub open spec fn binds_size(bs: Seq<(Seq<char>, SpecExpr)>) -> nat
    decreases bs, 0int,
{
    if bs.len() == 0 {
        0
    } else {
        binds_size(bs.drop_last()) + 1 + expr_size(bs.last().1)
    }
}

proof fn lemma_binds_size_take(bs: Seq<(Seq<char>, SpecExpr)>, k: int)
    requires
        0 < k <= bs.len(),
    ensures
        binds_size(bs.take(k)) == binds_size(bs.take(k - 1)) + 1 + expr_size(bs[k - 1].1),
        binds_size(bs.take(k)) <= binds_size(bs),
    decreases bs.len(),
{
    assert(bs.take(k).drop_last() =~= bs.take(k - 1));
    if k < bs.len() {
        lemma_binds_size_take(bs.drop_last(), k);
        assert(bs.drop_last().take(k) =~= bs.take(k));
        assert(bs.drop_last().take(k - 1) =~= bs.take(k - 1));
    } else {
        assert(bs.take(k) =~= bs);
    }
}

proof fn lemma_binds_prefix_err(bs: Seq<(Seq<char>, SpecExpr)>, k: int, si: int, env: Map<Seq<char>, i32>)
    requires
        0 <= k <= bs.len(),
        compile_binds_spec(bs.take(k), si, env) is Err,
    ensures
        compile_binds_spec(bs, si, env) == compile_binds_spec(bs.take(k), si, env),
    decreases bs.len(),
{
    if k == bs.len() {
        assert(bs.take(k) =~= bs);
    } else {
        assert(bs.drop_last().take(k) =~= bs.take(k));
        lemma_binds_prefix_err(bs.drop_last(), k, si, env);
    }
}

pub open spec fn view_compiled(r: Result<Vec<Instr>, CompileError>) -> Result<Seq<Instr>, SpecCompileError> {
    match r {
        Ok(v) => Ok(v@),
        Err(x) => Err(x@),
    }
}

/// Compiles `e` into instructions, with stack index `si` and the
/// environment `env` from names to stack indexes, or gives the
/// [`CompileError`] for the first fault: [`compile_spec`].
fn compile_checked(e: &Expr, si: i32, env: &Env) -> (r: Result<Vec<Instr>, CompileError>)
    requires
        0 <= si,
        si + expr_size(e@) <= max_stack_index(),
        env_in_bounds(env_contents(*env)),
    ensures
        view_compiled(r) == compile_spec(e@, si as int, env_contents(*env)),
    decreases e,
{
    let ghost envm = env_contents(*env);
    match e {
        Expr::Number(n) => {
            let mut t: Vec<Instr> = Vec::new();
            t.push(Instr::IMov(Val::Reg(Reg::RAX), Val::Imm(*n)));
            assert(t@ =~= seq![Instr::IMov(rax(), Val::Imm(*n))]);
            Ok(t)
        },
        Expr::Id(s) => match env_get(env, s.as_str()) {
            Some(o) => {
                let mut t: Vec<Instr> = Vec::new();
                t.push(Instr::IMov(Val::Reg(Reg::RAX), Val::RegOffset(Reg::RSP, o * 8)));
                assert(t@ =~= seq![Instr::IMov(rax(), stk(o as int))]);
                Ok(t)
            },
            None => Err(CompileError::UnboundVariable(s.clone())),
        },
        Expr::UnOp(op, a) => {
            let mut t = compile_checked(a, si, env)?;
            let ghost i1 = t@;
            let i = match op {
                Op1::Add1 => Instr::IAdd(Val::Reg(Reg::RAX), Val::Imm(1)),
                Op1::Sub1 => Instr::ISub(Val::Reg(Reg::RAX), Val::Imm(1)),
            };
            t.push(i);
            assert(t@ =~= i1 + seq![i]);
            Ok(t)
        },
        Expr::BinOp(op, a, b) => {
            let mut t = compile_checked(b, si, env)?;
            let ghost i0 = t@;
            t.push(Instr::IMov(Val::RegOffset(Reg::RSP, si * 8), Val::Reg(Reg::RAX)));
            let ghost i1 = t@;
            assert(i1 =~= i0 + seq![Instr::IMov(stk(si as int), rax())]);
            let mut t2 = compile_checked(a, si + 1, env)?;
            let ghost i2 = t2@;
            t.append(&mut t2);
            let i = match op {
                Op2::Minus => Instr::ISub(Val::Reg(Reg::RAX), Val::RegOffset(Reg::RSP, si * 8)),
                Op2::Plus => Instr::IAdd(Val::Reg(Reg::RAX), Val::RegOffset(Reg::RSP, si * 8)),
                Op2::Times => Instr::IMul(Val::Reg(Reg::RAX), Val::RegOffset(Reg::RSP, si * 8)),
            };
            t.push(i);
            assert(t@ =~= i1 + i2 + seq![i]);
            Ok(t)
        },
        Expr::Let(binds, body) => {
            let ghost bs = view_binds(binds@);
            assert(e@ == SpecExpr::Let(bs, Box::new(body@)));
            let mut newenv = env_new();
            let mut t: Vec<Instr> = Vec::new();
            let mut cur = si;
            let mut k: usize = 0;
            assert(bs.take(0) =~= Seq::<(Seq<char>, SpecExpr)>::empty());
            while k < binds.len()
                invariant
                    e matches Expr::Let(v, _) && v == binds,
                    bs == view_binds(binds@),
                    envm == env_contents(*env),
                    env_in_bounds(envm),
                    0 <= si,
                    si + expr_size(e@) <= max_stack_index(),
                    expr_size(e@) == 1 + binds_size(bs) + expr_size(body@),
                    k <= binds@.len(),
                    si <= cur <= si + binds_size(bs.take(k as int)),
                    compile_binds_spec(bs.take(k as int), si as int, envm) == Ok::<(Seq<Instr>, Map<Seq<char>, i32>, int), SpecCompileError>(
                        (t@, env_contents(newenv), cur as int)),
                    forall|x: Seq<char>| #[trigger] env_contents(newenv).contains_key(x) && envm.contains_key(x)
                        ==> env_contents(newenv)[x] == envm[x],
                    env_in_bounds(env_contents(newenv)),
                    binds_size(bs.take(k as int)) <= binds_size(bs),
                decreases binds.len() - k,
            {
                let ghost ne = env_contents(newenv);
                proof {
                    lemma_view_binds(binds@);
                    lemma_view_binds_index(binds@, k as int);
                    assert(bs.take(k + 1).drop_last() =~= bs.take(k as int));
                    assert(bs.take(k + 1).last() == bs[k as int]);
                    lemma_binds_size_take(bs, k + 1);
                }
                let (x, ex) = &binds[k];
                if env_get(&newenv, x.as_str()).is_some() {
                    proof { lemma_binds_prefix_err(bs, k + 1, si as int, envm); }
                    return Err(CompileError::DuplicateBinding);
                }
                if str_eq(x.as_str(), "let") || str_eq(x.as_str(), "add1") || str_eq(x.as_str(), "sub1") {
                    proof { lemma_binds_prefix_err(bs, k + 1, si as int, envm); }
                    return Err(CompileError::InvalidIdentifier);
                }
                let merged = env_union(env_clone(&newenv), env_clone(env));
                proof {
                    lemma_im_union_agreeing(ne, envm);
                    assert(env_contents(merged) == envm.union_prefer_right(ne));
                    assert(env_in_bounds(env_contents(merged)));
                }
                let mut t2 = match compile_checked(ex, cur, &merged) {
                    Ok(t2) => t2,
                    Err(y) => {
                        proof { lemma_binds_prefix_err(bs, k + 1, si as int, envm); }
                        return Err(y);
                    },
                };
                let ghost before = t@;
                let ghost is = t2@;
                t.append(&mut t2);
                match env_get(env, x.as_str()) {
                    None => {
                        newenv = env_update(&newenv, x.clone(), cur);
                        t.push(Instr::IMov(Val::RegOffset(Reg::RSP, cur * 8), Val::Reg(Reg::RAX)));
                        assert(t@ =~= before + is + seq![Instr::IMov(stk(cur as int), rax())]);
                        cur = cur + 1;
                    },
                    Some(o) => {
                        t.push(Instr::IMov(Val::RegOffset(Reg::RSP, o * 8), Val::Reg(Reg::RAX)));
                        newenv = env_update(&newenv, x.clone(), o);
                        assert(t@ =~= before + is + seq![Instr::IMov(stk(o as int), rax())]);
                    },
                }
                k = k + 1;
            }
            proof { lemma_view_binds(binds@); }
            assert(bs.take(binds@.len() as int) =~= bs);
            let ghost ne = env_contents(newenv);
            let merged = env_union(newenv, env_clone(env));
            proof {
                lemma_im_union_agreeing(ne, envm);
                assert(env_contents(merged) == envm.union_prefer_right(ne));
                assert(env_in_bounds(env_contents(merged)));
            }
            let ghost i1 = t@;
            let mut t2 = compile_checked(body, cur, &merged)?;
            let ghost i2 = t2@;
            t.append(&mut t2);
            assert(t@ =~= i1 + i2);
            Ok(t)
        },
    }
}

/// Whether `e` compiles with stack index `si` and the environment `env`:
/// `Ok` exactly where [`compile_spec`] succeeds, else the [`CompileError`]
/// for the first fault (an unbound name, a duplicate binding, a binding of
/// `let`, `add1` or `sub1`), whose [`CompileError::message`] the compiler
/// stops with.
pub fn check_compile(e: &Expr, si: i32, env: &Env) -> (r: Result<(), CompileError>)
    requires
        0 <= si,
        si + expr_size(e@) <= max_stack_index(),
        env_in_bounds(env_contents(*env)),
    ensures
        (r is Ok) == (compile_spec(e@, si as int, env_contents(*env)) is Ok),
        r matches Err(x) ==> compile_spec(e@, si as int, env_contents(*env)) == Err::<
            Seq<Instr>,
            SpecCompileError,
        >(x@),
{
    match compile_checked(e, si, env) {
        Ok(_) => Ok(()),
        Err(x) => Err(x),
    }
}

/// Compiles `e` into instructions, with stack index `si` and the
/// environment `env` from names to stack indexes: what [`compile_spec`]
/// gives. It takes only what [`check_compile`] passes.
pub fn compile_to_instrs(e: &Expr, si: i32, env: &Env) -> (r: Vec<Instr>)
    requires
        0 <= si,
        si + expr_size(e@) <= max_stack_index(),
        env_in_bounds(env_contents(*env)),
        compile_spec(e@, si as int, env_contents(*env)) is Ok,
    ensures
        Ok::<Seq<Instr>, SpecCompileError>(r@) == compile_spec(e@, si as int, env_contents(*env)),
{
    match compile_checked(e, si, env) {
        Ok(t) => t,
        Err(_) => {
            proof {
                assert(false);
            }
            Vec::new()
        },
    }
}

/// The assembly name of a register.
pub open spec fn reg_text(r: Reg) -> Seq<char> {
    match r {
        Reg::RAX => "rax"@,
        Reg::RSP => "rsp"@,
    }
}

/// An operand that has assembly text: a memory slot only below rsp.
pub open spec fn printable_val(v: Val) -> bool {
    !(v matches Val::RegOffset(r, _) && r == Reg::RAX)
}

/// The assembly text of a printable operand.
pub open spec fn val_text(v: Val) -> Seq<char> {
    match v {
        Val::Reg(r) => reg_text(r),
        Val::Imm(i) => int_decimal(i as int),
        Val::RegOffset(_, o) => "[rsp-"@ + int_decimal(o as int) + "]"@,
    }
}

/// The assembly text of an operand.
pub fn val_to_str(v: &Val) -> (s: String)
    requires
        printable_val(*v),
    ensures
        s@ == val_text(*v),
{
    let mut s = String::new();
    match v {
        Val::Reg(Reg::RAX) => {
            proof { reveal_strlit("rax"); }
            s.append("rax");
        },
        Val::Reg(Reg::RSP) => {
            proof { reveal_strlit("rsp"); }
            s.append("rsp");
        },
        Val::Imm(i) => {
            push_i64_decimal(&mut s, *i as i64);
        },
        Val::RegOffset(_, offset) => {
            proof {
                reveal_strlit("[rsp-");
                reveal_strlit("]");
            }
            s.append("[rsp-");
            push_i64_decimal(&mut s, *offset as i64);
            s.append("]");
        },
    }
    assert(s@ =~= val_text(*v));
    s
}

/// An instruction that has assembly text: both operands do.
pub open spec fn printable(i: Instr) -> bool {
    match i {
        Instr::IMov(a, b) | Instr::IAdd(a, b) | Instr::ISub(a, b) | Instr::IMul(a, b) => printable_val(a)
            && printable_val(b),
    }
}

/// The assembly text of an instruction: a line break, then the instruction.
pub open spec fn instr_text(i: Instr) -> Seq<char> {
    match i {
        Instr::IMov(a, b) => "\nmov "@ + val_text(a) + ", "@ + val_text(b),
        Instr::IAdd(a, b) => "\nadd "@ + val_text(a) + ", "@ + val_text(b),
        Instr::ISub(a, b) => "\nsub "@ + val_text(a) + ", "@ + val_text(b),
        Instr::IMul(a, b) => "\nimul "@ + val_text(a) + ", "@ + val_text(b),
    }
}

/// The assembly text of an instruction.
pub fn instr_to_str(i: &Instr) -> (s: String)
    requires
        printable(*i),
    ensures
        s@ == instr_text(*i),
{
    let (name, a, b) = match i {
        Instr::IMov(a, b) => {
            proof { reveal_strlit("\nmov "); }
            ("\nmov ", a, b)
        },
        Instr::IAdd(a, b) => {
            proof { reveal_strlit("\nadd "); }
            ("\nadd ", a, b)
        },
        Instr::ISub(a, b) => {
            proof { reveal_strlit("\nsub "); }
            ("\nsub ", a, b)
        },
        Instr::IMul(a, b) => {
            proof { reveal_strlit("\nimul "); }
            ("\nimul ", a, b)
        },
    };
    let mut s = String::new();
    s.append(name);
    let t = val_to_str(a);
    s.append(t.as_str());
    proof { reveal_strlit(", "); }
    s.append(", ");
    let u = val_to_str(b);
    s.append(u.as_str());
    assert(s@ =~= instr_text(*i));
    s
}

/// The text of a sequence of instructions: the text of each in turn.
pub open spec fn instrs_text(is: Seq<Instr>) -> Seq<char>
    decreases is.len(),
{
    if is.len() == 0 {
        Seq::empty()
    } else {
        instrs_text(is.drop_last()) + instr_text(is.last())
    }
}

/// Every instruction that compiling emits has assembly text.
pub proof fn lemma_compile_printable(e: SpecExpr, si: int, env: Map<Seq<char>, i32>)
    requires
        compile_spec(e, si, env) is Ok,
    ensures
        forall|k: int| 0 <= k < compile_spec(e, si, env)->Ok_0.len() ==> #[trigger] printable(compile_spec(e, si, env)->Ok_0[k]),
    decreases e, 1int,
{
    match e {
        SpecExpr::Let(bs, body) => {
            let (i1, ne, si1) = compile_binds_spec(bs, si, env)->Ok_0;
            lemma_binds_printable(bs, si, env);
            lemma_compile_printable(*body, si1, env.union_prefer_right(ne));
        },
        SpecExpr::UnOp(_, a) => {
            lemma_compile_printable(*a, si, env);
        },
        SpecExpr::BinOp(_, a, b) => {
            lemma_compile_printable(*b, si, env);
            lemma_compile_printable(*a, si + 1, env);
        },
        _ => {},
    }
}

proof fn lemma_binds_printable(bs: Seq<(Seq<char>, SpecExpr)>, si: int, env: Map<Seq<char>, i32>)
    requires
        compile_binds_spec(bs, si, env) is Ok,
    ensures
        forall|k: int| 0 <= k < compile_binds_spec(bs, si, env)->Ok_0.0.len() ==> #[trigger] printable(
            compile_binds_spec(bs, si, env)->Ok_0.0[k],
        ),
    decreases bs, 0int,
{
    if bs.len() > 0 {
        let (i1, ne, si1) = compile_binds_spec(bs.drop_last(), si, env)->Ok_0;
        lemma_binds_printable(bs.drop_last(), si, env);
        lemma_compile_printable(bs.last().1, si1, env.union_prefer_right(ne));
    }
}

/// Compiles an expression: the text of its instructions, from stack index 2
/// and an empty environment. It takes only what [`check_compile`] passes
/// there.
pub fn compile(e: &Expr) -> (r: String)
    requires
        2 + expr_size(e@) <= max_stack_index(),
        compile_spec(e@, 2, Map::empty()) is Ok,
    ensures
        r@ == instrs_text(compile_spec(e@, 2, Map::empty())->Ok_0),
{
    let env = env_new();
    assert(env_in_bounds(env_contents(env)));
    assert(env_contents(env) == Map::<Seq<char>, i32>::empty());
    let instrs = compile_to_instrs(e, 2, &env);
    proof {
        lemma_compile_printable(e@, 2, Map::empty());
        assert(instrs@ == compile_spec(e@, 2, Map::empty())->Ok_0);
        assert forall|k: int| 0 <= k < instrs@.len() implies #[trigger] printable(instrs@[k]) by {
            assert(printable(compile_spec(e@, 2, Map::empty())->Ok_0[k]));
        }
    }
    let mut result = String::new();
    let mut i: usize = 0;
    assert(instrs@.take(0) =~= Seq::<Instr>::empty());
    while i < instrs.len()
        invariant
            i <= instrs@.len(),
            forall|k: int| 0 <= k < instrs@.len() ==> #[trigger] printable(instrs@[k]),
            result@ == instrs_text(instrs@.take(i as int)),
        decreases instrs.len() - i,
    {
        let t = instr_to_str(&instrs[i]);
        result.append(t.as_str());
        assert(instrs@.take(i + 1).drop_last() =~= instrs@.take(i as int));
        i = i + 1;
    }
    assert(instrs@.take(instrs@.len() as int) =~= instrs@);
    result
}

/// The size of `e` (see [`expr_size`]), if it is at most `budget`.
pub fn count_nodes(e: &Expr, budget: u64) -> (r: Option<u64>)
    ensures
        match r {
            Some(n) => n == expr_size(e@) && n <= budget,
            None => expr_size(e@) > budget,
        },
    decreases e,
{
    if budget == 0 {
        return None;
    }
    let inner = budget - 1;
    let used: u64 = match e {
        Expr::Let(binds, body) => {
            let ghost bs = view_binds(binds@);
            let mut total: u64 = 0;
            let mut k: usize = 0;
            assert(bs.take(0) =~= Seq::<(Seq<char>, SpecExpr)>::empty());
            while k < binds.len()
                invariant
                    e matches Expr::Let(b, _) && b == binds,
                    inner + 1 == budget,
                    bs == view_binds(binds@),
                    k <= binds@.len(),
                    total == binds_size(bs.take(k as int)),
                    total <= inner,
                decreases binds.len() - k,
            {
                proof {
                    lemma_view_binds(binds@);
                    lemma_view_binds_index(binds@, k as int);
                    lemma_binds_size_take(bs, k + 1);
                }
                if total == inner {
                    return None;
                }
                match count_nodes(&binds[k].1, inner - total - 1) {
                    Some(n) => total = total + 1 + n,
                    None => return None,
                }
                k = k + 1;
            }
            proof { lemma_view_binds(binds@); }
            assert(bs.take(binds@.len() as int) =~= bs);
            match count_nodes(body, inner - total) {
                Some(n) => total + n,
                None => return None,
            }
        },
        Expr::UnOp(_, a) => match count_nodes(a, inner) {
            Some(n) => n,
            None => return None,
        },
        Expr::BinOp(_, a, b) => {
            let n = match count_nodes(a, inner) {
                Some(n) => n,
                None => return None,
            };
            match count_nodes(b, inner - n) {
                Some(m) => n + m,
                None => return None,
            }
        },
        _ => 0,
    };
    Some(used + 1)
}

/// Why a program's text does not compile.
#[derive(Debug)]
pub enum ProgramError {
    Parse(ParseError),
    Compile(CompileError),
    /// The expression has more nodes than the compiler takes: a bound on its
    /// size that keeps every stack offset within its integer type.
    TooLarge,
}

/// The mathematical model of a [`ProgramError`].
pub enum SpecProgramError {
    Parse(ParseError),
    Compile(SpecCompileError),
    TooLarge,
}

impl View for ProgramError {
    type V = SpecProgramError;

    open spec fn view(&self) -> SpecProgramError {
        match self {
            ProgramError::Parse(e) => SpecProgramError::Parse(*e),
            ProgramError::Compile(e) => SpecProgramError::Compile(e@),
            ProgramError::TooLarge => SpecProgramError::TooLarge,
        }
    }
}

/// The assembly file around the code of the expression.
pub open spec fn asm_file(main: Seq<char>) -> Seq<char> {
    "\nsection .text\nglobal our_code_starts_here\nour_code_starts_here:\n  "@ + main + "\n  ret\n"@
}

/// What the compiler writes for a program's text.
pub open spec fn program_spec(text: Seq<char>) -> Result<Seq<char>, SpecProgramError> {
    match sexp_parse(text) {
        Err(_) => Err(SpecProgramError::Parse(ParseError::InvalidSexp)),
        Ok(sx) => match parse_spec(sx) {
            Err(e) => Err(SpecProgramError::Parse(e)),
            Ok(e) => if 2 + expr_size(e) > max_stack_index() {
                Err(SpecProgramError::TooLarge)
            } else {
                match compile_spec(e, 2, Map::empty()) {
                    Err(x) => Err(SpecProgramError::Compile(x)),
                    Ok(is) => Ok(asm_file(instrs_text(is))),
                }
            },
        },
    }
}

pub open spec fn view_program(r: Result<String, ProgramError>) -> Result<Seq<char>, SpecProgramError> {
    match r {
        Ok(s) => Ok(s@),
        Err(e) => Err(e@),
    }
}

/// Compiles a program's text into the assembly file; see [`program_spec`].
pub fn compile_program(text: &str) -> (r: Result<String, ProgramError>)
    ensures
        view_program(r) == program_spec(text@),
{
    let expr = match read_sexp(text) {
        Ok(parsed) => match check_expr(&parsed) {
            Ok(()) => parse_expr(&parsed),
            Err(e) => return Err(ProgramError::Parse(e)),
        },
        Err(_) => return Err(ProgramError::Parse(ParseError::InvalidSexp)),
    };
    let fits = match count_nodes(&expr, 0x0fff_ffff) {
        Some(m) => m <= 0x0fff_fffd,
        None => false,
    };
    if !fits {
        return Err(ProgramError::TooLarge);
    }
    let env = env_new();
    assert(env_contents(env) == Map::<Seq<char>, i32>::empty());
    if let Err(x) = check_compile(&expr, 2, &env) {
        return Err(ProgramError::Compile(x));
    }
    let result = compile(&expr);
    let mut out = String::new();
    proof {
        reveal_strlit("\nsection .text\nglobal our_code_starts_here\nour_code_starts_here:\n  ");
        reveal_strlit("\n  ret\n");
    }
    out.append("\nsection .text\nglobal our_code_starts_here\nour_code_starts_here:\n  ");
    out.append(result.as_str());
    out.append("\n  ret\n");
    assert(out@ =~= asm_file(result@));
    Ok(out)
}

/// The message with which the compiler stops on a parse error.
pub open spec fn parse_error_text(e: ParseError) -> Seq<char> {
    match e {
        ParseError::NumberOutOfRange => "called `Result::unwrap()` on an `Err` value: TryFromIntError(())"@,
        ParseError::NoBindingLet => "Invalid no-binding let sexp"@,
        ParseError::InvalidSexp => "Invalid sexp"@,
        ParseError::InvalidBind => "Invalid bind"@,
    }
}

impl ParseError {
    /// The message with which the compiler stops on this error.
    pub fn message(&self) -> (r: String)
        ensures
            r@ == parse_error_text(*self),
    {
        let mut s = String::new();
        match self {
            ParseError::NumberOutOfRange => s.append("called `Result::unwrap()` on an `Err` value: TryFromIntError(())"),
            ParseError::NoBindingLet => s.append("Invalid no-binding let sexp"),
            ParseError::InvalidSexp => s.append("Invalid sexp"),
            ParseError::InvalidBind => s.append("Invalid bind"),
        }
        proof {
            assert(s@ =~= parse_error_text(*self));
        }
        s
    }
}

/// The message with which the compiler stops on a compile error.
pub open spec fn compile_error_text(e: SpecCompileError) -> Seq<char> {
    match e {
        SpecCompileError::UnboundVariable(x) => "Unbound variable identifier "@ + x,
        SpecCompileError::DuplicateBinding => "Duplicate binding"@,
        SpecCompileError::InvalidIdentifier => "Invalid identifier"@,
    }
}

impl CompileError {
    /// The message with which the compiler stops on this error.
    pub fn message(&self) -> (r: String)
        ensures
            r@ == compile_error_text(self@),
    {
        let mut s = String::new();
        match self {
            CompileError::UnboundVariable(x) => {
                s.append("Unbound variable identifier ");
                s.append(x.as_str());
            },
            CompileError::DuplicateBinding => s.append("Duplicate binding"),
            CompileError::InvalidIdentifier => s.append("Invalid identifier"),
        }
        proof {
            assert(s@ =~= compile_error_text(self@));
        }
        s
    }
}

/// The message with which the compiler stops on a program error.
pub open spec fn program_error_text(e: SpecProgramError) -> Seq<char> {
    match e {
        SpecProgramError::Parse(p) => parse_error_text(p),
        SpecProgramError::Compile(c) => compile_error_text(c),
        SpecProgramError::TooLarge => "program too large"@,
    }
}

impl ProgramError {
    /// The message with which the compiler stops on this error.
    pub fn message(&self) -> (r: String)
        ensures
            r@ == program_error_text(self@),
    {
        match self {
            ProgramError::Parse(e) => e.message(),
            ProgramError::Compile(e) => e.message(),
            ProgramError::TooLarge => {
                let mut s = String::new();
                s.append("program too large");
                proof {
                    assert(s@ =~= "program too large"@);
                }
                s
            },
        }
    }
}

} // verus!
