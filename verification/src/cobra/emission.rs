//! What the compiler emits for each expression: the instruction sequences,
//! stated over the models of expressions and instructions.
use vstd::prelude::*;

use crate::decimal::int_decimal;
use crate::cobra::instrs::{Reg, SpecInstr, SpecVal};
use crate::cobra::syntax::{Op1, Op2, SpecCompileError, SpecExpr};

verus! {

/// The error code of an operand of the wrong type.
pub const ERROR_INVALID_ARGUMENT: u64 = 0;
/// The error code of an arithmetic overflow.
pub const ERROR_OVERFLOW: u64 = 1;

/// The largest stack index that compilation reaches: stack offsets, eight
/// bytes per index, stay far from the ends of an `i64`.
pub open spec fn max_stack_index() -> int {
    0x0fff_ffff
}

pub open spec fn rax() -> SpecVal {
    SpecVal::Reg(Reg::RAX)
}

pub open spec fn rbx() -> SpecVal {
    SpecVal::Reg(Reg::RBX)
}

pub open spec fn rdi() -> SpecVal {
    SpecVal::Reg(Reg::RDI)
}


pub open spec fn imm(n: u64) -> SpecVal {
    SpecVal::Imm(n)
}

/// The stack slot of index `i`: `i` words below rsp.
pub open spec fn stk(i: int) -> SpecVal {
    SpecVal::RegOffset(Reg::RSP, (i * 8) as i64)
}

/// The code that reports a runtime error.
pub open spec fn err_mark() -> SpecVal {
    SpecVal::Mark("snek_error"@)
}

/// A label: a name and a counter value.
pub open spec fn label(name: Seq<char>, n: int) -> Seq<char> {
    name + int_decimal(n)
}

/// Stops with error code `code` where the last comparison set the flags
/// that the jump `j` tests.
pub open spec fn error_if(code: u64, j: SpecInstr) -> Seq<SpecInstr> {
    seq![SpecInstr::IMov(rdi(), imm(code)), j]
}

/// Checks that rax holds a number (its low bit clear) and restores it from
/// the stack slot `si + 1`.
pub open spec fn number_check(si: int) -> Seq<SpecInstr> {
    seq![
        SpecInstr::IMov(stk(si + 1), rax()),
        SpecInstr::IAnd(rax(), imm(1)),
        SpecInstr::ICmp(rax(), imm(0)),
    ] + error_if(ERROR_INVALID_ARGUMENT, SpecInstr::IJne(err_mark())) + seq![SpecInstr::IMov(rax(), stk(si + 1))]
}

/// Sets rax to true (3) where the flags satisfy `t`, and to false (1)
/// where they satisfy `f`.
pub open spec fn bool_select(t: SpecInstr, f: SpecInstr) -> Seq<SpecInstr> {
    seq![SpecInstr::IMov(rbx(), imm(3)), t, SpecInstr::IMov(rbx(), imm(1)), f]
}

/// What a unary operator emits once its operand is in rax.
pub open spec fn unop_tail(op: Op1, si: int) -> Seq<SpecInstr> {
    match op {
        Op1::Add1 => number_check(si) + seq![SpecInstr::IAdd(rax(), imm(2))] + error_if(
            ERROR_OVERFLOW,
            SpecInstr::IJo(err_mark()),
        ),
        Op1::Sub1 => number_check(si) + seq![SpecInstr::ISub(rax(), imm(2))] + error_if(
            ERROR_OVERFLOW,
            SpecInstr::IJo(err_mark()),
        ),
        Op1::IsNum => seq![SpecInstr::IAnd(rax(), imm(1)), SpecInstr::ICmp(rax(), imm(0))] + bool_select(
            SpecInstr::ICmove(rax(), rbx()),
            SpecInstr::ICmovne(rax(), rbx()),
        ),
        Op1::IsBool => seq![SpecInstr::IAnd(rax(), imm(0xfffffffffffffffd)), SpecInstr::ICmp(rax(), imm(1))]
            + bool_select(SpecInstr::ICmove(rax(), rbx()), SpecInstr::ICmovne(rax(), rbx())),
    }
}

/// Checks that the operands in rax and in the stack slot `si` are both
/// numbers (`or` of the tags is clear), or, with `xor`, of one type; then
/// restores rax from the slot `si + 1`.
pub open spec fn operand_check(si: int, xor: bool) -> Seq<SpecInstr> {
    seq![
        SpecInstr::IMov(stk(si + 1), rax()),
        if xor { SpecInstr::IXor(rax(), stk(si)) } else { SpecInstr::IOr(rax(), stk(si)) },
        SpecInstr::IAnd(rax(), imm(1)),
        SpecInstr::ICmp(rax(), imm(1)),
    ] + error_if(ERROR_INVALID_ARGUMENT, SpecInstr::IJe(err_mark())) + seq![SpecInstr::IMov(rax(), stk(si + 1))]
}

/// What a binary operator emits once its first operand is in rax and its
/// second in the stack slot `si`.
pub open spec fn binop_tail(op: Op2, si: int) -> Seq<SpecInstr> {
    let overflow = error_if(ERROR_OVERFLOW, SpecInstr::IJo(err_mark()));
    let compare = SpecInstr::ICmp(rax(), stk(si));
    match op {
        Op2::Plus => operand_check(si, false) + seq![SpecInstr::IAdd(rax(), stk(si))] + overflow,
        Op2::Minus => operand_check(si, false) + seq![SpecInstr::ISub(rax(), stk(si))] + overflow,
        Op2::Times => operand_check(si, false) + seq![
            SpecInstr::Isar(rax(), imm(1)),
            SpecInstr::IMul(rax(), stk(si)),
        ] + overflow,
        Op2::Equal => operand_check(si, true) + seq![compare] + bool_select(
            SpecInstr::ICmove(rax(), rbx()),
            SpecInstr::ICmovne(rax(), rbx()),
        ),
        Op2::Greater => operand_check(si, false) + seq![compare] + bool_select(
            SpecInstr::ICmovg(rax(), rbx()),
            SpecInstr::ICmovle(rax(), rbx()),
        ),
        Op2::GreaterEqual => operand_check(si, false) + seq![compare] + bool_select(
            SpecInstr::ICmovge(rax(), rbx()),
            SpecInstr::ICmovl(rax(), rbx()),
        ),
        Op2::Less => operand_check(si, false) + seq![compare] + bool_select(
            SpecInstr::ICmovl(rax(), rbx()),
            SpecInstr::ICmovge(rax(), rbx()),
        ),
        Op2::LessEqual => operand_check(si, false) + seq![compare] + bool_select(
            SpecInstr::ICmovle(rax(), rbx()),
            SpecInstr::ICmovg(rax(), rbx()),
        ),
    }
}

/// The words that a `let` may not bind.
pub open spec fn let_keywords() -> Seq<Seq<char>> {
    seq![
        "add1"@, "sub1"@, "isnum"@, "isbool"@, "+"@, "-"@, "*"@, "="@, ">"@, ">="@, "<"@, "<="@,
        "let"@, "set!"@, "if"@, "block"@, "loop"@, "break"@, "true"@, "false"@, "input"@,
    ]
}

/// The label counters: of `if`s and of loops.
pub type Counters = (int, int);

/// The result of compiling: the instructions emitted and the counters after
/// them, or the error that stops compilation.
pub type Compiled = Result<(Seq<SpecInstr>, Counters), SpecCompileError>;

/// Compiles the expressions of a block in order, all at stack index `si`.
pub open spec fn compile_block_spec(
    es: Seq<SpecExpr>,
    si: int,
    env: Map<Seq<char>, i64>,
    c: Counters,
    brk: i64,
) -> Compiled
    decreases es, 0int,
{
    if es.len() == 0 {
        Ok((Seq::empty(), c))
    } else {
        match compile_block_spec(es.drop_last(), si, env, c, brk) {
            Err(x) => Err(x),
            Ok((i1, c1)) => match compile_spec(es.last(), si, env, c1, brk) {
                Err(x) => Err(x),
                Ok((i2, c2)) => Ok((i1 + i2, c2)),
            },
        }
    }
}

/// Compiles the bindings of a `let` in order. A name that the outer
/// environment binds keeps its slot; any other gets the next stack slot.
/// Each binding sees the outer environment and the bindings before it.
/// Gives the instructions, the counters, the new bindings and the next
/// stack index.
pub open spec fn compile_binds_spec(
    bs: Seq<(Seq<char>, SpecExpr)>,
    si: int,
    env: Map<Seq<char>, i64>,
    c: Counters,
    brk: i64,
) -> Result<(Seq<SpecInstr>, Counters, Map<Seq<char>, i64>, int), SpecCompileError>
    decreases bs, 0int,
{
    if bs.len() == 0 {
        Ok((Seq::empty(), c, Map::empty(), si))
    } else {
        match compile_binds_spec(bs.drop_last(), si, env, c, brk) {
            Err(x) => Err(x),
            Ok((i1, c1, ne, si1)) => {
                let x = bs.last().0;
                if ne.contains_key(x) {
                    Err(SpecCompileError::DuplicateBinding)
                } else if let_keywords().contains(x) {
                    Err(SpecCompileError::KeywordBinding)
                } else {
                    match compile_spec(bs.last().1, si1, env.union_prefer_right(ne), c1, brk) {
                        Err(y) => Err(y),
                        Ok((i2, c2)) => if !env.contains_key(x) {
                            Ok((i1 + i2 + seq![SpecInstr::IMov(stk(si1), rax())], c2, ne.insert(x, si1 as i64), si1 + 1))
                        } else {
                            Ok((i1 + i2 + seq![SpecInstr::IMov(stk(env[x] as int), rax())], c2, ne.insert(x, env[x]), si1))
                        },
                    }
                }
            },
        }
    }
}

/// What compiling `e` emits: with stack index `si`, the environment `env`
/// from names to stack indexes, the counters `c`, and the loop that a
/// `break` ends (`brk`, 0 outside any loop).
pub open spec fn compile_spec(
    e: SpecExpr,
    si: int,
    env: Map<Seq<char>, i64>,
    c: Counters,
    brk: i64,
) -> Compiled
    decreases e, 1int,
{
    match e {
        SpecExpr::Number(n) => Ok((seq![SpecInstr::IMov(rax(), imm((n << 1) as u64))], c)),
        SpecExpr::Boolean(b) => Ok((seq![SpecInstr::IMov(rax(), imm(if b { 3 } else { 1 }))], c)),
        SpecExpr::Id(x) => if x == "input"@ {
            Ok((seq![SpecInstr::IMov(rax(), stk(2))], c))
        } else if !env.contains_key(x) {
            Err(SpecCompileError::UnboundVariable(x))
        } else {
            Ok((seq![SpecInstr::IMov(rax(), stk(env[x] as int))], c))
        },
        SpecExpr::Let(bs, body) => match compile_binds_spec(bs, si, env, c, brk) {
            Err(x) => Err(x),
            Ok((i1, c1, ne, si1)) => match compile_spec(*body, si1, env.union_prefer_right(ne), c1, brk) {
                Err(x) => Err(x),
                Ok((i2, c2)) => Ok((i1 + i2, c2)),
            },
        },
        SpecExpr::UnOp(op, a) => match compile_spec(*a, si, env, c, brk) {
            Err(x) => Err(x),
            Ok((i1, c1)) => Ok((i1 + unop_tail(op, si), c1)),
        },
        SpecExpr::BinOp(op, a, b) => match compile_spec(*b, si, env, c, brk) {
            Err(x) => Err(x),
            Ok((i1, c1)) => match compile_spec(*a, si + 1, env, c1, brk) {
                Err(x) => Err(x),
                Ok((i2, c2)) => Ok((i1 + seq![SpecInstr::IMov(stk(si), rax())] + i2 + binop_tail(op, si), c2)),
            },
        },
        SpecExpr::If(cond, t, f) => {
            let n = c.0 + 1;
            let else_start = SpecVal::Mark(label("elsestart"@, n));
            let else_end = SpecVal::Mark(label("elseend"@, n));
            match compile_spec(*cond, si, env, (n, c.1), brk) {
                Err(x) => Err(x),
                Ok((i1, c1)) => match compile_spec(*t, si, env, c1, brk) {
                    Err(x) => Err(x),
                    Ok((i2, c2)) => match compile_spec(*f, si, env, c2, brk) {
                        Err(x) => Err(x),
                        Ok((i3, c3)) => Ok(
                            (
                                i1 + seq![SpecInstr::ICmp(rax(), imm(1)), SpecInstr::IJe(else_start)] + i2 + seq![
                                    SpecInstr::IJmp(else_end),
                                    SpecInstr::Imark(else_start),
                                ] + i3 + seq![SpecInstr::Imark(else_end)],
                                c3,
                            ),
                        ),
                    },
                },
            }
        },
        SpecExpr::Loop(a) => {
            let n = c.1 + 1;
            let start = SpecVal::Mark(label("loopstart"@, n));
            match compile_spec(*a, si, env, (c.0, n), n as i64) {
                Err(x) => Err(x),
                Ok((i1, c1)) => Ok(
                    (
                        seq![SpecInstr::Imark(start)] + i1 + seq![
                            SpecInstr::IJmp(start),
                            SpecInstr::Imark(SpecVal::Mark(label("loopend"@, n))),
                        ],
                        c1,
                    ),
                ),
            }
        },
        SpecExpr::Break(a) => if brk == 0 {
            Err(SpecCompileError::BreakOutsideLoop)
        } else {
            match compile_spec(*a, si, env, c, brk) {
                Err(x) => Err(x),
                Ok((i1, c1)) => Ok((i1 + seq![SpecInstr::IJmp(SpecVal::Mark(label("loopend"@, brk as int)))], c1)),
            }
        },
        SpecExpr::Assign(x, a) => match compile_spec(*a, si, env, c, brk) {
            Err(y) => Err(y),
            Ok((i1, c1)) => if env.contains_key(x) {
                Ok((i1 + seq![SpecInstr::IMov(stk(env[x] as int), rax())], c1))
            } else {
                Err(SpecCompileError::UnboundVariable(x))
            },
        },
        SpecExpr::Block(es) => compile_block_spec(es, si, env, c, brk),
    }
}

/// The number of nodes of an expression, with one more per binding: a bound
/// on the stack slots and the labels that compiling it uses.
pub open spec fn expr_size(e: SpecExpr) -> nat
    decreases e, 1int,
{
    match e {
        SpecExpr::Let(bs, body) => 1 + binds_size(bs) + expr_size(*body),
        SpecExpr::UnOp(_, a) => 1 + expr_size(*a),
        SpecExpr::BinOp(_, a, b) => 1 + expr_size(*a) + expr_size(*b),
        SpecExpr::If(c, t, f) => 1 + expr_size(*c) + expr_size(*t) + expr_size(*f),
        SpecExpr::Loop(a) => 1 + expr_size(*a),
        SpecExpr::Break(a) => 1 + expr_size(*a),
        SpecExpr::Assign(_, a) => 1 + expr_size(*a),
        SpecExpr::Block(es) => 1 + exprs_size(es),
        _ => 1,
    }
}

pub open spec fn exprs_size(es: Seq<SpecExpr>) -> nat
    decreases es, 0int,
{
    if es.len() == 0 {
        0
    } else {
        exprs_size(es.drop_last()) + expr_size(es.last())
    }
}

pub open spec fn binds_size(bs: Seq<(Seq<char>, SpecExpr)>) -> nat
    decreases bs, 0int,
{
    if bs.len() == 0 {
        0
    } else {
        binds_size(bs.drop_last()) + 1 + expr_size(bs.last().1)
    }
}

/// Every stack index that an environment holds is within the bounds that
/// compilation keeps.
pub open spec fn env_in_bounds(env: Map<Seq<char>, i64>) -> bool {
    forall|x: Seq<char>| #[trigger] env.contains_key(x) ==> -max_stack_index() <= env[x] <= max_stack_index()
}

} // verus!
