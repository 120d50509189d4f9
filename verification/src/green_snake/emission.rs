//! What the compiler emits for each expression: the instruction sequences,
//! stated over the models of expressions and instructions.
use vstd::prelude::*;

use crate::decimal::int_decimal;
use crate::green_snake::instrs::{Reg, SpecInstr, SpecVal};
use crate::green_snake::syntax::{Op1, Op2, SpecCompileError, SpecExpr};

verus! {

/// The error code of an operand of the wrong type.
pub const ERROR_INVALID_ARGUMENT: u64 = 0;
/// The error code of an arithmetic overflow.
pub const ERROR_OVERFLOW: u64 = 1;
/// The error code of an index into a value that is not a tuple.
pub const ERROR_TAG_CHECKING: u64 = 2;
/// The error code of an index past the end of a tuple.
pub const ERROR_OUT_OF_BOUND: u64 = 3;
/// The error code of an index that is not a non-negative number.
pub const ERROR_INDEX_NOT_NONNEGATIVE_NUMBER: u64 = 4;

/// The largest stack index that compilation reaches: stack offsets, eight
/// bytes per index, stay far from the ends of an `i64`.
pub open spec fn max_stack_index() -> int {
    0x0fff_ffff
}

pub open spec fn rax() -> SpecVal {
    SpecVal::Reg(Reg::RAX)
}

pub open spec fn rbx() -> SpecVal {
    SpecVal::Reg(Reg::RBX)
}

pub open spec fn rdi() -> SpecVal {
    SpecVal::Reg(Reg::RDI)
}

pub open spec fn rsp() -> SpecVal {
    SpecVal::Reg(Reg::RSP)
}

pub open spec fn r15() -> SpecVal {
    SpecVal::Reg(Reg::R15)
}

pub open spec fn imm(n: u64) -> SpecVal {
    SpecVal::Imm(n)
}

/// The stack slot of index `i`: `i` words below rsp.
pub open spec fn stk(i: int) -> SpecVal {
    SpecVal::RegOffsetMinus(Reg::RSP, (i * 8) as i64)
}

/// The code that reports a runtime error.
pub open spec fn err_mark() -> SpecVal {
    SpecVal::Mark("snek_error"@)
}

/// A label: a name and a counter value.
pub open spec fn label(name: Seq<char>, n: int) -> Seq<char> {
    name + int_decimal(n)
}

/// Stops with error code `code` where the last comparison set the flags
/// that the jump `j` tests.
pub open spec fn error_if(code: u64, j: SpecInstr) -> Seq<SpecInstr> {
    seq![SpecInstr::IMov(rdi(), imm(code)), j]
}

/// Checks that rax holds a number (its low bit clear) and restores it from
/// the stack slot `si + 1`.
pub open spec fn number_check(si: int) -> Seq<SpecInstr> {
    seq![
        SpecInstr::IMov(stk(si + 1), rax()),
        SpecInstr::IAnd(rax(), imm(1)),
        SpecInstr::ICmp(rax(), imm(0)),
    ] + error_if(ERROR_INVALID_ARGUMENT, SpecInstr::IJne(err_mark())) + seq![SpecInstr::IMov(rax(), stk(si + 1))]
}

/// Sets rax to true where the flags satisfy `t` (and the other move to
/// false where they satisfy `f`).
pub open spec fn bool_select(t: SpecInstr, f: SpecInstr) -> Seq<SpecInstr> {
    seq![SpecInstr::IMov(rbx(), imm(7)), t, SpecInstr::IMov(rbx(), imm(3)), f]
}

/// The stack index at which `print` and `==` align the stack to 16 bytes.
pub open spec fn aligned_index(si: int) -> int {
    if si % 2 == 0 {
        si + 1
    } else {
        si
    }
}

/// What a unary operator emits once its operand is in rax.
pub open spec fn unop_tail(op: Op1, si: int) -> Seq<SpecInstr> {
    match op {
        Op1::Add1 => number_check(si) + seq![SpecInstr::IAdd(rax(), imm(2))] + error_if(
            ERROR_OVERFLOW,
            SpecInstr::IJo(err_mark()),
        ),
        Op1::Sub1 => number_check(si) + seq![SpecInstr::ISub(rax(), imm(2))] + error_if(
            ERROR_OVERFLOW,
            SpecInstr::IJo(err_mark()),
        ),
        Op1::IsNum => seq![SpecInstr::IAnd(rax(), imm(1)), SpecInstr::ICmp(rax(), imm(0))] + bool_select(
            SpecInstr::ICmove(rax(), rbx()),
            SpecInstr::ICmovne(rax(), rbx()),
        ),
        Op1::IsBool => seq![SpecInstr::IAnd(rax(), imm(0xfffffffffffffffb)), SpecInstr::ICmp(rax(), imm(3))]
            + bool_select(SpecInstr::ICmove(rax(), rbx()), SpecInstr::ICmovne(rax(), rbx())),
        Op1::Print => {
            let n = aligned_index(si);
            seq![
                SpecInstr::IMov(stk(n), rax()),
                SpecInstr::IMov(rdi(), rax()),
                SpecInstr::ISub(rsp(), imm((8 * (n as u64)) as u64)),
                SpecInstr::ICall("snek_print"@),
                SpecInstr::IAdd(rsp(), imm((8 * (n as u64)) as u64)),
                SpecInstr::IMov(rax(), stk(n)),
            ]
        },
    }
}

/// Checks that the operands in rax and in the stack slot `si` are both
/// numbers (`or` of the tags is clear), or, with `xor`, of one type; then
/// restores rax from the slot `si + 1`.
pub open spec fn operand_check(si: int, xor: bool) -> Seq<SpecInstr> {
    seq![
        SpecInstr::IMov(stk(si + 1), rax()),
        if xor { SpecInstr::IXor(rax(), stk(si)) } else { SpecInstr::IOr(rax(), stk(si)) },
        SpecInstr::IAnd(rax(), imm(1)),
        SpecInstr::ICmp(rax(), imm(1)),
    ] + error_if(ERROR_INVALID_ARGUMENT, SpecInstr::IJe(err_mark())) + seq![SpecInstr::IMov(rax(), stk(si + 1))]
}

/// What a binary operator emits once its first operand is in rax and its
/// second in the stack slot `si`.
pub open spec fn binop_tail(op: Op2, si: int) -> Seq<SpecInstr> {
    let overflow = error_if(ERROR_OVERFLOW, SpecInstr::IJo(err_mark()));
    let compare = SpecInstr::ICmp(rax(), stk(si));
    match op {
        Op2::Plus => operand_check(si, false) + seq![SpecInstr::IAdd(rax(), stk(si))] + overflow,
        Op2::Minus => operand_check(si, false) + seq![SpecInstr::ISub(rax(), stk(si))] + overflow,
        Op2::Times => operand_check(si, false) + seq![
            SpecInstr::ISar(rax(), imm(1)),
            SpecInstr::IMul(rax(), stk(si)),
        ] + overflow,
        Op2::Equal => operand_check(si, true) + seq![compare] + bool_select(
            SpecInstr::ICmove(rax(), rbx()),
            SpecInstr::ICmovne(rax(), rbx()),
        ),
        Op2::Greater => operand_check(si, false) + seq![compare] + bool_select(
            SpecInstr::ICmovg(rax(), rbx()),
            SpecInstr::ICmovle(rax(), rbx()),
        ),
        Op2::GreaterEqual => operand_check(si, false) + seq![compare] + bool_select(
            SpecInstr::ICmovge(rax(), rbx()),
            SpecInstr::ICmovl(rax(), rbx()),
        ),
        Op2::Less => operand_check(si, false) + seq![compare] + bool_select(
            SpecInstr::ICmovl(rax(), rbx()),
            SpecInstr::ICmovge(rax(), rbx()),
        ),
        Op2::LessEqual => operand_check(si, false) + seq![compare] + bool_select(
            SpecInstr::ICmovle(rax(), rbx()),
            SpecInstr::ICmovg(rax(), rbx()),
        ),
        Op2::StructuralEqual => {
            let n = aligned_index(si);
            seq![
                SpecInstr::IMov(rdi(), rax()),
                SpecInstr::IMov(SpecVal::Reg(Reg::RSI), stk(si)),
                SpecInstr::ISub(rsp(), imm((8 * (n as u64)) as u64)),
                SpecInstr::ICall("snek_structural_equal"@),
                SpecInstr::IAdd(rsp(), imm((8 * (n as u64)) as u64)),
            ]
        },
    }
}

/// With a tuple in rax and a shifted index in the stack slot `si`: checks
/// that rax holds a tuple, that the index is within it and not negative,
/// and leaves the address of the tuple's elements in rax.
pub open spec fn index_check(si: int) -> Seq<SpecInstr> {
    seq![
        SpecInstr::IMov(rbx(), rax()),
        SpecInstr::IAnd(rbx(), imm(3)),
        SpecInstr::ICmp(rbx(), imm(1)),
    ] + error_if(ERROR_TAG_CHECKING, SpecInstr::IJne(err_mark())) + seq![
        SpecInstr::IShr(rax(), imm(2)),
        SpecInstr::IMov(rbx(), SpecVal::RegOffsetPlus(Reg::RAX, 0)),
        SpecInstr::ICmp(rbx(), stk(si)),
    ] + error_if(ERROR_OUT_OF_BOUND, SpecInstr::IJle(err_mark())) + seq![
        SpecInstr::IMov(rbx(), stk(si)),
        SpecInstr::ITest(rbx(), imm(1)),
    ] + error_if(ERROR_INDEX_NOT_NONNEGATIVE_NUMBER, SpecInstr::IJnz(err_mark())) + seq![
        SpecInstr::ICmp(rbx(), imm(0)),
        SpecInstr::IJl(err_mark()),
        SpecInstr::IAdd(rax(), imm(8)),
    ]
}

/// Copies the `l` elements in the stack slots from `si` on to the heap
/// words after the one at r15.
pub open spec fn tuple_copy(si: int, l: nat) -> Seq<SpecInstr>
    decreases l,
{
    if l == 0 {
        Seq::empty()
    } else {
        let i = l - 1;
        tuple_copy(si, (l - 1) as nat) + seq![
            SpecInstr::IMov(rbx(), stk(si + i)),
            SpecInstr::IMov(SpecVal::RegOffsetPlus(Reg::R15, ((i + 1) * 8) as i64), rbx()),
        ]
    }
}

/// What a tuple of `l` elements emits once they are in the stack slots from
/// `si` on: its length and elements go to the heap at r15, rax gets the
/// tagged address, and r15 moves past it.
pub open spec fn tuple_tail(si: int, l: nat) -> Seq<SpecInstr> {
    seq![
        SpecInstr::IMov(rax(), imm((l * 8) as u64)),
        SpecInstr::IMov(SpecVal::RegOffsetPlus(Reg::R15, 0), rax()),
    ] + tuple_copy(si, l) + seq![
        SpecInstr::IMov(rax(), r15()),
        SpecInstr::IShl(rax(), imm(2)),
        SpecInstr::IAdd(rax(), imm(1)),
        SpecInstr::IAdd(r15(), imm(((l + 1) * 8) as u64)),
    ]
}

/// The words that a call reserves above its arguments: an odd count that
/// keeps rsp aligned to 16 bytes.
pub open spec fn call_space(si: int, n: int) -> int {
    let s = if 2 * n - 1 < 0 { 1 - 2 * n } else { 2 * n - 1 };
    if (s + si) % 2 == 0 {
        s + 1
    } else {
        s
    }
}

/// Copies the `n` arguments of a call to the bottom of the new frame.
pub open spec fn call_copy(space: int, n: nat) -> Seq<SpecInstr>
    decreases n,
{
    if n == 0 {
        Seq::empty()
    } else {
        let i = n - 1;
        call_copy(space, (n - 1) as nat) + seq![
            SpecInstr::IMov(rbx(), SpecVal::RegOffsetPlus(Reg::RSP, (8 * (space - i)) as i64)),
            SpecInstr::IMov(SpecVal::RegOffsetPlus(Reg::RSP, (8 * i) as i64), rbx()),
        ]
    }
}

/// What a call of `f` with `n` arguments emits once they are in the stack
/// slots from `si` on.
pub open spec fn call_tail(f: Seq<char>, si: int, n: nat) -> Seq<SpecInstr> {
    let space = call_space(si, n as int);
    let frame = imm((8 * ((space + si) as u64)) as u64);
    let saved = SpecVal::RegOffsetPlus(Reg::RSP, (8 * space) as i64);
    seq![SpecInstr::ISub(rsp(), frame)] + call_copy(space, n) + seq![
        SpecInstr::IMov(saved, rdi()),
        SpecInstr::ICall(f),
        SpecInstr::IMov(rdi(), saved),
        SpecInstr::IAdd(rsp(), frame),
    ]
}

/// The words that a `let` may not bind.
pub open spec fn let_keywords() -> Seq<Seq<char>> {
    seq![
        "add1"@, "sub1"@, "isnum"@, "isbool"@, "+"@, "-"@, "*"@, "="@, ">"@, ">="@, "<"@, "<="@,
        "let"@, "set!"@, "if"@, "block"@, "loop"@, "break"@, "true"@, "false"@, "input"@,
    ]
}

/// The label counters: of `if`s and of loops.
pub type Counters = (int, int);

/// The result of compiling: the instructions emitted and the counters after
/// them, or the error that stops compilation.
pub type Compiled = Result<(Seq<SpecInstr>, Counters), SpecCompileError>;

/// Compiles the expressions of a block in order, all at stack index `si`.
pub open spec fn compile_block_spec(
    es: Seq<SpecExpr>,
    si: int,
    env: Map<Seq<char>, i64>,
    c: Counters,
    brk: i64,
    funs: Map<Seq<char>, i64>,
) -> Compiled
    decreases es, 0int,
{
    if es.len() == 0 {
        Ok((Seq::empty(), c))
    } else {
        match compile_block_spec(es.drop_last(), si, env, c, brk, funs) {
            Err(x) => Err(x),
            Ok((i1, c1)) => match compile_spec(es.last(), si, env, c1, brk, funs) {
                Err(x) => Err(x),
                Ok((i2, c2)) => Ok((i1 + i2, c2)),
            },
        }
    }
}

/// Compiles the elements of a tuple, or the arguments of a call, in order:
/// the one at position `k` at stack index `si + k`, and stores it there.
pub open spec fn compile_stored_spec(
    es: Seq<SpecExpr>,
    si: int,
    env: Map<Seq<char>, i64>,
    c: Counters,
    brk: i64,
    funs: Map<Seq<char>, i64>,
) -> Compiled
    decreases es, 0int,
{
    if es.len() == 0 {
        Ok((Seq::empty(), c))
    } else {
        let k = es.len() - 1;
        match compile_stored_spec(es.drop_last(), si, env, c, brk, funs) {
            Err(x) => Err(x),
            Ok((i1, c1)) => match compile_spec(es.last(), si + k, env, c1, brk, funs) {
                Err(x) => Err(x),
                Ok((i2, c2)) => Ok((i1 + i2 + seq![SpecInstr::IMov(stk(si + k), rax())], c2)),
            },
        }
    }
}

/// Compiles the bindings of a `let` in order. A name that the outer
/// environment binds keeps its slot; any other gets the next stack slot.
/// Each binding sees the outer environment and the bindings before it.
/// Gives the instructions, the counters, the new bindings and the next
/// stack index.
pub open spec fn compile_binds_spec(
    bs: Seq<(Seq<char>, SpecExpr)>,
    si: int,
    env: Map<Seq<char>, i64>,
    c: Counters,
    brk: i64,
    funs: Map<Seq<char>, i64>,
) -> Result<(Seq<SpecInstr>, Counters, Map<Seq<char>, i64>, int), SpecCompileError>
    decreases bs, 0int,
{
    if bs.len() == 0 {
        Ok((Seq::empty(), c, Map::empty(), si))
    } else {
        match compile_binds_spec(bs.drop_last(), si, env, c, brk, funs) {
            Err(x) => Err(x),
            Ok((i1, c1, ne, si1)) => {
                let x = bs.last().0;
                if ne.contains_key(x) {
                    Err(SpecCompileError::DuplicateBinding)
                } else if let_keywords().contains(x) {
                    Err(SpecCompileError::KeywordBinding)
                } else {
                    match compile_spec(bs.last().1, si1, env.union_prefer_right(ne), c1, brk, funs) {
                        Err(y) => Err(y),
                        Ok((i2, c2)) => if !env.contains_key(x) {
                            Ok((i1 + i2 + seq![SpecInstr::IMov(stk(si1), rax())], c2, ne.insert(x, si1 as i64), si1 + 1))
                        } else {
                            Ok((i1 + i2 + seq![SpecInstr::IMov(stk(env[x] as int), rax())], c2, ne.insert(x, env[x]), si1))
                        },
                    }
                }
            },
        }
    }
}

/// What compiling `e` emits: with stack index `si`, the environment `env`
/// from names to stack indexes, the counters `c`, the loop that a `break`
/// ends (`brk`, 0 outside any loop), and the functions `funs` with their
/// numbers of parameters (and "main" where the body is the program's).
pub open spec fn compile_spec(
    e: SpecExpr,
    si: int,
    env: Map<Seq<char>, i64>,
    c: Counters,
    brk: i64,
    funs: Map<Seq<char>, i64>,
) -> Compiled
    decreases e, 1int,
{
    match e {
        SpecExpr::Number(n) => Ok((seq![SpecInstr::IMov(rax(), imm((n << 1) as u64))], c)),
        SpecExpr::Boolean(b) => Ok((seq![SpecInstr::IMov(rax(), imm(if b { 7 } else { 3 }))], c)),
        SpecExpr::Id(x) => if x == "input"@ {
            if !funs.contains_key("main"@) {
                Err(SpecCompileError::InputInFunction)
            } else {
                Ok((seq![SpecInstr::IMov(rax(), stk(2))], c))
            }
        } else if !env.contains_key(x) {
            Err(SpecCompileError::UnboundVariable(x))
        } else {
            Ok((seq![SpecInstr::IMov(rax(), stk(env[x] as int))], c))
        },
        SpecExpr::Tuple(es) => match compile_stored_spec(es, si, env, c, brk, funs) {
            Err(x) => Err(x),
            Ok((i1, c1)) => Ok((i1 + tuple_tail(si, es.len()), c1)),
        },
        SpecExpr::Index(t, i) => match compile_spec(*i, si, env, c, brk, funs) {
            Err(x) => Err(x),
            Ok((i1, c1)) => match compile_spec(*t, si + 1, env, c1, brk, funs) {
                Err(x) => Err(x),
                Ok((i2, c2)) => Ok(
                    (
                        i1 + seq![SpecInstr::IShl(rax(), imm(2)), SpecInstr::IMov(stk(si), rax())] + i2
                            + index_check(si) + seq![
                            SpecInstr::IMov(rbx(), stk(si)),
                            SpecInstr::IAdd(rbx(), rax()),
                            SpecInstr::IMov(rax(), SpecVal::RegOffsetPlus(Reg::RBX, 0)),
                        ],
                        c2,
                    ),
                ),
            },
        },
        SpecExpr::Let(bs, body) => match compile_binds_spec(bs, si, env, c, brk, funs) {
            Err(x) => Err(x),
            Ok((i1, c1, ne, si1)) => match compile_spec(*body, si1, env.union_prefer_right(ne), c1, brk, funs) {
                Err(x) => Err(x),
                Ok((i2, c2)) => Ok((i1 + i2, c2)),
            },
        },
        SpecExpr::UnOp(op, a) => match compile_spec(*a, si, env, c, brk, funs) {
            Err(x) => Err(x),
            Ok((i1, c1)) => Ok((i1 + unop_tail(op, si), c1)),
        },
        SpecExpr::BinOp(op, a, b) => match compile_spec(*b, si, env, c, brk, funs) {
            Err(x) => Err(x),
            Ok((i1, c1)) => match compile_spec(*a, si + 1, env, c1, brk, funs) {
                Err(x) => Err(x),
                Ok((i2, c2)) => Ok((i1 + seq![SpecInstr::IMov(stk(si), rax())] + i2 + binop_tail(op, si), c2)),
            },
        },
        SpecExpr::If(cond, t, f) => {
            let n = c.0 + 1;
            let else_start = SpecVal::Mark(label("elsestart"@, n));
            let else_end = SpecVal::Mark(label("elseend"@, n));
            match compile_spec(*cond, si, env, (n, c.1), brk, funs) {
                Err(x) => Err(x),
                Ok((i1, c1)) => match compile_spec(*t, si, env, c1, brk, funs) {
                    Err(x) => Err(x),
                    Ok((i2, c2)) => match compile_spec(*f, si, env, c2, brk, funs) {
                        Err(x) => Err(x),
                        Ok((i3, c3)) => Ok(
                            (
                                i1 + seq![SpecInstr::ICmp(rax(), imm(3)), SpecInstr::IJe(else_start)] + i2 + seq![
                                    SpecInstr::IJmp(else_end),
                                    SpecInstr::IMark(else_start),
                                ] + i3 + seq![SpecInstr::IMark(else_end)],
                                c3,
                            ),
                        ),
                    },
                },
            }
        },
        SpecExpr::Loop(a) => {
            let n = c.1 + 1;
            let start = SpecVal::Mark(label("loopstart"@, n));
            match compile_spec(*a, si, env, (c.0, n), n as i64, funs) {
                Err(x) => Err(x),
                Ok((i1, c1)) => Ok(
                    (
                        seq![SpecInstr::IMark(start)] + i1 + seq![
                            SpecInstr::IJmp(start),
                            SpecInstr::IMark(SpecVal::Mark(label("loopend"@, n))),
                        ],
                        c1,
                    ),
                ),
            }
        },
        SpecExpr::Break(a) => if brk == 0 {
            Err(SpecCompileError::BreakOutsideLoop)
        } else {
            match compile_spec(*a, si, env, c, brk, funs) {
                Err(x) => Err(x),
                Ok((i1, c1)) => Ok((i1 + seq![SpecInstr::IJmp(SpecVal::Mark(label("loopend"@, brk as int)))], c1)),
            }
        },
        SpecExpr::Assign(x, a) => match compile_spec(*a, si, env, c, brk, funs) {
            Err(y) => Err(y),
            Ok((i1, c1)) => if env.contains_key(x) {
                Ok((i1 + seq![SpecInstr::IMov(stk(env[x] as int), rax())], c1))
            } else {
                Err(SpecCompileError::UnboundVariable(x))
            },
        },
        SpecExpr::Block(es) => compile_block_spec(es, si, env, c, brk, funs),
        SpecExpr::Call(f, args) => if !funs.contains_key(f) {
            Err(SpecCompileError::UnknownFunction)
        } else if funs[f] != args.len() {
            Err(SpecCompileError::WrongArity)
        } else {
            match compile_stored_spec(args, si, env, c, brk, funs) {
                Err(x) => Err(x),
                Ok((i1, c1)) => Ok((i1 + call_tail(f, si, args.len()), c1)),
            }
        },
        SpecExpr::SetTuple(x, place, v) => match compile_spec(*place, si, env, c, brk, funs) {
            Err(y) => Err(y),
            Ok((i1, c1)) => match compile_spec(*v, si + 1, env, c1, brk, funs) {
                Err(y) => Err(y),
                Ok((i2, c2)) => if env.contains_key(x) {
                    Ok(
                        (
                            i1 + seq![SpecInstr::IShl(rax(), imm(2)), SpecInstr::IMov(stk(si), rax())] + i2
                                + seq![SpecInstr::IMov(stk(si + 1), rax()), SpecInstr::IMov(rax(), stk(env[x] as int))]
                                + index_check(si) + seq![
                                SpecInstr::IMov(rbx(), stk(si)),
                                SpecInstr::IAdd(rbx(), rax()),
                                SpecInstr::IMov(rax(), stk(si + 1)),
                                SpecInstr::IMov(SpecVal::RegOffsetPlus(Reg::RBX, 0), rax()),
                            ],
                            c2,
                        ),
                    )
                } else {
                    Err(SpecCompileError::UnboundVariable(x))
                },
            },
        },
    }
}

/// The number of nodes of an expression, with one more per binding: a bound
/// on the stack slots, the labels and the arguments that compiling it uses.
pub open spec fn expr_size(e: SpecExpr) -> nat
    decreases e, 1int,
{
    match e {
        SpecExpr::Let(bs, body) => 1 + binds_size(bs) + expr_size(*body),
        SpecExpr::UnOp(_, a) => 1 + expr_size(*a),
        SpecExpr::BinOp(_, a, b) => 1 + expr_size(*a) + expr_size(*b),
        SpecExpr::If(c, t, f) => 1 + expr_size(*c) + expr_size(*t) + expr_size(*f),
        SpecExpr::Loop(a) => 1 + expr_size(*a),
        SpecExpr::Break(a) => 1 + expr_size(*a),
        SpecExpr::Assign(_, a) => 1 + expr_size(*a),
        SpecExpr::Index(a, b) => 1 + expr_size(*a) + expr_size(*b),
        SpecExpr::Block(es) => 1 + exprs_size(es),
        SpecExpr::Tuple(es) => 1 + exprs_size(es),
        SpecExpr::Call(_, es) => 1 + exprs_size(es),
        SpecExpr::SetTuple(_, a, b) => 1 + expr_size(*a) + expr_size(*b),
        _ => 1,
    }
}

pub open spec fn exprs_size(es: Seq<SpecExpr>) -> nat
    decreases es, 0int,
{
    if es.len() == 0 {
        0
    } else {
        exprs_size(es.drop_last()) + expr_size(es.last())
    }
}

pub open spec fn binds_size(bs: Seq<(Seq<char>, SpecExpr)>) -> nat
    decreases bs, 0int,
{
    if bs.len() == 0 {
        0
    } else {
        binds_size(bs.drop_last()) + 1 + expr_size(bs.last().1)
    }
}

/// Every stack index that an environment holds is within the bounds that
/// compilation keeps.
pub open spec fn env_in_bounds(env: Map<Seq<char>, i64>) -> bool {
    forall|x: Seq<char>| #[trigger] env.contains_key(x) ==> -max_stack_index() <= env[x] <= max_stack_index()
}

} // verus!
