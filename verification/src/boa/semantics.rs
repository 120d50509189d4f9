//! What the emitted Boa code computes: the instructions run on the machine
//! model, and the compiled code of an arithmetic expression leaves its
//! value in rax.
use vstd::prelude::*;

use crate::boa::{
    Instr, Op1, Op2, Reg, SpecCompileError, SpecExpr, Val, compile_binds_spec, compile_spec, expr_size, max_stack_index, rax,
    stk,
};
use crate::machine::{Machine, arith_flags, running, unknown};

verus! {

/// An operand that the model reads: rax, an immediate, or a stack word.
pub open spec fn readable(v: Val) -> bool {
    match v {
        Val::Reg(Reg::RAX) => true,
        Val::Imm(_) => true,
        Val::RegOffset(Reg::RSP, _) => true,
        _ => false,
    }
}

/// The value of a readable operand.
pub open spec fn read(m: Machine, v: Val) -> i64 {
    match v {
        Val::Imm(n) => n as i64,
        Val::RegOffset(_, o) => m.stack[o as int],
        _ => m.rax,
    }
}

/// An operand that the model writes: rax or a stack word.
pub open spec fn writable(v: Val) -> bool {
    match v {
        Val::Reg(Reg::RAX) => true,
        Val::RegOffset(Reg::RSP, _) => true,
        _ => false,
    }
}

/// The machine with `x` written to a writable operand.
pub open spec fn write(m: Machine, v: Val, x: i64) -> Machine {
    match v {
        Val::RegOffset(_, o) => Machine { stack: m.stack.insert(o as int, x), ..m },
        _ => Machine { rax: x, ..m },
    }
}

/// An arithmetic instruction: `d` gets the exact result `r` cut to 64 bits,
/// and the flags follow `r`.
pub open spec fn arith(m: Machine, d: Val, s: Val, r: int) -> Machine {
    if readable(d) && readable(s) && writable(d) {
        write(Machine { flags: arith_flags(r), ..m }, d, r as i64)
    } else {
        unknown(m)
    }
}

/// What one instruction does.
pub open spec fn step(m: Machine, i: Instr) -> Machine {
    if !running(m) {
        m
    } else {
        match i {
            Instr::IMov(d, s) => if readable(s) && writable(d) {
                write(m, d, read(m, s))
            } else {
                unknown(m)
            },
            Instr::IAdd(d, s) => arith(m, d, s, read(m, d) + read(m, s)),
            Instr::ISub(d, s) => arith(m, d, s, read(m, d) - read(m, s)),
            Instr::IMul(d, s) => arith(m, d, s, read(m, d) * read(m, s)),
        }
    }
}

/// The machine after running `is` from `m`.
pub open spec fn run(is: Seq<Instr>, m: Machine) -> Machine
    decreases is.len(),
{
    if is.len() == 0 {
        m
    } else {
        step(run(is.drop_last(), m), is.last())
    }
}

/// Running two pieces of code one after the other is running them joined.
pub proof fn lemma_run_append(a: Seq<Instr>, b: Seq<Instr>, m: Machine)
    ensures
        run(a + b, m) == run(b, run(a, m)),
    decreases b.len(),
{
    if b.len() == 0 {
        assert(a + b =~= a);
    } else {
        assert((a + b).drop_last() =~= a + b.drop_last());
        assert((a + b).last() == b.last());
        lemma_run_append(a, b.drop_last(), m);
    }
}

/// Running one instruction is a step.
pub proof fn lemma_run_one(i: Instr, m: Machine)
    ensures
        run(seq![i], m) == step(m, i),
{
    reveal_with_fuel(run, 2);
    assert(seq![i].drop_last() =~= Seq::<Instr>::empty());
}

/// An expression of numbers, `add1`, `sub1`, `+`, `-` and `*` alone.
pub open spec fn arithmetic(e: SpecExpr) -> bool
    decreases e,
{
    match e {
        SpecExpr::Number(_) => true,
        SpecExpr::UnOp(_, a) => arithmetic(*a),
        SpecExpr::BinOp(_, a, b) => arithmetic(*a) && arithmetic(*b),
        _ => false,
    }
}

/// The value of an arithmetic expression, over the integers.
pub open spec fn value(e: SpecExpr) -> int
    decreases e,
{
    match e {
        SpecExpr::Number(n) => n as int,
        SpecExpr::UnOp(Op1::Add1, a) => value(*a) + 1,
        SpecExpr::UnOp(Op1::Sub1, a) => value(*a) - 1,
        SpecExpr::BinOp(Op2::Plus, a, b) => value(*a) + value(*b),
        SpecExpr::BinOp(Op2::Minus, a, b) => value(*a) - value(*b),
        SpecExpr::BinOp(Op2::Times, a, b) => value(*a) * value(*b),
        _ => 0,
    }
}

/// Every value that evaluating `e` meets fits in 64 bits.
pub open spec fn fits(e: SpecExpr) -> bool
    decreases e,
{
    &&& i64::MIN <= value(e) <= i64::MAX
    &&& match e {
        SpecExpr::UnOp(_, a) => fits(*a),
        SpecExpr::BinOp(_, a, b) => fits(*a) && fits(*b),
        _ => true,
    }
}

/// The compiled code of an arithmetic expression leaves its value in rax,
/// where every value met on the way fits in 64 bits; it writes no stack word
/// below the slot `si` that it starts at.
pub proof fn lemma_arithmetic_value(e: SpecExpr, si: int, env: Map<Seq<char>, i32>, m: Machine)
    requires
        arithmetic(e),
        fits(e),
        0 <= si,
        si + expr_size(e) <= max_stack_index(),
        running(m),
    ensures
        compile_spec(e, si, env) is Ok,
        running(run(compile_spec(e, si, env)->Ok_0, m)),
        run(compile_spec(e, si, env)->Ok_0, m).rax == value(e),
        forall|o: int| o < 8 * si ==> #[trigger] run(compile_spec(e, si, env)->Ok_0, m).stack[o] == m.stack[o],
    decreases e,
{
    match e {
        SpecExpr::Number(n) => {
            lemma_run_one(Instr::IMov(crate::boa::rax(), Val::Imm(n)), m);
        },
        SpecExpr::UnOp(op, a) => {
            lemma_arithmetic_value(*a, si, env, m);
            let i1 = compile_spec(*a, si, env)->Ok_0;
            let is = compile_spec(e, si, env)->Ok_0;
            assert(is.drop_last() =~= i1);
            reveal_with_fuel(run, 2);
        },
        SpecExpr::BinOp(op, a, b) => {
            lemma_arithmetic_value(*b, si, env, m);
            let i1 = compile_spec(*b, si, env)->Ok_0;
            let m1 = run(i1, m);
            let mv = seq![Instr::IMov(crate::boa::stk(si), crate::boa::rax())];
            let m2 = run(mv, m1);
            lemma_run_one(Instr::IMov(crate::boa::stk(si), crate::boa::rax()), m1);
            assert(((si * 8) as i32) as int == 8 * si);
            assert(m2.stack[8 * si] == value(*b));
            lemma_arithmetic_value(*a, si + 1, env, m2);
            let i2 = compile_spec(*a, si + 1, env)->Ok_0;
            let m3 = run(i2, m2);
            let tail = seq![
                match op {
                    Op2::Minus => Instr::ISub(crate::boa::rax(), crate::boa::stk(si)),
                    Op2::Plus => Instr::IAdd(crate::boa::rax(), crate::boa::stk(si)),
                    Op2::Times => Instr::IMul(crate::boa::rax(), crate::boa::stk(si)),
                },
            ];
            lemma_run_one(tail[0], m3);
            let is = compile_spec(e, si, env)->Ok_0;
            assert(is == i1 + mv + i2 + tail);
            lemma_run_append(i1, mv, m);
            lemma_run_append(i1 + mv, i2, m);
            lemma_run_append(i1 + mv + i2, tail, m);
            assert(m3.stack[8 * si] == value(*b));
        },
        _ => {},
    }
}

/// The compiled code of a `let` that binds a fresh name to a number and
/// whose body is that name leaves the number in rax.
pub proof fn lemma_let_number(x: Seq<char>, a: i32, si: int, env: Map<Seq<char>, i32>, m: Machine)
    requires
        x != "let"@ && x != "add1"@ && x != "sub1"@,
        !env.contains_key(x),
        0 <= si,
        si + 2 <= max_stack_index(),
        running(m),
    ensures
        compile_spec(SpecExpr::Let(seq![(x, SpecExpr::Number(a))], Box::new(SpecExpr::Id(x))), si, env) matches Ok(is)
            && running(run(is, m)) && run(is, m).rax == a,
{
    let bs = seq![(x, SpecExpr::Number(a))];
    assert(bs.drop_last() =~= Seq::<(Seq<char>, SpecExpr)>::empty());
    reveal_with_fuel(compile_binds_spec, 2);
    let ne = Map::<Seq<char>, i32>::empty().insert(x, si as i32);
    assert(env.union_prefer_right(Map::empty()) =~= env);
    let i2 = seq![Instr::IMov(rax(), Val::Imm(a))];
    let mv = seq![Instr::IMov(stk(si), rax())];
    assert(compile_binds_spec(bs, si, env) == Ok::<_, SpecCompileError>((Seq::<Instr>::empty() + i2 + mv, ne, si + 1)));
    assert(env.union_prefer_right(ne).contains_key(x) && env.union_prefer_right(ne)[x] == si);
    let body = seq![Instr::IMov(rax(), stk(si))];
    assert(compile_spec(SpecExpr::Id(x), si + 1, env.union_prefer_right(ne)) == Ok::<_, SpecCompileError>(body));
    let is = compile_spec(SpecExpr::Let(bs, Box::new(SpecExpr::Id(x))), si, env)->Ok_0;
    assert(is == Seq::<Instr>::empty() + i2 + mv + body);
    assert(Seq::<Instr>::empty() + i2 =~= i2);
    lemma_run_one(i2[0], m);
    lemma_run_append(i2, mv, m);
    lemma_run_one(mv[0], run(i2, m));
    lemma_run_append(i2 + mv, body, m);
    lemma_run_one(body[0], run(i2 + mv, m));
    assert(((si * 8) as i32) as int == 8 * si);
}

} // verus!
