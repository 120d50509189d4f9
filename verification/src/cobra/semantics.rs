//! What the emitted Cobra code computes: the instructions run on the
//! machine model, and the compiled code of an operator applied to two
//! numbers leaves the operator's result in rax.
use vstd::prelude::*;

use crate::cobra::emission::{
    binop_tail, compile_binds_spec, let_keywords, bool_select, compile_spec, label, err_mark, imm, max_stack_index, number_check, operand_check, rax, rbx, rdi, stk,
    unop_tail,
};
use crate::cobra::instrs::{Reg, SpecInstr, SpecVal};
use crate::cobra::syntax::{Op1, Op2, SpecCompileError, SpecExpr};
use crate::machine::{Cond, Machine, arith_flags, cond_holds, jump_if, logic_flags, reach_label, running, tagged, unknown};

verus! {

/// An operand that the model reads: rax, rbx, rdi, an immediate, or a stack
/// word.
pub open spec fn readable(v: SpecVal) -> bool {
    match v {
        SpecVal::Reg(r) => r != Reg::RSP,
        SpecVal::Imm(_) => true,
        SpecVal::RegOffset(r, _) => r == Reg::RSP,
        SpecVal::Mark(_) => false,
    }
}

/// The value of a readable operand.
pub open spec fn read(m: Machine, v: SpecVal) -> i64 {
    match v {
        SpecVal::Reg(Reg::RBX) => m.rbx,
        SpecVal::Reg(Reg::RDI) => m.rdi,
        SpecVal::Reg(_) => m.rax,
        SpecVal::Imm(n) => n as i64,
        SpecVal::RegOffset(_, o) => m.stack[o as int],
        SpecVal::Mark(_) => 0,
    }
}

/// The machine with `x` written to an operand; only readable operands
/// other than immediates can be written.
pub open spec fn write(m: Machine, v: SpecVal, x: i64) -> Machine {
    match v {
        SpecVal::Reg(Reg::RBX) => Machine { rbx: x, ..m },
        SpecVal::Reg(Reg::RDI) => Machine { rdi: x, ..m },
        SpecVal::Reg(_) => Machine { rax: x, ..m },
        SpecVal::RegOffset(_, o) => Machine { stack: m.stack.insert(o as int, x), ..m },
        _ => m,
    }
}

pub open spec fn writable(v: SpecVal) -> bool {
    readable(v) && !(v is Imm)
}

/// An arithmetic instruction: `d` gets the exact result `r` cut to 64 bits,
/// and the flags follow `r`.
pub open spec fn arith(m: Machine, d: SpecVal, s: SpecVal, r: int) -> Machine {
    if writable(d) && readable(s) {
        write(Machine { flags: arith_flags(r), ..m }, d, r as i64)
    } else {
        unknown(m)
    }
}

/// A bitwise instruction: `d` gets `x`, and the flags follow it.
pub open spec fn logic(m: Machine, d: SpecVal, s: SpecVal, x: i64) -> Machine {
    if writable(d) && readable(s) {
        write(Machine { flags: logic_flags(x), ..m }, d, x)
    } else {
        unknown(m)
    }
}

/// A conditional move.
pub open spec fn cmov(m: Machine, d: SpecVal, s: SpecVal, c: Cond) -> Machine {
    if writable(d) && readable(s) {
        if cond_holds(m.flags, c) {
            write(m, d, read(m, s))
        } else {
            m
        }
    } else {
        unknown(m)
    }
}

/// A conditional jump to a label.
pub open spec fn jcc(m: Machine, l: SpecVal, c: Cond) -> Machine {
    match l {
        SpecVal::Mark(t) => jump_if(m, cond_holds(m.flags, c), t),
        _ => unknown(m),
    }
}

/// What one instruction does. While a jump is pending, the machine passes
/// over every instruction but the label it goes to.
pub open spec fn step(m: Machine, i: SpecInstr) -> Machine {
    if !m.known {
        m
    } else if m.target is Some {
        match i {
            SpecInstr::Imark(SpecVal::Mark(l)) => reach_label(m, l),
            _ => m,
        }
    } else {
        match i {
            SpecInstr::IMov(d, s) => if writable(d) && readable(s) {
                write(m, d, read(m, s))
            } else {
                unknown(m)
            },
            SpecInstr::IAdd(d, s) => arith(m, d, s, read(m, d) + read(m, s)),
            SpecInstr::ISub(d, s) => arith(m, d, s, read(m, d) - read(m, s)),
            SpecInstr::IMul(d, s) => arith(m, d, s, read(m, d) * read(m, s)),
            SpecInstr::IAnd(d, s) => logic(m, d, s, read(m, d) & read(m, s)),
            SpecInstr::IOr(d, s) => logic(m, d, s, read(m, d) | read(m, s)),
            SpecInstr::IXor(d, s) => logic(m, d, s, read(m, d) ^ read(m, s)),
            SpecInstr::ICmp(d, s) => if readable(d) && readable(s) {
                Machine { flags: arith_flags(read(m, d) - read(m, s)), ..m }
            } else {
                unknown(m)
            },
            SpecInstr::IJmp(SpecVal::Mark(l)) => jump_if(m, true, l),
            SpecInstr::IJe(l) => jcc(m, l, Cond::E),
            SpecInstr::IJne(l) => jcc(m, l, Cond::Ne),
            SpecInstr::IJo(l) => jcc(m, l, Cond::O),
            SpecInstr::ICmove(d, s) => cmov(m, d, s, Cond::E),
            SpecInstr::ICmovne(d, s) => cmov(m, d, s, Cond::Ne),
            SpecInstr::ICmovg(d, s) => cmov(m, d, s, Cond::G),
            SpecInstr::ICmovge(d, s) => cmov(m, d, s, Cond::Ge),
            SpecInstr::ICmovl(d, s) => cmov(m, d, s, Cond::L),
            SpecInstr::ICmovle(d, s) => cmov(m, d, s, Cond::Le),
            SpecInstr::Imark(SpecVal::Mark(_)) => m,
            SpecInstr::Isar(d, SpecVal::Imm(1)) => if writable(d) {
                write(m, d, read(m, d) >> 1i64)
            } else {
                unknown(m)
            },
            _ => unknown(m),
        }
    }
}

/// The machine after running the first `n` instructions of `is` from `m`.
pub open spec fn run_prefix(is: Seq<SpecInstr>, n: int, m: Machine) -> Machine
    decreases n,
{
    if n <= 0 {
        m
    } else {
        step(run_prefix(is, n - 1, m), is[n - 1])
    }
}

/// The machine after running `is` from `m`.
pub open spec fn run(is: Seq<SpecInstr>, m: Machine) -> Machine {
    run_prefix(is, is.len() as int, m)
}

proof fn lemma_run_prefix_append(a: Seq<SpecInstr>, b: Seq<SpecInstr>, k: int, m: Machine)
    requires
        0 <= k <= b.len(),
    ensures
        run_prefix(a + b, a.len() + k, m) == run_prefix(b, k, run(a, m)),
    decreases k,
{
    if k == 0 {
        lemma_run_prefix_same(a, a + b, a.len() as int, m);
    } else {
        lemma_run_prefix_append(a, b, k - 1, m);
        assert((a + b)[a.len() + k - 1] == b[k - 1]);
    }
}

proof fn lemma_run_prefix_same(a: Seq<SpecInstr>, c: Seq<SpecInstr>, n: int, m: Machine)
    requires
        0 <= n <= a.len(),
        n <= c.len(),
        forall|i: int| 0 <= i < n ==> a[i] == c[i],
    ensures
        run_prefix(c, n, m) == run_prefix(a, n, m),
    decreases n,
{
    if n > 0 {
        lemma_run_prefix_same(a, c, n - 1, m);
    }
}

/// Running two pieces of code one after the other is running them joined.
pub proof fn lemma_run_append(a: Seq<SpecInstr>, b: Seq<SpecInstr>, m: Machine)
    ensures
        run(a + b, m) == run(b, run(a, m)),
{
    lemma_run_prefix_append(a, b, b.len() as int, m);
}


/// A number that the program can hold: 63 bits, signed.
pub open spec fn fits63(x: int) -> bool {
    -0x4000_0000_0000_0000 <= x < 0x4000_0000_0000_0000
}

/// The value of a boolean as the program holds it: true is 3, false 1.
pub open spec fn bool_value(b: bool) -> int {
    if b {
        3
    } else {
        1
    }
}

/// What an operator gives on the numbers `a` and `b`, as the program holds
/// it: a number shifted left by one bit, or a boolean.
pub open spec fn binop_result(op: Op2, a: int, b: int) -> int {
    match op {
        Op2::Plus => tagged(a + b),
        Op2::Minus => tagged(a - b),
        Op2::Times => tagged(a * b),
        Op2::Equal => bool_value(a == b),
        Op2::Greater => bool_value(a > b),
        Op2::GreaterEqual => bool_value(a >= b),
        Op2::Less => bool_value(a < b),
        Op2::LessEqual => bool_value(a <= b),
    }
}

/// The arithmetic operators give a number that fits in 63 bits.
pub open spec fn result_fits(op: Op2, a: int, b: int) -> bool {
    match op {
        Op2::Plus => fits63(a + b),
        Op2::Minus => fits63(a - b),
        Op2::Times => fits63(a * b),
        _ => true,
    }
}

proof fn lemma_tag(a: i64)
    requires
        fits63(a as int),
    ensures
        ((a << 1) as u64) as i64 == 2 * a,
        (2 * a) as i64 & 1 == 0,
        ((2 * a) as i64) >> 1i64 == a,
{
    assert(((a << 1) as u64) as i64 == a << 1) by (bit_vector);
    assert((a << 1) == 2 * a && (a << 1) & 1 == 0 && (a << 1) >> 1i64 == a) by (bit_vector)
        requires
            -0x4000_0000_0000_0000 <= a < 0x4000_0000_0000_0000;
}

proof fn lemma_even_tags(x: i64, y: i64)
    requires
        x & 1 == 0,
        y & 1 == 0,
    ensures
        (x | y) & 1i64 == 0,
        (x ^ y) & 1i64 == 0,
{
    assert((x | y) & 1i64 == 0 && (x ^ y) & 1i64 == 0) by (bit_vector)
        requires
            x & 1 == 0,
            y & 1 == 0;
}

/// The operand check passes two numbers on, in rax and the slot `si`.
#[verifier::rlimit(40)]
proof fn lemma_operand_check(si: int, xor: bool, m: Machine)
    requires
        running(m),
        0 <= si,
        si + 2 <= max_stack_index(),
        m.rax & 1 == 0,
        m.stack[8 * si] & 1 == 0,
    ensures
        running(run(operand_check(si, xor), m)),
        run(operand_check(si, xor), m).rax == m.rax,
        run(operand_check(si, xor), m).stack[8 * si] == m.stack[8 * si],
{
    reveal_with_fuel(run_prefix, 8);
    assert(((si * 8) as i64) as int == 8 * si);
    assert((((si + 1) * 8) as i64) as int == 8 * si + 8);
    lemma_even_tags(m.rax, m.stack[8 * si]);
    assert((1u64 as i64) == 1);
    assert((0u64 as i64) == 0);
}

/// What follows the operand check of an operator, on two numbers in rax
/// and the slot `si`.
pub open spec fn after_check(op: Op2, si: int) -> Seq<SpecInstr> {
    binop_tail(op, si).subrange(7, binop_tail(op, si).len() as int)
}

proof fn lemma_after_check_split(op: Op2, si: int)
    ensures
        binop_tail(op, si) =~= operand_check(si, op == Op2::Equal) + after_check(op, si),
{
}

#[verifier::rlimit(40)]
proof fn lemma_after_plus_minus(op: Op2, si: int, a: i64, b: i64, m: Machine)
    requires
        op == Op2::Plus || op == Op2::Minus,
        running(m),
        m.rax == 2 * a,
        m.stack[8 * si] == 2 * b,
        result_fits(op, a as int, b as int),
        0 <= si,
        si + 3 <= max_stack_index(),
    ensures
        running(run(after_check(op, si), m)),
        run(after_check(op, si), m).rax == binop_result(op, a as int, b as int),
{
    reveal_with_fuel(run_prefix, 4);
    assert(((si * 8) as i64) as int == 8 * si);
    assert((1u64 as i64) == 1);
    let r = after_check(op, si);
    if op == Op2::Plus {
        assert(r =~= seq![SpecInstr::IAdd(rax(), stk(si)), SpecInstr::IMov(rdi(), imm(1)), SpecInstr::IJo(err_mark())]);
    } else {
        assert(r =~= seq![SpecInstr::ISub(rax(), stk(si)), SpecInstr::IMov(rdi(), imm(1)), SpecInstr::IJo(err_mark())]);
    }
}

#[verifier::rlimit(40)]
proof fn lemma_after_times(si: int, a: i64, b: i64, m: Machine)
    requires
        running(m),
        m.rax == 2 * a,
        m.stack[8 * si] == 2 * b,
        fits63(a as int),
        result_fits(Op2::Times, a as int, b as int),
        0 <= si,
        si + 3 <= max_stack_index(),
    ensures
        running(run(after_check(Op2::Times, si), m)),
        run(after_check(Op2::Times, si), m).rax == binop_result(Op2::Times, a as int, b as int),
{
    reveal_with_fuel(run_prefix, 5);
    assert(((si * 8) as i64) as int == 8 * si);
    assert((1u64 as i64) == 1);
    lemma_tag(a);
    assert(after_check(Op2::Times, si) =~= seq![
        SpecInstr::Isar(rax(), imm(1)),
        SpecInstr::IMul(rax(), stk(si)),
        SpecInstr::IMov(rdi(), imm(1)),
        SpecInstr::IJo(err_mark()),
    ]);
    assert(a * (2 * b) == 2 * (a * b)) by (nonlinear_arith);
}

/// Sets rax to true where `t` holds of the flags of `rax - slot`, else to
/// false.
#[verifier::rlimit(40)]
proof fn lemma_select(si: int, t: SpecInstr, f: SpecInstr, ct: Cond, cf: Cond, m: Machine)
    requires
        running(m),
        0 <= si,
        si + 3 <= max_stack_index(),
        t == SpecInstr::ICmove(rax(), rbx()) && ct == Cond::E || t == SpecInstr::ICmovne(rax(), rbx()) && ct == Cond::Ne
            || t == SpecInstr::ICmovg(rax(), rbx()) && ct == Cond::G || t == SpecInstr::ICmovge(rax(), rbx()) && ct
            == Cond::Ge || t == SpecInstr::ICmovl(rax(), rbx()) && ct == Cond::L || t == SpecInstr::ICmovle(rax(), rbx())
            && ct == Cond::Le,
        f == SpecInstr::ICmove(rax(), rbx()) && cf == Cond::E || f == SpecInstr::ICmovne(rax(), rbx()) && cf == Cond::Ne
            || f == SpecInstr::ICmovg(rax(), rbx()) && cf == Cond::G || f == SpecInstr::ICmovge(rax(), rbx()) && cf
            == Cond::Ge || f == SpecInstr::ICmovl(rax(), rbx()) && cf == Cond::L || f == SpecInstr::ICmovle(rax(), rbx())
            && cf == Cond::Le,
    ensures
        ({
            let fl = arith_flags(m.rax - m.stack[8 * si]);
            let m2 = run(
                seq![
                    SpecInstr::ICmp(rax(), stk(si)),
                    SpecInstr::IMov(rbx(), imm(3)),
                    t,
                    SpecInstr::IMov(rbx(), imm(1)),
                    f,
                ],
                m,
            );
            running(m2) && (cond_holds(fl, ct) ==> m2.rax == 3 || cond_holds(fl, cf)) && (!cond_holds(fl, ct)
                && cond_holds(fl, cf) ==> m2.rax == 1) && (cond_holds(fl, ct) && !cond_holds(fl, cf) ==> m2.rax == 3)
        }),
{
    reveal_with_fuel(run_prefix, 6);
    assert(((si * 8) as i64) as int == 8 * si);
    assert((1u64 as i64) == 1);
    assert((3u64 as i64) == 3);
}

#[verifier::rlimit(40)]
proof fn lemma_after_compare(op: Op2, si: int, a: i64, b: i64, m: Machine)
    requires
        !(op == Op2::Plus || op == Op2::Minus || op == Op2::Times),
        running(m),
        m.rax == 2 * a,
        m.stack[8 * si] == 2 * b,
        0 <= si,
        si + 3 <= max_stack_index(),
    ensures
        running(run(after_check(op, si), m)),
        run(after_check(op, si), m).rax == binop_result(op, a as int, b as int),
{
    let r = after_check(op, si);
    match op {
        Op2::Equal => {
            assert(r =~= seq![SpecInstr::ICmp(rax(), stk(si)), SpecInstr::IMov(rbx(), imm(3)), SpecInstr::ICmove(rax(), rbx()), SpecInstr::IMov(rbx(), imm(1)), SpecInstr::ICmovne(rax(), rbx())]);
            lemma_select(si, SpecInstr::ICmove(rax(), rbx()), SpecInstr::ICmovne(rax(), rbx()), Cond::E, Cond::Ne, m);
        },
        Op2::Greater => {
            assert(r =~= seq![SpecInstr::ICmp(rax(), stk(si)), SpecInstr::IMov(rbx(), imm(3)), SpecInstr::ICmovg(rax(), rbx()), SpecInstr::IMov(rbx(), imm(1)), SpecInstr::ICmovle(rax(), rbx())]);
            lemma_select(si, SpecInstr::ICmovg(rax(), rbx()), SpecInstr::ICmovle(rax(), rbx()), Cond::G, Cond::Le, m);
        },
        Op2::GreaterEqual => {
            assert(r =~= seq![SpecInstr::ICmp(rax(), stk(si)), SpecInstr::IMov(rbx(), imm(3)), SpecInstr::ICmovge(rax(), rbx()), SpecInstr::IMov(rbx(), imm(1)), SpecInstr::ICmovl(rax(), rbx())]);
            lemma_select(si, SpecInstr::ICmovge(rax(), rbx()), SpecInstr::ICmovl(rax(), rbx()), Cond::Ge, Cond::L, m);
        },
        Op2::Less => {
            assert(r =~= seq![SpecInstr::ICmp(rax(), stk(si)), SpecInstr::IMov(rbx(), imm(3)), SpecInstr::ICmovl(rax(), rbx()), SpecInstr::IMov(rbx(), imm(1)), SpecInstr::ICmovge(rax(), rbx())]);
            lemma_select(si, SpecInstr::ICmovl(rax(), rbx()), SpecInstr::ICmovge(rax(), rbx()), Cond::L, Cond::Ge, m);
        },
        _ => {
            assert(r =~= seq![SpecInstr::ICmp(rax(), stk(si)), SpecInstr::IMov(rbx(), imm(3)), SpecInstr::ICmovle(rax(), rbx()), SpecInstr::IMov(rbx(), imm(1)), SpecInstr::ICmovg(rax(), rbx())]);
            lemma_select(si, SpecInstr::ICmovle(rax(), rbx()), SpecInstr::ICmovg(rax(), rbx()), Cond::Le, Cond::G, m);
        },
    }
}

/// The compiled code of an operator applied to two numbers leaves the
/// operator's result in rax, where the arithmetic operators' results fit in
/// 63 bits: the sum, difference or product shifted left by one bit, or true
/// (3) exactly where the comparison holds and false (1) otherwise.
#[verifier::rlimit(40)]
pub proof fn lemma_binop_numbers(
    op: Op2,
    a: i64,
    b: i64,
    si: int,
    env: Map<Seq<char>, i64>,
    c: (int, int),
    brk: i64,
    m: Machine,
)
    requires
        fits63(a as int),
        fits63(b as int),
        result_fits(op, a as int, b as int),
        0 <= si,
        si + 3 <= max_stack_index(),
        running(m),
    ensures
        compile_spec(
            SpecExpr::BinOp(op, Box::new(SpecExpr::Number(a)), Box::new(SpecExpr::Number(b))),
            si,
            env,
            c,
            brk,
        ) matches Ok((is, _)) && running(run(is, m)) && run(is, m).rax == binop_result(op, a as int, b as int),
{
    let e = SpecExpr::BinOp(op, Box::new(SpecExpr::Number(a)), Box::new(SpecExpr::Number(b)));
    let is = compile_spec(e, si, env, c, brk)->Ok_0.0;
    let pre = seq![SpecInstr::IMov(rax(), imm((b << 1) as u64))] + seq![SpecInstr::IMov(stk(si), rax())] + seq![
        SpecInstr::IMov(rax(), imm((a << 1) as u64)),
    ];
    reveal_with_fuel(compile_spec, 2);
    assert(is == pre + binop_tail(op, si));
    lemma_run_append(pre, binop_tail(op, si), m);
    lemma_tag(a);
    lemma_tag(b);
    reveal_with_fuel(run_prefix, 4);
    assert(((si * 8) as i64) as int == 8 * si);
    let m1 = run(pre, m);
    assert(m1.rax == 2 * a && m1.stack[8 * si] == 2 * b && running(m1));
    let xor = op == Op2::Equal;
    lemma_operand_check(si, xor, m1);
    lemma_after_check_split(op, si);
    if op == Op2::Plus || op == Op2::Minus || op == Op2::Times {
        if op == Op2::Times {
            lemma_after_times(si, a, b, run(operand_check(si, xor), m1));
        } else {
            lemma_after_plus_minus(op, si, a, b, run(operand_check(si, xor), m1));
        }
    } else {
        lemma_after_compare(op, si, a, b, run(operand_check(si, xor), m1));
    }
    lemma_run_append(operand_check(si, xor), after_check(op, si), m1);
}

/// What a unary operator gives on the number `a`, as the program holds it.
pub open spec fn unop_number_result(op: Op1, a: int) -> int {
    match op {
        Op1::Add1 => tagged(a + 1),
        Op1::Sub1 => tagged(a - 1),
        Op1::IsNum => bool_value(true),
        Op1::IsBool => bool_value(false),
    }
}

proof fn lemma_tag_tests(x: i64)
    requires
        x & 1 == 0 || x == 1 || x == 3,
    ensures
        (x & 1 == 0) == !(x == 1 || x == 3),
        (x & (0xfffffffffffffffdu64 as i64) == 1) == (x == 1 || x == 3),
{
    assert(0xfffffffffffffffdu64 as i64 == -3i64) by (bit_vector);
    assert((x & -3i64 == 1) == (x == 1 || x == 3) && (x & 1 == 0) == !(x == 1 || x == 3)) by (bit_vector)
        requires
            x & 1 == 0 || x == 1 || x == 3;
}

/// The number check passes a number on in rax.
#[verifier::rlimit(40)]
proof fn lemma_number_check(si: int, m: Machine)
    requires
        running(m),
        0 <= si,
        si + 2 <= max_stack_index(),
        m.rax & 1 == 0,
    ensures
        running(run(number_check(si), m)),
        run(number_check(si), m).rax == m.rax,
{
    reveal_with_fuel(run_prefix, 8);
    assert((((si + 1) * 8) as i64) as int == 8 * si + 8);
    assert((1u64 as i64) == 1);
    assert((0u64 as i64) == 0);
}

/// `isnum` and `isbool` on a number or a boolean held in rax.
#[verifier::rlimit(40)]
proof fn lemma_type_test(op: Op1, m: Machine)
    requires
        running(m),
        op == Op1::IsNum || op == Op1::IsBool,
        m.rax & 1 == 0 || m.rax == 1 || m.rax == 3,
    ensures
        running(run(unop_tail(op, 0), m)),
        run(unop_tail(op, 0), m).rax == bool_value((op == Op1::IsNum) == (m.rax & 1 == 0)),
{
    reveal_with_fuel(run_prefix, 7);
    lemma_tag_tests(m.rax);
    assert((1u64 as i64) == 1);
    assert((3u64 as i64) == 3);
    assert((0u64 as i64) == 0);
}

/// The compiled code of a unary operator applied to a number leaves its
/// result in rax, where `add1` and `sub1` give a number that fits in 63
/// bits: the number plus or minus one shifted left by one bit, true (3) for
/// `isnum`, false (1) for `isbool`.
#[verifier::rlimit(40)]
pub proof fn lemma_unop_number(
    op: Op1,
    a: i64,
    si: int,
    env: Map<Seq<char>, i64>,
    c: (int, int),
    brk: i64,
    m: Machine,
)
    requires
        fits63(a as int),
        op == Op1::Add1 ==> fits63(a + 1),
        op == Op1::Sub1 ==> fits63(a - 1),
        0 <= si,
        si + 3 <= max_stack_index(),
        running(m),
    ensures
        compile_spec(SpecExpr::UnOp(op, Box::new(SpecExpr::Number(a))), si, env, c, brk) matches Ok((is, _))
            && running(run(is, m)) && run(is, m).rax == unop_number_result(op, a as int),
{
    let e = SpecExpr::UnOp(op, Box::new(SpecExpr::Number(a)));
    let is = compile_spec(e, si, env, c, brk)->Ok_0.0;
    let pre = seq![SpecInstr::IMov(rax(), imm((a << 1) as u64))];
    reveal_with_fuel(compile_spec, 2);
    assert(is == pre + unop_tail(op, si));
    lemma_run_append(pre, unop_tail(op, si), m);
    lemma_tag(a);
    reveal_with_fuel(run_prefix, 2);
    let m1 = run(pre, m);
    assert(m1.rax == 2 * a && running(m1));
    if op == Op1::IsNum || op == Op1::IsBool {
        assert(unop_tail(op, si) == unop_tail(op, 0));
        lemma_type_test(op, m1);
    } else {
        lemma_add_sub(op, si, a, m1);
    }
}

#[verifier::rlimit(40)]
proof fn lemma_add_sub(op: Op1, si: int, a: i64, m: Machine)
    requires
        op == Op1::Add1 || op == Op1::Sub1,
        fits63(a as int),
        op == Op1::Add1 ==> fits63(a + 1),
        op == Op1::Sub1 ==> fits63(a - 1),
        0 <= si,
        si + 3 <= max_stack_index(),
        running(m),
        m.rax == 2 * a,
    ensures
        running(run(unop_tail(op, si), m)),
        run(unop_tail(op, si), m).rax == unop_number_result(op, a as int),
{
    lemma_tag(a);
    lemma_number_check(si, m);
    let rest = seq![
        if op == Op1::Add1 {
            SpecInstr::IAdd(rax(), imm(2))
        } else {
            SpecInstr::ISub(rax(), imm(2))
        },
        SpecInstr::IMov(rdi(), imm(1)),
        SpecInstr::IJo(err_mark()),
    ];
    assert(unop_tail(op, si) =~= number_check(si) + rest);
    lemma_run_append(number_check(si), rest, m);
    assert((2u64 as i64) == 2);
    assert((1u64 as i64) == 1);
    reveal_with_fuel(run_prefix, 4);
}

/// The compiled code of `isnum` or `isbool` applied to a boolean leaves
/// false (1) for `isnum` and true (3) for `isbool` in rax.
#[verifier::rlimit(40)]
pub proof fn lemma_unop_boolean(
    op: Op1,
    v: bool,
    si: int,
    env: Map<Seq<char>, i64>,
    c: (int, int),
    brk: i64,
    m: Machine,
)
    requires
        op == Op1::IsNum || op == Op1::IsBool,
        running(m),
    ensures
        compile_spec(SpecExpr::UnOp(op, Box::new(SpecExpr::Boolean(v))), si, env, c, brk) matches Ok((is, _))
            && running(run(is, m)) && run(is, m).rax == bool_value(op == Op1::IsBool),
{
    let e = SpecExpr::UnOp(op, Box::new(SpecExpr::Boolean(v)));
    let is = compile_spec(e, si, env, c, brk)->Ok_0.0;
    let pre = seq![SpecInstr::IMov(rax(), imm(if v { 3 } else { 1 }))];
    reveal_with_fuel(compile_spec, 2);
    assert(is == pre + unop_tail(op, si));
    assert(unop_tail(op, si) == unop_tail(op, 0));
    lemma_run_append(pre, unop_tail(op, 0), m);
    reveal_with_fuel(run_prefix, 2);
    assert((1u64 as i64) == 1);
    assert((3u64 as i64) == 3);
    let m1 = run(pre, m);
    let r = m1.rax;
    assert(r == 1 || r == 3);
    assert(r & 1 != 0) by (bit_vector)
        requires
            r == 1 || r == 3;
    lemma_type_test(op, m1);
}

proof fn lemma_if_labels_differ(n: int)
    ensures
        label("elsestart"@, n) != label("elseend"@, n),
{
    reveal_strlit("elsestart");
    reveal_strlit("elseend");
    assert(label("elsestart"@, n)[4] == 's');
    assert(label("elseend"@, n)[4] == 'e');
}

/// The compiled code of an `if` on a boolean, with numbers in its branches,
/// leaves the number of the branch that the boolean picks in rax.
#[verifier::rlimit(40)]
pub proof fn lemma_if_boolean(
    v: bool,
    x: i64,
    y: i64,
    si: int,
    env: Map<Seq<char>, i64>,
    c: (int, int),
    brk: i64,
    m: Machine,
)
    requires
        fits63(x as int),
        fits63(y as int),
        running(m),
    ensures
        compile_spec(
            SpecExpr::If(
                Box::new(SpecExpr::Boolean(v)),
                Box::new(SpecExpr::Number(x)),
                Box::new(SpecExpr::Number(y)),
            ),
            si,
            env,
            c,
            brk,
        ) matches Ok((is, _)) && running(run(is, m)) && run(is, m).rax == tagged(if v { x as int } else { y as int }),
{
    let e = SpecExpr::If(Box::new(SpecExpr::Boolean(v)), Box::new(SpecExpr::Number(x)), Box::new(SpecExpr::Number(y)));
    reveal_with_fuel(compile_spec, 2);
    lemma_if_labels_differ(c.0 + 1);
    lemma_tag(x);
    lemma_tag(y);
    assert((1u64 as i64) == 1);
    assert((3u64 as i64) == 3);
    reveal_with_fuel(run_prefix, 9);
}

/// The compiled code of a `let` that binds a fresh name to a number and
/// whose body is that name leaves the number in rax.
#[verifier::rlimit(40)]
pub proof fn lemma_let_number(
    x: Seq<char>,
    a: i64,
    si: int,
    env: Map<Seq<char>, i64>,
    c: (int, int),
    brk: i64,
    m: Machine,
)
    requires
        !let_keywords().contains(x),
        !env.contains_key(x),
        fits63(a as int),
        0 <= si,
        si + 3 <= max_stack_index(),
        running(m),
    ensures
        compile_spec(
            SpecExpr::Let(seq![(x, SpecExpr::Number(a))], Box::new(SpecExpr::Id(x))),
            si,
            env,
            c,
            brk,
            ) matches Ok((is, _)) && running(run(is, m)) && run(is, m).rax == tagged(a as int),
{
    let bs = seq![(x, SpecExpr::Number(a))];
    assert(bs.drop_last() =~= Seq::<(Seq<char>, SpecExpr)>::empty());
    assert(let_keywords()[20] == "input"@);
    reveal_with_fuel(compile_binds_spec, 2);
    reveal_with_fuel(compile_spec, 2);
    let ne = Map::<Seq<char>, i64>::empty().insert(x, si as i64);
    assert(env.union_prefer_right(Map::empty()) =~= env);
    if x == "input"@ {
        assert(let_keywords()[20] == x);
    }
    let i2 = seq![SpecInstr::IMov(rax(), imm((a << 1) as u64))];
    let mv = seq![SpecInstr::IMov(stk(si), rax())];
    assert(compile_binds_spec(bs, si, env, c, brk) == Ok::<_, SpecCompileError>(
        (Seq::<SpecInstr>::empty() + i2 + mv, c, ne, si + 1),
    ));
    assert(env.union_prefer_right(ne).contains_key(x) && env.union_prefer_right(ne)[x] == si);
    let body = seq![SpecInstr::IMov(rax(), stk(si))];
    assert(compile_spec(SpecExpr::Id(x), si + 1, env.union_prefer_right(ne), c, brk) == Ok::<_, SpecCompileError>(
        (body, c),
    ));
    lemma_tag(a);
    assert(((si * 8) as i64) as int == 8 * si);
    reveal_with_fuel(run_prefix, 4);
}

} // verus!
