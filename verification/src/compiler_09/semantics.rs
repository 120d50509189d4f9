//! What the emitted code of the second Caduceus compiler computes: the
//! instructions run on the machine model, and the compiled code of an
//! operator applied to two numbers leaves the operator's result in rax.
use vstd::prelude::*;

use crate::compiler_09::{
    Op1, Op2, Reg, SpecCompileError, SpecExpr, SpecInstr, Val, binop_tail, compile_binds_spec, compile_spec, label_text, max_stack_index, number_test, rax, rbx, select,
    slot, unop_tail,
};
use crate::machine::{Cond, Machine, arith_flags, cond_holds, jump_if, logic_flags, reach_label, running, tagged, unknown};

verus! {

/// An operand that the model reads: rax, rbx, rdi, an immediate, or a stack
/// word.
pub open spec fn readable(v: Val) -> bool {
    match v {
        Val::Reg(r) => r != Reg::RSP,
        Val::Imm(_) => true,
        Val::RegOffset(r, _) => r == Reg::RSP,
    }
}

/// The value of a readable operand.
pub open spec fn read(m: Machine, v: Val) -> i64 {
    match v {
        Val::Reg(Reg::RBX) => m.rbx,
        Val::Reg(Reg::RDI) => m.rdi,
        Val::Reg(_) => m.rax,
        Val::Imm(n) => n,
        Val::RegOffset(_, o) => m.stack[o as int],
    }
}

pub open spec fn writable(v: Val) -> bool {
    readable(v) && !(v is Imm)
}

/// The machine with `x` written to a writable operand.
pub open spec fn write(m: Machine, v: Val, x: i64) -> Machine {
    match v {
        Val::Reg(Reg::RBX) => Machine { rbx: x, ..m },
        Val::Reg(Reg::RDI) => Machine { rdi: x, ..m },
        Val::Reg(_) => Machine { rax: x, ..m },
        Val::RegOffset(_, o) => Machine { stack: m.stack.insert(o as int, x), ..m },
        _ => m,
    }
}

/// An arithmetic instruction: `d` gets the exact result `r` cut to 64 bits,
/// and the flags follow `r`.
pub open spec fn arith(m: Machine, d: Val, s: Val, r: int) -> Machine {
    if writable(d) && readable(s) {
        write(Machine { flags: arith_flags(r), ..m }, d, r as i64)
    } else {
        unknown(m)
    }
}

/// A bitwise instruction: `d` gets `x`, and the flags follow it.
pub open spec fn logic(m: Machine, d: Val, s: Val, x: i64) -> Machine {
    if writable(d) && readable(s) {
        write(Machine { flags: logic_flags(x), ..m }, d, x)
    } else {
        unknown(m)
    }
}

/// A conditional move.
pub open spec fn cmov(m: Machine, d: Val, s: Val, c: Cond) -> Machine {
    if writable(d) && readable(s) {
        if cond_holds(m.flags, c) {
            write(m, d, read(m, s))
        } else {
            m
        }
    } else {
        unknown(m)
    }
}

/// What one instruction does. `jo` goes to the label `overflow`. While a
/// jump is pending, the machine passes over every instruction but the label
/// it goes to.
pub open spec fn step(m: Machine, i: SpecInstr) -> Machine {
    if !m.known {
        m
    } else if m.target is Some {
        match i {
            SpecInstr::ILabel(l) => reach_label(m, l),
            _ => m,
        }
    } else {
        match i {
            SpecInstr::IMov(d, s) => if writable(d) && readable(s) {
                write(m, d, read(m, s))
            } else {
                unknown(m)
            },
            SpecInstr::IAdd(d, s) => arith(m, d, s, read(m, d) + read(m, s)),
            SpecInstr::ISub(d, s) => arith(m, d, s, read(m, d) - read(m, s)),
            SpecInstr::IMul(d, s) => arith(m, d, s, read(m, d) * read(m, s)),
            SpecInstr::IAnd(d, s) => logic(m, d, s, read(m, d) & read(m, s)),
            SpecInstr::IXor(d, s) => logic(m, d, s, read(m, d) ^ read(m, s)),
            SpecInstr::ICmp(d, s) => if readable(d) && readable(s) {
                Machine { flags: arith_flags(read(m, d) - read(m, s)), ..m }
            } else {
                unknown(m)
            },
            SpecInstr::ITest(d, s) => if readable(d) && readable(s) {
                Machine { flags: logic_flags(read(m, d) & read(m, s)), ..m }
            } else {
                unknown(m)
            },
            SpecInstr::ICMov(d, s) => cmov(m, d, s, Cond::E),
            SpecInstr::ICMovg(d, s) => cmov(m, d, s, Cond::G),
            SpecInstr::ICMovge(d, s) => cmov(m, d, s, Cond::Ge),
            SpecInstr::ICmovl(d, s) => cmov(m, d, s, Cond::L),
            SpecInstr::ICmovle(d, s) => cmov(m, d, s, Cond::Le),
            SpecInstr::ISar(d, Val::Imm(1)) => if writable(d) {
                write(m, d, read(m, d) >> 1i64)
            } else {
                unknown(m)
            },
            SpecInstr::IJe(l) => jump_if(m, cond_holds(m.flags, Cond::E), l),
            SpecInstr::IJne(l) => jump_if(m, cond_holds(m.flags, Cond::Ne), l),
            SpecInstr::IJo() => jump_if(m, cond_holds(m.flags, Cond::O), "overflow"@),
            SpecInstr::IJmp(l) => jump_if(m, true, l),
            SpecInstr::ILabel(_) => m,
            _ => unknown(m),
        }
    }
}

/// The machine after running the first `n` instructions of `is` from `m`.
pub open spec fn run_prefix(is: Seq<SpecInstr>, n: int, m: Machine) -> Machine
    decreases n,
{
    if n <= 0 {
        m
    } else {
        step(run_prefix(is, n - 1, m), is[n - 1])
    }
}

/// The machine after running `is` from `m`.
pub open spec fn run(is: Seq<SpecInstr>, m: Machine) -> Machine {
    run_prefix(is, is.len() as int, m)
}

proof fn lemma_run_prefix_same(a: Seq<SpecInstr>, c: Seq<SpecInstr>, n: int, m: Machine)
    requires
        0 <= n <= a.len(),
        n <= c.len(),
        forall|i: int| 0 <= i < n ==> a[i] == c[i],
    ensures
        run_prefix(c, n, m) == run_prefix(a, n, m),
    decreases n,
{
    if n > 0 {
        lemma_run_prefix_same(a, c, n - 1, m);
    }
}

proof fn lemma_run_prefix_append(a: Seq<SpecInstr>, b: Seq<SpecInstr>, k: int, m: Machine)
    requires
        0 <= k <= b.len(),
    ensures
        run_prefix(a + b, a.len() + k, m) == run_prefix(b, k, run(a, m)),
    decreases k,
{
    if k == 0 {
        lemma_run_prefix_same(a, a + b, a.len() as int, m);
    } else {
        lemma_run_prefix_append(a, b, k - 1, m);
        assert((a + b)[a.len() + k - 1] == b[k - 1]);
    }
}

/// Running two pieces of code one after the other is running them joined.
pub proof fn lemma_run_append(a: Seq<SpecInstr>, b: Seq<SpecInstr>, m: Machine)
    ensures
        run(a + b, m) == run(b, run(a, m)),
{
    lemma_run_prefix_append(a, b, b.len() as int, m);
}

/// A number that the program can hold: 63 bits, signed.
pub open spec fn fits63(x: int) -> bool {
    -0x4000_0000_0000_0000 <= x < 0x4000_0000_0000_0000
}

/// The value of a boolean as the program holds it: true is 3, false 1.
pub open spec fn bool_value(b: bool) -> int {
    if b {
        3
    } else {
        1
    }
}

/// What an operator gives on the numbers `a` and `b`, as the program holds
/// it: a number shifted left by one bit, or a boolean.
pub open spec fn binop_result(op: Op2, a: int, b: int) -> int {
    match op {
        Op2::Plus => tagged(a + b),
        Op2::Minus => tagged(a - b),
        Op2::Times => tagged(a * b),
        Op2::Equal => bool_value(a == b),
        Op2::Greater => bool_value(a > b),
        Op2::GreaterEqual => bool_value(a >= b),
        Op2::Less => bool_value(a < b),
        Op2::LessEqual => bool_value(a <= b),
    }
}

/// The arithmetic operators give a number that fits in 63 bits.
pub open spec fn result_fits(op: Op2, a: int, b: int) -> bool {
    match op {
        Op2::Plus => fits63(a + b),
        Op2::Minus => fits63(a - b),
        Op2::Times => fits63(a * b),
        _ => true,
    }
}

proof fn lemma_tag(a: i64)
    requires
        fits63(a as int),
    ensures
        a << 1 == 2 * a,
        (2 * a) as i64 & 1 == 0,
        ((2 * a) as i64) >> 1i64 == a,
{
    assert((a << 1) == 2 * a && (a << 1) & 1 == 0 && (a << 1) >> 1i64 == a) by (bit_vector)
        requires
            -0x4000_0000_0000_0000 <= a < 0x4000_0000_0000_0000;
}

proof fn lemma_even(x: i64, y: i64)
    requires
        x & 1 == 0,
        y & 1 == 0,
    ensures
        x ^ 0i64 == x,
        (x ^ y) & 1i64 == 0,
{
    assert(x ^ 0i64 == x && (x ^ y) & 1i64 == 0) by (bit_vector)
        requires
            x & 1 == 0,
            y & 1 == 0;
}

/// The checks that both operands are numbers.
pub open spec fn number_checks(off: Val) -> Seq<SpecInstr> {
    seq![SpecInstr::IMov(rbx(), rax())] + number_test() + seq![SpecInstr::IMov(rbx(), off)] + number_test()
}

/// What follows the checks of an arithmetic or ordering operator.
pub open spec fn after_checks(op: Op2, off: Val) -> Seq<SpecInstr> {
    binop_tail(op, off).subrange(8, binop_tail(op, off).len() as int)
}

#[verifier::rlimit(40)]
proof fn lemma_number_checks(si: int, m: Machine)
    requires
        running(m),
        0 <= si,
        si + 2 <= max_stack_index(),
        m.rax & 1 == 0,
        m.stack[8 * si] & 1 == 0,
    ensures
        running(run(number_checks(slot(si)), m)),
        run(number_checks(slot(si)), m).rax == m.rax,
        run(number_checks(slot(si)), m).stack[8 * si] == m.stack[8 * si],
{
    reveal_with_fuel(run_prefix, 9);
    assert(((si * 8) as i32) as int == 8 * si);
    lemma_even(m.rax, m.stack[8 * si]);
    lemma_even(m.stack[8 * si], m.rax);
}

#[verifier::rlimit(40)]
proof fn lemma_after_arith(op: Op2, si: int, a: i64, b: i64, m: Machine)
    requires
        op == Op2::Plus || op == Op2::Minus || op == Op2::Times,
        running(m),
        m.stack[8 * si] == 2 * a,
        m.rax == 2 * b,
        fits63(a as int),
        fits63(b as int),
        result_fits(op, a as int, b as int),
        0 <= si,
        si + 3 <= max_stack_index(),
    ensures
        binop_tail(op, slot(si)) =~= number_checks(slot(si)) + after_checks(op, slot(si)),
        running(run(after_checks(op, slot(si)), m)),
        run(after_checks(op, slot(si)), m).rax == binop_result(op, a as int, b as int),
{
    reveal_with_fuel(run_prefix, 4);
    assert(((si * 8) as i32) as int == 8 * si);
    let off = slot(si);
    let r = after_checks(op, off);
    match op {
        Op2::Times => {
            lemma_tag(b);
            assert(r =~= seq![SpecInstr::ISar(rax(), Val::Imm(1)), SpecInstr::IMul(rax(), off), SpecInstr::IJo()]);
            assert(b * (2 * a) == 2 * (a * b)) by (nonlinear_arith);
        },
        Op2::Plus => {
            assert(r =~= seq![SpecInstr::IAdd(rax(), off), SpecInstr::IJo()]);
        },
        _ => {
            assert(r =~= seq![SpecInstr::ISub(off, rax()), SpecInstr::IMov(rax(), off), SpecInstr::IJo()]);
        },
    }
}

#[verifier::rlimit(40)]
proof fn lemma_select(si: int, ci: SpecInstr, c: Cond, m: Machine)
    requires
        running(m),
        0 <= si,
        si + 3 <= max_stack_index(),
        ci == SpecInstr::ICMovg(rax(), rbx()) && c == Cond::G || ci == SpecInstr::ICMovge(rax(), rbx()) && c == Cond::Ge
            || ci == SpecInstr::ICmovl(rax(), rbx()) && c == Cond::L || ci == SpecInstr::ICmovle(rax(), rbx()) && c
            == Cond::Le,
    ensures
        running(run(seq![SpecInstr::ICmp(slot(si), rax())] + select(ci), m)),
        run(seq![SpecInstr::ICmp(slot(si), rax())] + select(ci), m).rax == bool_value(
            cond_holds(arith_flags(m.stack[8 * si] - m.rax), c),
        ),
{
    reveal_with_fuel(run_prefix, 5);
    assert(((si * 8) as i32) as int == 8 * si);
}

#[verifier::rlimit(40)]
proof fn lemma_after_order(op: Op2, si: int, a: i64, b: i64, m: Machine)
    requires
        op == Op2::Greater || op == Op2::GreaterEqual || op == Op2::Less || op == Op2::LessEqual,
        running(m),
        m.stack[8 * si] == 2 * a,
        m.rax == 2 * b,
        0 <= si,
        si + 3 <= max_stack_index(),
    ensures
        binop_tail(op, slot(si)) =~= number_checks(slot(si)) + after_checks(op, slot(si)),
        running(run(after_checks(op, slot(si)), m)),
        run(after_checks(op, slot(si)), m).rax == binop_result(op, a as int, b as int),
{
    let off = slot(si);
    let r = after_checks(op, off);
    let compare = SpecInstr::ICmp(off, rax());
    match op {
        Op2::Greater => {
            assert(r =~= seq![compare] + select(SpecInstr::ICMovg(rax(), rbx())));
            lemma_select(si, SpecInstr::ICMovg(rax(), rbx()), Cond::G, m);
        },
        Op2::GreaterEqual => {
            assert(r =~= seq![compare] + select(SpecInstr::ICMovge(rax(), rbx())));
            lemma_select(si, SpecInstr::ICMovge(rax(), rbx()), Cond::Ge, m);
        },
        Op2::Less => {
            assert(r =~= seq![compare] + select(SpecInstr::ICmovl(rax(), rbx())));
            lemma_select(si, SpecInstr::ICmovl(rax(), rbx()), Cond::L, m);
        },
        _ => {
            assert(r =~= seq![compare] + select(SpecInstr::ICmovle(rax(), rbx())));
            lemma_select(si, SpecInstr::ICmovle(rax(), rbx()), Cond::Le, m);
        },
    }
}

#[verifier::rlimit(40)]
proof fn lemma_equal_tail(si: int, a: i64, b: i64, m: Machine)
    requires
        running(m),
        m.stack[8 * si] == 2 * a,
        m.rax == 2 * b,
        fits63(a as int),
        fits63(b as int),
        0 <= si,
        si + 3 <= max_stack_index(),
    ensures
        running(run(binop_tail(Op2::Equal, slot(si)), m)),
        run(binop_tail(Op2::Equal, slot(si)), m).rax == binop_result(Op2::Equal, a as int, b as int),
{
    reveal_with_fuel(run_prefix, 9);
    assert(((si * 8) as i32) as int == 8 * si);
    lemma_tag(a);
    lemma_tag(b);
    lemma_even(m.rax, m.stack[8 * si]);
}

/// The compiled code of an operator applied to two numbers leaves the
/// operator's result in rax, where the arithmetic operators' results fit in
/// 63 bits: the sum, difference or product shifted left by one bit, or true
/// (3) exactly where the comparison of the first with the second holds and
/// false (1) otherwise.
#[verifier::rlimit(40)]
pub proof fn lemma_binop_numbers(
    op: Op2,
    a: i64,
    b: i64,
    si: int,
    env: Map<Seq<char>, i32>,
    l: int,
    brk: Seq<char>,
    m: Machine,
)
    requires
        fits63(a as int),
        fits63(b as int),
        result_fits(op, a as int, b as int),
        0 <= si,
        si + 3 <= max_stack_index(),
        running(m),
    ensures
        compile_spec(
            SpecExpr::BinOp(op, Box::new(SpecExpr::Number(a)), Box::new(SpecExpr::Number(b))),
            si,
            env,
            l,
            brk,
        ) matches Ok((is, _)) && running(run(is, m)) && run(is, m).rax == binop_result(op, a as int, b as int),
{
    let e = SpecExpr::BinOp(op, Box::new(SpecExpr::Number(a)), Box::new(SpecExpr::Number(b)));
    let is = compile_spec(e, si, env, l, brk)->Ok_0.0;
    let pre = seq![SpecInstr::IMov(rax(), Val::Imm(a << 1))] + seq![SpecInstr::IMov(slot(si), rax())] + seq![
        SpecInstr::IMov(rax(), Val::Imm(b << 1)),
    ];
    reveal_with_fuel(compile_spec, 2);
    assert(is == pre + binop_tail(op, slot(si)));
    lemma_run_append(pre, binop_tail(op, slot(si)), m);
    lemma_tag(a);
    lemma_tag(b);
    reveal_with_fuel(run_prefix, 4);
    assert(((si * 8) as i32) as int == 8 * si);
    let m1 = run(pre, m);
    assert(m1.stack[8 * si] == 2 * a && m1.rax == 2 * b && running(m1));
    if op == Op2::Equal {
        lemma_equal_tail(si, a, b, m1);
    } else {
        lemma_number_checks(si, m1);
        let m2 = run(number_checks(slot(si)), m1);
        if op == Op2::Plus || op == Op2::Minus || op == Op2::Times {
            lemma_after_arith(op, si, a, b, m2);
        } else {
            lemma_after_order(op, si, a, b, m2);
        }
        lemma_run_append(number_checks(slot(si)), after_checks(op, slot(si)), m1);
    }
}

/// What a unary operator gives on the number `a`, as the program holds it.
pub open spec fn unop_number_result(op: Op1, a: int) -> int {
    match op {
        Op1::Add1 => tagged(a + 1),
        Op1::Sub1 => tagged(a - 1),
        Op1::IsNum => bool_value(true),
        Op1::IsBool => bool_value(false),
    }
}

/// `isnum` and `isbool` on a value in rax whose low bit tells its type.
#[verifier::rlimit(40)]
proof fn lemma_type_test(op: Op1, m: Machine)
    requires
        running(m),
        op == Op1::IsNum || op == Op1::IsBool,
    ensures
        running(run(unop_tail(op), m)),
        run(unop_tail(op), m).rax == bool_value((op == Op1::IsNum) == (m.rax & 1 == 0)),
{
    reveal_with_fuel(run_prefix, 6);
    let x = m.rax;
    assert(x & 1 == 0 || x & 1 == 1) by (bit_vector);
}

/// The compiled code of a unary operator applied to a number leaves its
/// result in rax, where `add1` and `sub1` give a number that fits in 63
/// bits: the number plus or minus one shifted left by one bit, true (3) for
/// `isnum`, false (1) for `isbool`.
#[verifier::rlimit(40)]
pub proof fn lemma_unop_number(
    op: Op1,
    a: i64,
    si: int,
    env: Map<Seq<char>, i32>,
    l: int,
    brk: Seq<char>,
    m: Machine,
)
    requires
        fits63(a as int),
        op == Op1::Add1 ==> fits63(a + 1),
        op == Op1::Sub1 ==> fits63(a - 1),
        running(m),
    ensures
        compile_spec(SpecExpr::UnOp(op, Box::new(SpecExpr::Number(a))), si, env, l, brk) matches Ok((is, _))
            && running(run(is, m)) && run(is, m).rax == unop_number_result(op, a as int),
{
    let e = SpecExpr::UnOp(op, Box::new(SpecExpr::Number(a)));
    let is = compile_spec(e, si, env, l, brk)->Ok_0.0;
    let pre = seq![SpecInstr::IMov(rax(), Val::Imm(a << 1))];
    reveal_with_fuel(compile_spec, 2);
    assert(is == pre + unop_tail(op));
    lemma_run_append(pre, unop_tail(op), m);
    lemma_tag(a);
    reveal_with_fuel(run_prefix, 3);
    let m1 = run(pre, m);
    assert(m1.rax == 2 * a && running(m1));
    if op == Op1::IsNum || op == Op1::IsBool {
        lemma_type_test(op, m1);
    }
}

/// The compiled code of `isnum` or `isbool` applied to a boolean leaves
/// false (1) for `isnum` and true (3) for `isbool` in rax.
#[verifier::rlimit(40)]
pub proof fn lemma_unop_boolean(
    op: Op1,
    v: bool,
    si: int,
    env: Map<Seq<char>, i32>,
    l: int,
    brk: Seq<char>,
    m: Machine,
)
    requires
        op == Op1::IsNum || op == Op1::IsBool,
        running(m),
    ensures
        compile_spec(SpecExpr::UnOp(op, Box::new(SpecExpr::Boolean(v))), si, env, l, brk) matches Ok((is, _))
            && running(run(is, m)) && run(is, m).rax == bool_value(op == Op1::IsBool),
{
    let e = SpecExpr::UnOp(op, Box::new(SpecExpr::Boolean(v)));
    let is = compile_spec(e, si, env, l, brk)->Ok_0.0;
    let pre = seq![SpecInstr::IMov(rax(), Val::Imm(if v { 3 } else { 1 }))];
    reveal_with_fuel(compile_spec, 2);
    assert(is == pre + unop_tail(op));
    lemma_run_append(pre, unop_tail(op), m);
    reveal_with_fuel(run_prefix, 2);
    let m1 = run(pre, m);
    let r = m1.rax;
    assert(r == 1 || r == 3);
    assert(r & 1 != 0) by (bit_vector)
        requires
            r == 1 || r == 3;
    lemma_type_test(op, m1);
}

proof fn lemma_if_labels_differ(l: int)
    ensures
        label_text("ifelse"@, l + 1) != label_text("ifend"@, l),
{
    reveal_strlit("ifelse");
    reveal_strlit("ifend");
    assert(label_text("ifelse"@, l + 1)[3] == 'l');
    assert(label_text("ifend"@, l)[3] == 'n');
}

/// The compiled code of an `if` on a boolean, with numbers in its branches,
/// leaves the number of the branch that the boolean picks in rax.
#[verifier::rlimit(40)]
pub proof fn lemma_if_boolean(
    v: bool,
    x: i64,
    y: i64,
    si: int,
    env: Map<Seq<char>, i32>,
    l: int,
    brk: Seq<char>,
    m: Machine,
)
    requires
        fits63(x as int),
        fits63(y as int),
        running(m),
    ensures
        compile_spec(
            SpecExpr::If(
                Box::new(SpecExpr::Boolean(v)),
                Box::new(SpecExpr::Number(x)),
                Box::new(SpecExpr::Number(y)),
            ),
            si,
            env,
            l,
            brk,
        ) matches Ok((is, _)) && running(run(is, m)) && run(is, m).rax == tagged(if v { x as int } else { y as int }),
{
    reveal_with_fuel(compile_spec, 2);
    lemma_if_labels_differ(l);
    lemma_tag(x);
    lemma_tag(y);
    reveal_with_fuel(run_prefix, 9);
}

/// The compiled code of a `let` that binds a name other than `input` to a
/// number and whose body is that name leaves the number in rax.
#[verifier::rlimit(40)]
pub proof fn lemma_let_number(
    x: Seq<char>,
    a: i64,
    si: int,
    env: Map<Seq<char>, i32>,
    l: int,
    brk: Seq<char>,
    m: Machine,
)
    requires
        x != "input"@,
        fits63(a as int),
        0 <= si,
        si + 3 <= max_stack_index(),
        running(m),
    ensures
        compile_spec(SpecExpr::Let(seq![(x, SpecExpr::Number(a))], Box::new(SpecExpr::Id(x))), si, env, l, brk) matches Ok(
            (is, _),
        ) && running(run(is, m)) && run(is, m).rax == tagged(a as int),
{
    let bs = seq![(x, SpecExpr::Number(a))];
    assert(bs.drop_last() =~= Seq::<(Seq<char>, SpecExpr)>::empty());
    reveal_with_fuel(compile_binds_spec, 2);
    reveal_with_fuel(compile_spec, 2);
    let env1 = env.insert(x, (si * 8) as i32);
    let i2 = seq![SpecInstr::IMov(rax(), Val::Imm(a << 1))];
    let mv = seq![SpecInstr::IMov(slot(si), rax())];
    assert(compile_binds_spec(bs, si, env, l, brk) == Ok::<_, SpecCompileError>(
        (Seq::<SpecInstr>::empty() + i2 + mv, l, env1, si + 1, Seq::<Seq<char>>::empty().push(x)),
    ));
    let body = seq![SpecInstr::IMov(rax(), Val::RegOffset(Reg::RSP, (si * 8) as i32))];
    assert(compile_spec(SpecExpr::Id(x), si + 2, env1, l, brk) == Ok::<_, SpecCompileError>((body, l)));
    lemma_tag(a);
    reveal_with_fuel(run_prefix, 4);
}

} // verus!
