//! What the emitted Caduceus code computes: the instructions run on the
//! machine model, jumps going forward to their labels, and the compiled code
//! of an operator applied to two numbers leaves the operator's result in
//! rax.
use vstd::prelude::*;

use crate::caduceus::compiler::{
    FALSE, TRUE, arith_instrs, binop_tail, bool_result, both_numbers, compile_bindings_spec, compile_spec, equality_jump, inequality_jump,
    label_text, left_first, max_stack_index, overflow_check, rax, same_types, stack, unop_tail,
};
use crate::caduceus::types::{
    ArithmeticBinaryOp, ArithmeticUnaryOp, CompEqualityOp, CompInequalityOp, ComparisonBinaryOp, ComparisonUnaryOp, Op1,
    Op2, Reg, SpecCompileError, SpecExpr, SpecInstr, Val,
};
use crate::machine::{Cond, Machine, arith_flags, cond_holds, jump_if, logic_flags, reach_label, running, tagged, unknown};

verus! {

/// An operand that the model reads: rax, r10, r11, rdi, rsi, an immediate,
/// or a stack word.
pub open spec fn readable(v: Val) -> bool {
    match v {
        Val::Reg(r) => r != Reg::Rsp,
        Val::Imm(_) => true,
        Val::RegOffset(r, _) => r == Reg::Rsp,
    }
}

/// The value of a readable operand.
pub open spec fn read(m: Machine, v: Val) -> i64 {
    match v {
        Val::Reg(Reg::R10) => m.r10,
        Val::Reg(Reg::R11) => m.r11,
        Val::Reg(Reg::Rdi) => m.rdi,
        Val::Reg(Reg::Rsi) => m.rsi,
        Val::Reg(_) => m.rax,
        Val::Imm(n) => n,
        Val::RegOffset(_, o) => m.stack[o as int],
    }
}

pub open spec fn writable(v: Val) -> bool {
    readable(v) && !(v is Imm)
}

/// The machine with `x` written to a writable operand.
pub open spec fn write(m: Machine, v: Val, x: i64) -> Machine {
    match v {
        Val::Reg(Reg::R10) => Machine { r10: x, ..m },
        Val::Reg(Reg::R11) => Machine { r11: x, ..m },
        Val::Reg(Reg::Rdi) => Machine { rdi: x, ..m },
        Val::Reg(Reg::Rsi) => Machine { rsi: x, ..m },
        Val::Reg(_) => Machine { rax: x, ..m },
        Val::RegOffset(_, o) => Machine { stack: m.stack.insert(o as int, x), ..m },
        _ => m,
    }
}

/// An arithmetic instruction: `d` gets the exact result `r` cut to 64 bits,
/// and the flags follow `r`.
pub open spec fn arith(m: Machine, d: Val, s: Val, r: int) -> Machine {
    if writable(d) && readable(s) {
        write(Machine { flags: arith_flags(r), ..m }, d, r as i64)
    } else {
        unknown(m)
    }
}

/// A bitwise instruction: `d` gets `x`, and the flags follow it.
pub open spec fn logic(m: Machine, d: Val, s: Val, x: i64) -> Machine {
    if writable(d) && readable(s) {
        write(Machine { flags: logic_flags(x), ..m }, d, x)
    } else {
        unknown(m)
    }
}

/// What one instruction does. While a jump is pending, the machine passes
/// over every instruction but the label it goes to.
pub open spec fn step(m: Machine, i: SpecInstr) -> Machine {
    if !m.known {
        m
    } else if m.target is Some {
        match i {
            SpecInstr::Label(l) => reach_label(m, l),
            _ => m,
        }
    } else {
        match i {
            SpecInstr::IMov(d, s) => if writable(d) && readable(s) {
                write(m, d, read(m, s))
            } else {
                unknown(m)
            },
            SpecInstr::IAdd(d, s) => arith(m, d, s, read(m, d) + read(m, s)),
            SpecInstr::ISub(d, s) => arith(m, d, s, read(m, d) - read(m, s)),
            SpecInstr::IMul(d, s) => arith(m, d, s, read(m, d) * read(m, s)),
            SpecInstr::BitwiseAnd(d, s) => logic(m, d, s, read(m, d) & read(m, s)),
            SpecInstr::BitwiseXor(d, s) => logic(m, d, s, read(m, d) ^ read(m, s)),
            SpecInstr::Compare(d, s) => if readable(d) && readable(s) {
                Machine { flags: arith_flags(read(m, d) - read(m, s)), ..m }
            } else {
                unknown(m)
            },
            SpecInstr::Test(d, s) => if readable(d) && readable(s) {
                Machine { flags: logic_flags(read(m, d) & read(m, s)), ..m }
            } else {
                unknown(m)
            },
            SpecInstr::ShiftSignRight(d, 1) => if writable(d) {
                write(m, d, read(m, d) >> 1i64)
            } else {
                unknown(m)
            },
            SpecInstr::Jump(l) => jump_if(m, true, l),
            SpecInstr::JumpEqual(l) => jump_if(m, cond_holds(m.flags, Cond::E), l),
            SpecInstr::JumpNotEqual(l) => jump_if(m, cond_holds(m.flags, Cond::Ne), l),
            SpecInstr::JumpLess(l) => jump_if(m, cond_holds(m.flags, Cond::L), l),
            SpecInstr::JumpLessEqual(l) => jump_if(m, cond_holds(m.flags, Cond::Le), l),
            SpecInstr::JumpGreater(l) => jump_if(m, cond_holds(m.flags, Cond::G), l),
            SpecInstr::JumpGreaterEqual(l) => jump_if(m, cond_holds(m.flags, Cond::Ge), l),
            SpecInstr::JumpOverflow(l) => jump_if(m, cond_holds(m.flags, Cond::O), l),
            SpecInstr::JumpNoOverflow(l) => jump_if(m, cond_holds(m.flags, Cond::No), l),
            SpecInstr::Label(_) => m,
            _ => unknown(m),
        }
    }
}

/// The machine after running the first `n` instructions of `is` from `m`.
pub open spec fn run_prefix(is: Seq<SpecInstr>, n: int, m: Machine) -> Machine
    decreases n,
{
    if n <= 0 {
        m
    } else {
        step(run_prefix(is, n - 1, m), is[n - 1])
    }
}

/// The machine after running `is` from `m`.
pub open spec fn run(is: Seq<SpecInstr>, m: Machine) -> Machine {
    run_prefix(is, is.len() as int, m)
}

proof fn lemma_run_prefix_same(a: Seq<SpecInstr>, c: Seq<SpecInstr>, n: int, m: Machine)
    requires
        0 <= n <= a.len(),
        n <= c.len(),
        forall|i: int| 0 <= i < n ==> a[i] == c[i],
    ensures
        run_prefix(c, n, m) == run_prefix(a, n, m),
    decreases n,
{
    if n > 0 {
        lemma_run_prefix_same(a, c, n - 1, m);
    }
}

proof fn lemma_run_prefix_append(a: Seq<SpecInstr>, b: Seq<SpecInstr>, k: int, m: Machine)
    requires
        0 <= k <= b.len(),
    ensures
        run_prefix(a + b, a.len() + k, m) == run_prefix(b, k, run(a, m)),
    decreases k,
{
    if k == 0 {
        lemma_run_prefix_same(a, a + b, a.len() as int, m);
    } else {
        lemma_run_prefix_append(a, b, k - 1, m);
        assert((a + b)[a.len() + k - 1] == b[k - 1]);
    }
}

/// Running two pieces of code one after the other is running them joined.
pub proof fn lemma_run_append(a: Seq<SpecInstr>, b: Seq<SpecInstr>, m: Machine)
    ensures
        run(a + b, m) == run(b, run(a, m)),
{
    lemma_run_prefix_append(a, b, b.len() as int, m);
}

/// A number that the program can hold: 63 bits, signed.
pub open spec fn fits63(x: int) -> bool {
    -0x4000_0000_0000_0000 <= x < 0x4000_0000_0000_0000
}

/// The value of a boolean as the program holds it: true is 3, false 1.
pub open spec fn bool_value(b: bool) -> int {
    if b {
        3
    } else {
        1
    }
}

/// What an operator gives on the numbers `a` and `b`, as the program holds
/// it: a number shifted left by one bit, or a boolean.
pub open spec fn binop_result(op: Op2, a: int, b: int) -> int {
    match op {
        Op2::Arith(ArithmeticBinaryOp::Plus) => tagged(a + b),
        Op2::Arith(ArithmeticBinaryOp::Minus) => tagged(a - b),
        Op2::Arith(ArithmeticBinaryOp::Times) => tagged(a * b),
        Op2::Comp(ComparisonBinaryOp::Equality(CompEqualityOp::Equal)) => bool_value(a == b),
        Op2::Comp(ComparisonBinaryOp::Equality(CompEqualityOp::NotEqual)) => bool_value(a != b),
        Op2::Comp(ComparisonBinaryOp::Inequality(CompInequalityOp::LessEqual)) => bool_value(a <= b),
        Op2::Comp(ComparisonBinaryOp::Inequality(CompInequalityOp::GreaterEqual)) => bool_value(a >= b),
        Op2::Comp(ComparisonBinaryOp::Inequality(CompInequalityOp::Less)) => bool_value(a < b),
        Op2::Comp(ComparisonBinaryOp::Inequality(CompInequalityOp::Greater)) => bool_value(a > b),
    }
}

/// The arithmetic operators give a number that fits in 63 bits.
pub open spec fn result_fits(op: Op2, a: int, b: int) -> bool {
    match op {
        Op2::Arith(ArithmeticBinaryOp::Plus) => fits63(a + b),
        Op2::Arith(ArithmeticBinaryOp::Minus) => fits63(a - b),
        Op2::Arith(ArithmeticBinaryOp::Times) => fits63(a * b),
        _ => true,
    }
}

proof fn lemma_tag(a: i64)
    requires
        fits63(a as int),
    ensures
        a << 1 == 2 * a,
        (2 * a) as i64 & 1 == 0,
        ((2 * a) as i64) >> 1i64 == a,
{
    assert((a << 1) == 2 * a && (a << 1) & 1 == 0 && (a << 1) >> 1i64 == a) by (bit_vector)
        requires
            -0x4000_0000_0000_0000 <= a < 0x4000_0000_0000_0000;
}

/// The type check passes two numbers on, and leaves 0 in r11.
#[verifier::rlimit(40)]
proof fn lemma_same_types(off: i32, tc: Seq<char>, m: Machine)
    requires
        running(m),
        m.rax & 1 == 0,
        m.stack[off as int] & 1 == 0,
    ensures
        running(run(same_types(off, tc), m)),
        run(same_types(off, tc), m).rax == m.rax,
        run(same_types(off, tc), m).stack == m.stack,
        run(same_types(off, tc), m).r11 == 0,
{
    reveal_with_fuel(run_prefix, 13);
}

/// The number check passes on where r11 is 0.
proof fn lemma_both_numbers(ok: Seq<char>, m: Machine)
    requires
        running(m),
        m.r11 == 0,
    ensures
        running(run(both_numbers(ok), m)),
        run(both_numbers(ok), m).rax == m.rax,
        run(both_numbers(ok), m).stack == m.stack,
{
    reveal_with_fuel(run_prefix, 6);
}

/// The overflow check passes on where the last operation did not overflow.
proof fn lemma_overflow_check(no: Seq<char>, m: Machine)
    requires
        running(m),
        !m.flags.of,
    ensures
        running(run(overflow_check(no), m)),
        run(overflow_check(no), m).rax == m.rax,
{
    reveal_with_fuel(run_prefix, 5);
}

/// After a jump on a condition, rax holds true where the jump was taken and
/// false where it was not.
proof fn lemma_bool_result(t: Seq<char>, d: Seq<char>, m: Machine)
    requires
        m.known,
        m.target is None || m.target == Some(t),
        t != d,
    ensures
        running(run(bool_result(t, d), m)),
        run(bool_result(t, d), m).rax == bool_value(m.target is Some),
{
    reveal_with_fuel(run_prefix, 6);
}

proof fn lemma_labels_differ(c: nat)
    ensures
        label_text("true_lbl"@, c) != label_text("done_lbl"@, c + 1),
{
    reveal_strlit("true_lbl");
    reveal_strlit("done_lbl");
    assert(label_text("true_lbl"@, c)[0] == 't');
    assert(label_text("done_lbl"@, c + 1)[0] == 'd');
}

proof fn lemma_arith_instrs(op: ArithmeticBinaryOp, off: i32, x: i64, y: i64, m: Machine)
    requires
        running(m),
        m.stack[off as int] == 2 * x,
        m.rax == 2 * y,
        fits63(x as int),
        fits63(y as int),
        match op {
            ArithmeticBinaryOp::Plus => fits63(y + x),
            ArithmeticBinaryOp::Minus => fits63(y - x),
            ArithmeticBinaryOp::Times => fits63(y * x),
        },
    ensures
        running(run(arith_instrs(op, off), m)),
        !run(arith_instrs(op, off), m).flags.of,
        run(arith_instrs(op, off), m).rax == match op {
            ArithmeticBinaryOp::Plus => tagged(y + x),
            ArithmeticBinaryOp::Minus => tagged(y - x),
            ArithmeticBinaryOp::Times => tagged(y * x),
        },
{
    lemma_tag(y);
    reveal_with_fuel(run_prefix, 3);
    if op == ArithmeticBinaryOp::Times {
        assert(y * (2 * x) == 2 * (y * x)) by (nonlinear_arith);
    }
}

proof fn lemma_compare_jump(j: SpecInstr, c: Cond, t: Seq<char>, off: i32, m: Machine)
    requires
        running(m),
        j == SpecInstr::JumpEqual(t) && c == Cond::E || j == SpecInstr::JumpNotEqual(t) && c == Cond::Ne || j
            == SpecInstr::JumpLess(t) && c == Cond::L || j == SpecInstr::JumpLessEqual(t) && c == Cond::Le || j
            == SpecInstr::JumpGreater(t) && c == Cond::G || j == SpecInstr::JumpGreaterEqual(t) && c == Cond::Ge,
    ensures
        run(seq![SpecInstr::Compare(rax(), stack(off)), j], m).known,
        run(seq![SpecInstr::Compare(rax(), stack(off)), j], m).target == if cond_holds(
            arith_flags(m.rax - m.stack[off as int]),
            c,
        ) {
            Some(t)
        } else {
            None
        },
{
    reveal_with_fuel(run_prefix, 3);
}

/// The tail of an arithmetic operator on the numbers `x`, in the slot at
/// `off`, and `y`, in rax.
#[verifier::rlimit(40)]
proof fn lemma_arith_tail(op: ArithmeticBinaryOp, off: i32, c: nat, x: i64, y: i64, m: Machine)
    requires
        running(m),
        m.stack[off as int] == 2 * x,
        m.rax == 2 * y,
        fits63(x as int),
        fits63(y as int),
        match op {
            ArithmeticBinaryOp::Plus => fits63(y + x),
            ArithmeticBinaryOp::Minus => fits63(y - x),
            ArithmeticBinaryOp::Times => fits63(y * x),
        },
    ensures
        running(run(binop_tail(Op2::Arith(op), off, c).0, m)),
        run(binop_tail(Op2::Arith(op), off, c).0, m).rax == match op {
            ArithmeticBinaryOp::Plus => tagged(y + x),
            ArithmeticBinaryOp::Minus => tagged(y - x),
            ArithmeticBinaryOp::Times => tagged(y * x),
        },
{
    lemma_tag(x);
    lemma_tag(y);
    let tc = label_text("type_checker"@, c + 2);
    let ts = label_text("success_check"@, c + 3);
    let no = label_text("no_overflow"@, c + 4);
    lemma_same_types(off, tc, m);
    let m2 = run(same_types(off, tc), m);
    lemma_both_numbers(ts, m2);
    let m3 = run(both_numbers(ts), m2);
    lemma_run_append(same_types(off, tc), both_numbers(ts), m);
    lemma_arith_instrs(op, off, x, y, m3);
    let m4 = run(arith_instrs(op, off), m3);
    lemma_overflow_check(no, m4);
    lemma_run_append(same_types(off, tc) + both_numbers(ts), arith_instrs(op, off), m);
    lemma_run_append(same_types(off, tc) + both_numbers(ts) + arith_instrs(op, off), overflow_check(no), m);
}

/// The tail of a comparison on the numbers `x`, in the slot at `off`, and
/// `y`, in rax: true where the comparison of `y` with `x` holds.
#[verifier::rlimit(40)]
proof fn lemma_compare_tail(op: ComparisonBinaryOp, off: i32, c: nat, x: i64, y: i64, m: Machine)
    requires
        running(m),
        m.stack[off as int] == 2 * x,
        m.rax == 2 * y,
        fits63(x as int),
        fits63(y as int),
    ensures
        running(run(binop_tail(Op2::Comp(op), off, c).0, m)),
        run(binop_tail(Op2::Comp(op), off, c).0, m).rax == binop_result(Op2::Comp(op), y as int, x as int),
{
    lemma_tag(x);
    lemma_tag(y);
    let t = label_text("true_lbl"@, c);
    let d = label_text("done_lbl"@, c + 1);
    let tc = label_text("type_checker"@, c + 2);
    lemma_labels_differ(c);
    lemma_same_types(off, tc, m);
    let m2 = run(same_types(off, tc), m);
    match op {
        ComparisonBinaryOp::Equality(q) => {
            let j = seq![SpecInstr::Compare(rax(), stack(off)), equality_jump(q, t)];
            lemma_compare_jump(equality_jump(q, t), if q == CompEqualityOp::Equal { Cond::E } else { Cond::Ne }, t, off, m2);
            let m4 = run(j, m2);
            lemma_bool_result(t, d, m4);
            lemma_run_append(same_types(off, tc), j, m);
            lemma_run_append(same_types(off, tc) + j, bool_result(t, d), m);
        },
        ComparisonBinaryOp::Inequality(q) => {
            let cs = label_text("check_success"@, c + 4);
            lemma_both_numbers(cs, m2);
            let m3 = run(both_numbers(cs), m2);
            let j = seq![SpecInstr::Compare(rax(), stack(off)), inequality_jump(q, t)];
            lemma_compare_jump(
                inequality_jump(q, t),
                match q {
                    CompInequalityOp::LessEqual => Cond::Le,
                    CompInequalityOp::GreaterEqual => Cond::Ge,
                    CompInequalityOp::Less => Cond::L,
                    CompInequalityOp::Greater => Cond::G,
                },
                t,
                off,
                m3,
            );
            let m4 = run(j, m3);
            lemma_bool_result(t, d, m4);
            lemma_run_append(same_types(off, tc), both_numbers(cs), m);
            lemma_run_append(same_types(off, tc) + both_numbers(cs), j, m);
            lemma_run_append(same_types(off, tc) + both_numbers(cs) + j, bool_result(t, d), m);
        },
    }
}

/// The compiled code of an operator applied to two numbers leaves the
/// operator's result in rax, where the arithmetic operators' results fit in
/// 63 bits: the sum, difference or product shifted left by one bit, or true
/// (3) exactly where the comparison of the first with the second holds and
/// false (1) otherwise.
#[verifier::rlimit(40)]
pub proof fn lemma_binop_numbers(
    op: Op2,
    a: i64,
    b: i64,
    si: int,
    env: Map<Seq<char>, i32>,
    counter: nat,
    lbl: Option<Seq<char>>,
    m: Machine,
)
    requires
        fits63(a as int),
        fits63(b as int),
        result_fits(op, a as int, b as int),
        0 <= si,
        si + 3 <= max_stack_index(),
        running(m),
    ensures
        compile_spec(
            SpecExpr::BinOp(op, Box::new(SpecExpr::Number(a)), Box::new(SpecExpr::Number(b))),
            si,
            env,
            counter,
            lbl,
        ) matches Ok((is, _)) && running(run(is, m)) && run(is, m).rax == binop_result(op, a as int, b as int),
{
    let e = SpecExpr::BinOp(op, Box::new(SpecExpr::Number(a)), Box::new(SpecExpr::Number(b)));
    let is = compile_spec(e, si, env, counter, lbl)->Ok_0.0;
    let off = (si * 8) as i32;
    let (x, y) = if left_first(op) {
        (a, b)
    } else {
        (b, a)
    };
    let pre = seq![SpecInstr::IMov(rax(), Val::Imm(x << 1))] + seq![SpecInstr::IMov(stack(off), rax())] + seq![
        SpecInstr::IMov(rax(), Val::Imm(y << 1)),
    ];
    reveal_with_fuel(compile_spec, 2);
    assert(is == pre + binop_tail(op, off, counter).0);
    lemma_run_append(pre, binop_tail(op, off, counter).0, m);
    lemma_tag(x);
    lemma_tag(y);
    reveal_with_fuel(run_prefix, 4);
    let m1 = run(pre, m);
    assert(m1.stack[off as int] == 2 * x && m1.rax == 2 * y && running(m1));
    match op {
        Op2::Arith(q) => {
            lemma_arith_tail(q, off, counter, x, y, m1);
        },
        Op2::Comp(q) => {
            lemma_compare_tail(q, off, counter, x, y, m1);
        },
    }
}

/// What a unary operator gives on the number `a`, as the program holds it.
pub open spec fn unop_number_result(op: Op1, a: int) -> int {
    match op {
        Op1::Arith(ArithmeticUnaryOp::Add1) => tagged(a + 1),
        Op1::Arith(ArithmeticUnaryOp::Sub1) => tagged(a - 1),
        Op1::Comp(ComparisonUnaryOp::IsNum) => bool_value(true),
        Op1::Comp(ComparisonUnaryOp::IsBool) => bool_value(false),
    }
}

proof fn lemma_unary_labels_differ(c: nat)
    ensures
        label_text("unary_comp_else_lbl"@, c + 1) != label_text("unary_comp_done_lbl"@, c + 2),
{
    reveal_strlit("unary_comp_else_lbl");
    reveal_strlit("unary_comp_done_lbl");
    assert(label_text("unary_comp_else_lbl"@, c + 1)[11] == 'e');
    assert(label_text("unary_comp_done_lbl"@, c + 2)[11] == 'd');
}

/// `isnum` and `isbool` on a value in rax whose low bit tells its type.
#[verifier::rlimit(40)]
proof fn lemma_type_test(q: ComparisonUnaryOp, c: nat, m: Machine)
    requires
        running(m),
    ensures
        running(run(unop_tail(Op1::Comp(q), c).0, m)),
        run(unop_tail(Op1::Comp(q), c).0, m).rax == bool_value((q == ComparisonUnaryOp::IsNum) == (m.rax & 1 == 0)),
{
    lemma_unary_labels_differ(c);
    reveal_with_fuel(run_prefix, 10);
    let x = m.rax;
    assert(x & 1 == 0 || x & 1 == 1) by (bit_vector);
}

/// `add1` and `sub1` on a number in rax.
#[verifier::rlimit(40)]
proof fn lemma_add_sub(q: ArithmeticUnaryOp, c: nat, a: i64, m: Machine)
    requires
        running(m),
        m.rax == 2 * a,
        fits63(a as int),
        q == ArithmeticUnaryOp::Add1 ==> fits63(a + 1),
        q == ArithmeticUnaryOp::Sub1 ==> fits63(a - 1),
    ensures
        running(run(unop_tail(Op1::Arith(q), c).0, m)),
        run(unop_tail(Op1::Arith(q), c).0, m).rax == unop_number_result(Op1::Arith(q), a as int),
{
    lemma_tag(a);
    reveal_with_fuel(run_prefix, 13);
}

/// The compiled code of a unary operator applied to a number leaves its
/// result in rax, where `add1` and `sub1` give a number that fits in 63
/// bits: the number plus or minus one shifted left by one bit, true (3) for
/// `isnum`, false (1) for `isbool`.
#[verifier::rlimit(40)]
pub proof fn lemma_unop_number(
    op: Op1,
    a: i64,
    si: int,
    env: Map<Seq<char>, i32>,
    counter: nat,
    lbl: Option<Seq<char>>,
    m: Machine,
)
    requires
        fits63(a as int),
        op == Op1::Arith(ArithmeticUnaryOp::Add1) ==> fits63(a + 1),
        op == Op1::Arith(ArithmeticUnaryOp::Sub1) ==> fits63(a - 1),
        running(m),
    ensures
        compile_spec(SpecExpr::UnOp(op, Box::new(SpecExpr::Number(a))), si, env, counter, lbl) matches Ok((is, _))
            && running(run(is, m)) && run(is, m).rax == unop_number_result(op, a as int),
{
    let e = SpecExpr::UnOp(op, Box::new(SpecExpr::Number(a)));
    let is = compile_spec(e, si, env, counter, lbl)->Ok_0.0;
    let pre = seq![SpecInstr::IMov(rax(), Val::Imm(a << 1))];
    reveal_with_fuel(compile_spec, 2);
    assert(is == pre + unop_tail(op, counter).0);
    lemma_run_append(pre, unop_tail(op, counter).0, m);
    lemma_tag(a);
    reveal_with_fuel(run_prefix, 2);
    let m1 = run(pre, m);
    assert(m1.rax == 2 * a && running(m1));
    match op {
        Op1::Arith(q) => lemma_add_sub(q, counter, a, m1),
        Op1::Comp(q) => lemma_type_test(q, counter, m1),
    }
}

/// The compiled code of `isnum` or `isbool` applied to a boolean leaves
/// false (1) for `isnum` and true (3) for `isbool` in rax.
#[verifier::rlimit(40)]
pub proof fn lemma_unop_boolean(
    q: ComparisonUnaryOp,
    v: bool,
    si: int,
    env: Map<Seq<char>, i32>,
    counter: nat,
    lbl: Option<Seq<char>>,
    m: Machine,
)
    requires
        running(m),
    ensures
        compile_spec(SpecExpr::UnOp(Op1::Comp(q), Box::new(SpecExpr::Bool(v))), si, env, counter, lbl) matches Ok(
            (is, _),
        ) && running(run(is, m)) && run(is, m).rax == bool_value(q == ComparisonUnaryOp::IsBool),
{
    let e = SpecExpr::UnOp(Op1::Comp(q), Box::new(SpecExpr::Bool(v)));
    let is = compile_spec(e, si, env, counter, lbl)->Ok_0.0;
    let pre = seq![SpecInstr::IMov(rax(), Val::Imm(if v { TRUE } else { FALSE }))];
    reveal_with_fuel(compile_spec, 2);
    assert(is == pre + unop_tail(Op1::Comp(q), counter).0);
    lemma_run_append(pre, unop_tail(Op1::Comp(q), counter).0, m);
    reveal_with_fuel(run_prefix, 2);
    let m1 = run(pre, m);
    let r = m1.rax;
    assert(r == 1 || r == 3);
    assert(r & 1 != 0) by (bit_vector)
        requires
            r == 1 || r == 3;
    lemma_type_test(q, counter, m1);
}

proof fn lemma_if_labels_differ(c: nat)
    ensures
        label_text("false_lbl"@, c) != label_text("done_lbl"@, c + 1),
{
    reveal_strlit("false_lbl");
    reveal_strlit("done_lbl");
    assert(label_text("false_lbl"@, c)[0] == 'f');
    assert(label_text("done_lbl"@, c + 1)[0] == 'd');
}

/// The compiled code of an `if` on a boolean, with numbers in its branches,
/// leaves the number of the branch that the boolean picks in rax.
#[verifier::rlimit(40)]
pub proof fn lemma_if_boolean(
    v: bool,
    x: i64,
    y: i64,
    si: int,
    env: Map<Seq<char>, i32>,
    counter: nat,
    lbl: Option<Seq<char>>,
    m: Machine,
)
    requires
        fits63(x as int),
        fits63(y as int),
        running(m),
    ensures
        compile_spec(
            SpecExpr::If(Box::new(SpecExpr::Bool(v)), Box::new(SpecExpr::Number(x)), Box::new(SpecExpr::Number(y))),
            si,
            env,
            counter,
            lbl,
        ) matches Ok((is, _)) && running(run(is, m)) && run(is, m).rax == tagged(if v { x as int } else { y as int }),
{
    reveal_with_fuel(compile_spec, 2);
    lemma_if_labels_differ(counter);
    lemma_tag(x);
    lemma_tag(y);
    reveal_with_fuel(run_prefix, 9);
}

/// The compiled code of a `let` that binds a name to a number and whose
/// body is that name leaves the number in rax.
#[verifier::rlimit(40)]
pub proof fn lemma_let_number(
    x: Seq<char>,
    a: i64,
    si: int,
    env: Map<Seq<char>, i32>,
    counter: nat,
    lbl: Option<Seq<char>>,
    m: Machine,
)
    requires
        fits63(a as int),
        0 <= si,
        si + 3 <= max_stack_index(),
        running(m),
    ensures
        compile_spec(
            SpecExpr::Let(seq![(x, SpecExpr::Number(a))], Box::new(SpecExpr::Id(x))),
            si,
            env,
            counter,
            lbl,
        ) matches Ok((is, _)) && running(run(is, m)) && run(is, m).rax == tagged(a as int),
{
    let bs = seq![(x, SpecExpr::Number(a))];
    assert(bs.drop_last() =~= Seq::<(Seq<char>, SpecExpr)>::empty());
    reveal_with_fuel(compile_bindings_spec, 2);
    reveal_with_fuel(compile_spec, 2);
    let env1 = env.insert(x, (si * 8) as i32);
    let i2 = seq![SpecInstr::IMov(rax(), Val::Imm(a << 1))];
    let mv = seq![SpecInstr::IMov(stack((si * 8) as i32), rax())];
    assert(compile_bindings_spec(bs, si, env, counter, lbl) == Ok::<_, SpecCompileError>(
        (Seq::<SpecInstr>::empty() + i2 + mv, counter, env1, si + 1),
    ));
    let body = seq![SpecInstr::IMov(rax(), stack((si * 8) as i32))];
    assert(compile_spec(SpecExpr::Id(x), si + 1, env1, counter, lbl) == Ok::<_, SpecCompileError>((body, counter)));
    lemma_tag(a);
    reveal_with_fuel(run_prefix, 4);
}

} // verus!
