//! Compiling expressions into x86 assembly.
use vstd::prelude::*;

use crate::caduceus::types::{
    ArithmeticBinaryOp, ArithmeticUnaryOp, CompEqualityOp, CompInequalityOp, ComparisonBinaryOp,
    ComparisonUnaryOp, CompileError, Expr, Instr, Op1, Op2, Reg, SpecCompileError, SpecExpr,
    SpecInstr, Val, instr_text, view_instrs, view_expr, view_exprs, view_bindings,
};
use crate::decimal::{nat_digits, push_u64_digits};
use crate::env::{Env, env_clone, env_contents, env_get, env_new, env_update, no_bindings};

verus! {

broadcast use
    vstd::std_specs::vec::axiom_vec_decreases_to_view,
    vstd::std_specs::vec::axiom_vec_index_decreases,
    crate::caduceus::types::lemma_view_exprs,
    crate::caduceus::types::lemma_view_exprs_index,
    crate::caduceus::types::lemma_view_bindings,
    crate::caduceus::types::lemma_view_bindings_index,
;

/// The error code with which the program stops on an arithmetic overflow.
pub const OVERFLOW_ERROR: i64 = 1;
/// The error code with which the program stops on an operand of the wrong type.
pub const TYPE_MISMATCH: i64 = 2;
/// The label of the code that reports a runtime error.
pub const THROW_ERROR_LABEL: &'static str = "throw_error";

/// The tagged representation of `true`.
pub const TRUE: i64 = 0b11;
/// The tagged representation of `false`.
pub const FALSE: i64 = 0b01;

/// The largest stack index that compilation may reach: stack offsets, eight
/// bytes per index, must fit in an `i32`.
pub open spec fn max_stack_index() -> int {
    0x0fff_ffff
}

/// The number of nodes of an expression; compilation makes at most five
/// labels and uses at most one stack slot per node.
pub open spec fn expr_size(e: SpecExpr) -> nat
    decreases e, 1int,
{
    match e {
        SpecExpr::Let(bs, body) => 1 + bindings_size(bs) + expr_size(*body),
        SpecExpr::UnOp(_, a) => 1 + expr_size(*a),
        SpecExpr::BinOp(_, a, b) => 1 + expr_size(*a) + expr_size(*b),
        SpecExpr::If(c, t, f) => 1 + expr_size(*c) + expr_size(*t) + expr_size(*f),
        SpecExpr::Assign(_, a) => 1 + expr_size(*a),
        SpecExpr::Block(es) => 1 + exprs_size(es),
        SpecExpr::Loop(a) => 1 + expr_size(*a),
        SpecExpr::Break(a) => 1 + expr_size(*a),
        _ => 1,
    }
}

pub open spec fn exprs_size(es: Seq<SpecExpr>) -> nat
    decreases es, 0int,
{
    if es.len() == 0 {
        0
    } else {
        exprs_size(es.drop_last()) + expr_size(es.last())
    }
}

pub open spec fn bindings_size(bs: Seq<(Seq<char>, SpecExpr)>) -> nat
    decreases bs, 0int,
{
    if bs.len() == 0 {
        0
    } else {
        bindings_size(bs.drop_last()) + expr_size(bs.last().1)
    }
}

/// The label that `new_label` makes from a name and a counter value.
pub open spec fn label_text(s: Seq<char>, n: nat) -> Seq<char> {
    s + "_"@ + nat_digits(n)
}

pub open spec fn rax() -> Val {
    Val::Reg(Reg::Rax)
}

pub open spec fn r10() -> Val {
    Val::Reg(Reg::R10)
}

pub open spec fn r11() -> Val {
    Val::Reg(Reg::R11)
}

pub open spec fn stack(off: i32) -> Val {
    Val::RegOffset(Reg::Rsp, off)
}

/// Moves an error code into rax and jumps to the code that reports it.
pub open spec fn error_call(code: i64) -> Seq<SpecInstr> {
    seq![SpecInstr::IMov(rax(), Val::Imm(code)), SpecInstr::Jump("throw_error"@)]
}

/// Sums the tag bits of rax and of the stack slot at `off` into r11.
pub open spec fn tag_sum(off: i32) -> Seq<SpecInstr> {
    seq![
        SpecInstr::IMov(r11(), Val::Imm(0)),
        SpecInstr::IMov(r10(), rax()),
        SpecInstr::BitwiseAnd(r10(), Val::Imm(1)),
        SpecInstr::IAdd(r11(), r10()),
        SpecInstr::IMov(r10(), stack(off)),
        SpecInstr::BitwiseAnd(r10(), Val::Imm(1)),
        SpecInstr::IAdd(r11(), r10()),
    ]
}

/// Sets rax to false, or to true where the jump to `t` was taken.
pub open spec fn bool_result(t: Seq<char>, d: Seq<char>) -> Seq<SpecInstr> {
    seq![
        SpecInstr::IMov(rax(), Val::Imm(1)),
        SpecInstr::Jump(d),
        SpecInstr::Label(t),
        SpecInstr::IMov(rax(), Val::Imm(3)),
        SpecInstr::Label(d),
    ]
}

pub open spec fn arith_instrs(op: ArithmeticBinaryOp, off: i32) -> Seq<SpecInstr> {
    match op {
        ArithmeticBinaryOp::Plus => seq![SpecInstr::IAdd(rax(), stack(off))],
        ArithmeticBinaryOp::Minus => seq![SpecInstr::ISub(rax(), stack(off))],
        ArithmeticBinaryOp::Times => seq![
            SpecInstr::ShiftSignRight(rax(), 1),
            SpecInstr::IMul(rax(), stack(off)),
        ],
    }
}

pub open spec fn inequality_jump(op: CompInequalityOp, t: Seq<char>) -> SpecInstr {
    match op {
        CompInequalityOp::LessEqual => SpecInstr::JumpLessEqual(t),
        CompInequalityOp::GreaterEqual => SpecInstr::JumpGreaterEqual(t),
        CompInequalityOp::Less => SpecInstr::JumpLess(t),
        CompInequalityOp::Greater => SpecInstr::JumpGreater(t),
    }
}

/// Checks that rax and the stack slot at `off` hold values of one type,
/// jumping to the error code otherwise.
pub open spec fn same_types(off: i32, tc: Seq<char>) -> Seq<SpecInstr> {
    tag_sum(off) + seq![SpecInstr::Compare(r11(), Val::Imm(1)), SpecInstr::JumpNotEqual(tc)]
        + error_call(TYPE_MISMATCH) + seq![SpecInstr::Label(tc)]
}

/// Checks that both operands are numbers (r11 is zero), jumping to the error
/// code otherwise.
pub open spec fn both_numbers(ok: Seq<char>) -> Seq<SpecInstr> {
    seq![SpecInstr::Compare(r11(), Val::Imm(0)), SpecInstr::JumpEqual(ok)] + error_call(TYPE_MISMATCH)
        + seq![SpecInstr::Label(ok)]
}

/// Jumps to the error code where the last arithmetic operation overflowed.
pub open spec fn overflow_check(no: Seq<char>) -> Seq<SpecInstr> {
    seq![SpecInstr::JumpNoOverflow(no)] + error_call(OVERFLOW_ERROR) + seq![SpecInstr::Label(no)]
}

pub open spec fn equality_jump(op: CompEqualityOp, t: Seq<char>) -> SpecInstr {
    match op {
        CompEqualityOp::Equal => SpecInstr::JumpEqual(t),
        CompEqualityOp::NotEqual => SpecInstr::JumpNotEqual(t),
    }
}

/// What a binary operation emits once its operands are in rax (the second
/// evaluated) and in the stack slot at `off` (the first), with the counter at
/// `c`: the instructions and the counter after them.
pub open spec fn binop_tail(op: Op2, off: i32, c: nat) -> (Seq<SpecInstr>, nat) {
    let t = label_text("true_lbl"@, c);
    let d = label_text("done_lbl"@, c + 1);
    let tc = label_text("type_checker"@, c + 2);
    let ts = label_text("success_check"@, c + 3);
    match op {
        Op2::Arith(a) => (
            same_types(off, tc) + both_numbers(ts) + arith_instrs(a, off) + overflow_check(
                label_text("no_overflow"@, c + 4),
            ),
            c + 5,
        ),
        Op2::Comp(ComparisonBinaryOp::Equality(q)) => (
            same_types(off, tc) + seq![SpecInstr::Compare(rax(), stack(off)), equality_jump(q, t)]
                + bool_result(t, d),
            c + 4,
        ),
        Op2::Comp(ComparisonBinaryOp::Inequality(q)) => (
            same_types(off, tc) + both_numbers(label_text("check_success"@, c + 4)) + seq![
                SpecInstr::Compare(rax(), stack(off)),
                inequality_jump(q, t),
            ] + bool_result(t, d),
            c + 5,
        ),
    }
}

/// What a unary operation emits once its operand is in rax, with the counter
/// at `c`: the instructions and the counter after them.
pub open spec fn unop_tail(op: Op1, c: nat) -> (Seq<SpecInstr>, nat) {
    let us = label_text("unary_success"@, c);
    let tag = seq![SpecInstr::IMov(r10(), rax()), SpecInstr::BitwiseAnd(r10(), Val::Imm(1))];
    match op {
        Op1::Arith(a) => {
            let no = label_text("no_overflow"@, c + 1);
            (
                tag + seq![SpecInstr::Compare(r10(), Val::Imm(0)), SpecInstr::JumpEqual(us)]
                    + error_call(TYPE_MISMATCH) + seq![
                    SpecInstr::Label(us),
                    match a {
                        ArithmeticUnaryOp::Add1 => SpecInstr::IAdd(rax(), Val::Imm(2)),
                        ArithmeticUnaryOp::Sub1 => SpecInstr::ISub(rax(), Val::Imm(2)),
                    },
                    SpecInstr::JumpNoOverflow(no),
                ] + error_call(OVERFLOW_ERROR) + seq![SpecInstr::Label(no)],
                c + 2,
            )
        },
        Op1::Comp(q) => {
            let el = label_text("unary_comp_else_lbl"@, c + 1);
            let dn = label_text("unary_comp_done_lbl"@, c + 2);
            let (r1, r2) = match q {
                ComparisonUnaryOp::IsNum => (TRUE, FALSE),
                ComparisonUnaryOp::IsBool => (FALSE, TRUE),
            };
            (
                tag + seq![
                    SpecInstr::Compare(r10(), Val::Imm(1)),
                    SpecInstr::JumpEqual(el),
                    SpecInstr::IMov(rax(), Val::Imm(r1)),
                    SpecInstr::Jump(dn),
                    SpecInstr::Label(el),
                    SpecInstr::IMov(rax(), Val::Imm(r2)),
                    SpecInstr::Label(dn),
                ],
                c + 3,
            )
        },
    }
}

/// Addition and multiplication evaluate their left operand first; the other
/// operations evaluate their right operand first.
pub open spec fn left_first(op: Op2) -> bool {
    op == Op2::Arith(ArithmeticBinaryOp::Plus) || op == Op2::Arith(ArithmeticBinaryOp::Times)
}

/// The result of compiling: the instructions emitted and the label counter
/// after them, or the error that stops compilation.
pub type Compiled = Result<(Seq<SpecInstr>, nat), SpecCompileError>;

/// Compiles the statements of a block in order, all at stack index `si`.
pub open spec fn compile_seq_spec(
    es: Seq<SpecExpr>,
    si: int,
    env: Map<Seq<char>, i32>,
    counter: nat,
    lbl: Option<Seq<char>>,
) -> Compiled
    decreases es, 0int,
{
    if es.len() == 0 {
        Ok((Seq::empty(), counter))
    } else {
        match compile_seq_spec(es.drop_last(), si, env, counter, lbl) {
            Err(x) => Err(x),
            Ok((i1, c1)) => match compile_spec(es.last(), si, env, c1, lbl) {
                Err(x) => Err(x),
                Ok((i2, c2)) => Ok((i1 + i2, c2)),
            },
        }
    }
}

/// Compiles the bindings of a `let` in order, each stored in the next stack
/// slot and bound in the environment of the bindings after it; gives the
/// environment and stack index that the body is compiled with.
pub open spec fn compile_bindings_spec(
    bs: Seq<(Seq<char>, SpecExpr)>,
    si: int,
    env: Map<Seq<char>, i32>,
    counter: nat,
    lbl: Option<Seq<char>>,
) -> Result<(Seq<SpecInstr>, nat, Map<Seq<char>, i32>, int), SpecCompileError>
    decreases bs, 0int,
{
    if bs.len() == 0 {
        Ok((Seq::empty(), counter, env, si))
    } else {
        match compile_bindings_spec(bs.drop_last(), si, env, counter, lbl) {
            Err(x) => Err(x),
            Ok((i1, c1, env1, si1)) => match compile_spec(bs.last().1, si1, env1, c1, lbl) {
                Err(x) => Err(x),
                Ok((i2, c2)) => Ok(
                    (
                        i1 + i2 + seq![SpecInstr::IMov(stack((si1 * 8) as i32), rax())],
                        c2,
                        env1.insert(bs.last().0, (si1 * 8) as i32),
                        si1 + 1,
                    ),
                ),
            },
        }
    }
}

/// What compiling `e` emits, with stack index `si`, the environment `env`
/// from names to stack offsets, the label counter at `counter`, and `lbl` the
/// label that a `break` jumps to (none outside a loop).
pub open spec fn compile_spec(
    e: SpecExpr,
    si: int,
    env: Map<Seq<char>, i32>,
    counter: nat,
    lbl: Option<Seq<char>>,
) -> Compiled
    decreases e, 1int,
{
    match e {
        SpecExpr::Number(n) => Ok((seq![SpecInstr::IMov(rax(), Val::Imm(n << 1))], counter)),
        SpecExpr::Bool(b) => Ok(
            (seq![SpecInstr::IMov(rax(), Val::Imm(if b { TRUE } else { FALSE }))], counter),
        ),
        SpecExpr::Input => Ok((seq![SpecInstr::IMov(rax(), Val::Reg(Reg::Rdi))], counter)),
        SpecExpr::Id(x) => if env.contains_key(x) {
            Ok((seq![SpecInstr::IMov(rax(), stack(env[x]))], counter))
        } else {
            Err(SpecCompileError::UnboundIdentifier(x))
        },
        SpecExpr::BinOp(op, a, b) => {
            let off = (si * 8) as i32;
            let r1 = if left_first(op) {
                compile_spec(*a, si, env, counter, lbl)
            } else {
                compile_spec(*b, si, env, counter, lbl)
            };
            match r1 {
                Err(x) => Err(x),
                Ok((i1, c1)) => {
                    let r2 = if left_first(op) {
                        compile_spec(*b, si + 1, env, c1, lbl)
                    } else {
                        compile_spec(*a, si + 1, env, c1, lbl)
                    };
                    match r2 {
                        Err(x) => Err(x),
                        Ok((i2, c2)) => {
                            let (t, c3) = binop_tail(op, off, c2);
                            Ok((i1 + seq![SpecInstr::IMov(stack(off), rax())] + i2 + t, c3))
                        },
                    }
                },
            }
        },
        SpecExpr::UnOp(op, a) => match compile_spec(*a, si, env, counter, lbl) {
            Err(x) => Err(x),
            Ok((i1, c1)) => {
                let (t, c2) = unop_tail(op, c1);
                Ok((i1 + t, c2))
            },
        },
        SpecExpr::Let(bs, body) => match compile_bindings_spec(bs, si, env, counter, lbl) {
            Err(x) => Err(x),
            Ok((i1, c1, env1, si1)) => match compile_spec(*body, si1, env1, c1, lbl) {
                Err(x) => Err(x),
                Ok((i2, c2)) => Ok((i1 + i2, c2)),
            },
        },
        SpecExpr::If(c, t, f) => {
            let fl = label_text("false_lbl"@, counter);
            let dn = label_text("done_lbl"@, counter + 1);
            match compile_spec(*c, si, env, counter + 2, lbl) {
                Err(x) => Err(x),
                Ok((i1, c1)) => match compile_spec(*t, si, env, c1, lbl) {
                    Err(x) => Err(x),
                    Ok((i2, c2)) => match compile_spec(*f, si, env, c2, lbl) {
                        Err(x) => Err(x),
                        Ok((i3, c3)) => Ok(
                            (
                                i1 + seq![SpecInstr::Compare(rax(), Val::Imm(FALSE)), SpecInstr::JumpEqual(fl)]
                                    + i2 + seq![SpecInstr::Jump(dn), SpecInstr::Label(fl)] + i3 + seq![
                                    SpecInstr::Label(dn),
                                ],
                                c3,
                            ),
                        ),
                    },
                },
            }
        },
        SpecExpr::Assign(x, a) => if env.contains_key(x) {
            match compile_spec(*a, si, env, counter, lbl) {
                Err(y) => Err(y),
                Ok((i1, c1)) => Ok((i1 + seq![SpecInstr::IMov(stack(env[x]), rax())], c1)),
            }
        } else {
            Err(SpecCompileError::UnboundIdentifier(x))
        },
        SpecExpr::Block(es) => compile_seq_spec(es, si, env, counter, lbl),
        SpecExpr::Loop(a) => {
            let st = label_text("loop_start"@, counter);
            let dn = "loop_break_done#"@ + st;
            match compile_spec(*a, si, env, counter + 1, Some(dn)) {
                Err(x) => Err(x),
                Ok((i1, c1)) => Ok(
                    (seq![SpecInstr::Label(st)] + i1 + seq![SpecInstr::Jump(st), SpecInstr::Label(dn)], c1),
                ),
            }
        },
        SpecExpr::Break(a) => match lbl {
            Some(l) => match compile_spec(*a, si, env, counter, lbl) {
                Err(x) => Err(x),
                Ok((i1, c1)) => Ok((i1 + seq![SpecInstr::Jump(l)], c1)),
            },
            None => Err(SpecCompileError::NoLoopForBreak),
        },
    }
}


pub open spec fn label_view(l: Option<&str>) -> Option<Seq<char>> {
    match l {
        Some(x) => Some(x@),
        None => None,
    }
}

/// The instructions `after` are those `before` with more appended: the ones
/// before stay, in their places.
pub open spec fn appended(before: Seq<Instr>, after: Seq<Instr>) -> bool {
    &&& before.len() <= after.len()
    &&& forall|i: int| 0 <= i < before.len() ==> #[trigger] after[i] == before[i]
}

/// A call of `compile_helper` did what `expected` says: it only appended
/// instructions, on failure too; on success it appended the expected
/// instructions and left the counter where expected; on failure it gave the
/// expected error.
pub open spec fn outcome<'a>(
    r: Result<(), CompileError<'a>>,
    expected: Compiled,
    before: Seq<Instr>,
    after: Seq<Instr>,
    counter: u64,
) -> bool {
    &&& appended(before, after)
    &&& match expected {
        Ok((is, c)) => r is Ok && view_instrs(after) == view_instrs(before) + is && counter == c,
        Err(x) => r matches Err(y) && y@ == x,
    }
}

proof fn lemma_seq_prefix_err(es: Seq<SpecExpr>, k: int, si: int, env: Map<Seq<char>, i32>, c: nat, lbl: Option<Seq<char>>)
    requires
        0 <= k <= es.len(),
        compile_seq_spec(es.take(k), si, env, c, lbl) is Err,
    ensures
        compile_seq_spec(es, si, env, c, lbl) == compile_seq_spec(es.take(k), si, env, c, lbl),
    decreases es.len(),
{
    if k == es.len() {
        assert(es.take(k) =~= es);
    } else {
        assert(es.drop_last().take(k) =~= es.take(k));
        lemma_seq_prefix_err(es.drop_last(), k, si, env, c, lbl);
    }
}

proof fn lemma_bindings_prefix_err(bs: Seq<(Seq<char>, SpecExpr)>, k: int, si: int, env: Map<Seq<char>, i32>, c: nat, lbl: Option<Seq<char>>)
    requires
        0 <= k <= bs.len(),
        compile_bindings_spec(bs.take(k), si, env, c, lbl) is Err,
    ensures
        compile_bindings_spec(bs, si, env, c, lbl) == compile_bindings_spec(bs.take(k), si, env, c, lbl),
    decreases bs.len(),
{
    if k == bs.len() {
        assert(bs.take(k) =~= bs);
    } else {
        assert(bs.drop_last().take(k) =~= bs.take(k));
        lemma_bindings_prefix_err(bs.drop_last(), k, si, env, c, lbl);
    }
}

/// Appends one instruction.
fn emit(instructions: &mut Vec<Instr>, i: Instr)
    ensures
        final(instructions)@ == old(instructions)@.push(i),
        view_instrs(final(instructions)@) == view_instrs(old(instructions)@).push(i@),
{
    instructions.push(i);
    assert(view_instrs(instructions@) =~= view_instrs(old(instructions)@).push(i@));
}

/// Creates a new label and increments the label counter.
///
/// # Parameters
/// - `s`: The label name.
/// - `label_counter`: The label counter.
///
/// # Returns
/// The name of the label.
pub(crate) fn new_label(s: &str, label_counter: &mut u64) -> (r: String)
    requires
        *old(label_counter) < u64::MAX,
    ensures
        *final(label_counter) == *old(label_counter) + 1,
        r@ == label_text(s@, *old(label_counter) as nat),
{
    let curr = *label_counter;
    *label_counter = curr + 1;
    let mut r = String::new();
    r.append(s);
    r.append("_");
    push_u64_digits(&mut r, curr);
    assert(r@ =~= label_text(s@, curr as nat));
    r
}

/// Generates assembly that just moves the error code into `rax` and then jumps
/// to the `throw_error` label.
///
/// # Parameters
/// - `error_code`: The error code.
/// - `instructions`: The instructions.
pub(crate) fn call_error_fn(error_code: i64, instructions: &mut Vec<Instr>)
    ensures
        appended(old(instructions)@, final(instructions)@),
        view_instrs(final(instructions)@) == view_instrs(old(instructions)@) + error_call(error_code),
{
    emit(instructions, Instr::IMov(Val::Reg(Reg::Rax), Val::Imm(error_code)));
    let mut l = String::new();
    l.append(THROW_ERROR_LABEL);
    proof { reveal_strlit("throw_error"); }
    emit(instructions, Instr::Jump(l));
    assert(view_instrs(instructions@) =~= view_instrs(old(instructions)@) + error_call(error_code));
}

fn emit_same_types(stack_offset: i32, tc: String, instructions: &mut Vec<Instr>)
    ensures
        appended(old(instructions)@, final(instructions)@),
        view_instrs(final(instructions)@) == view_instrs(old(instructions)@) + same_types(stack_offset, tc@),
{
    emit(instructions, Instr::IMov(Val::Reg(Reg::R11), Val::Imm(0)));
    emit(instructions, Instr::IMov(Val::Reg(Reg::R10), Val::Reg(Reg::Rax)));
    emit(instructions, Instr::BitwiseAnd(Val::Reg(Reg::R10), Val::Imm(1)));
    emit(instructions, Instr::IAdd(Val::Reg(Reg::R11), Val::Reg(Reg::R10)));
    emit(instructions, Instr::IMov(Val::Reg(Reg::R10), Val::RegOffset(Reg::Rsp, stack_offset)));
    emit(instructions, Instr::BitwiseAnd(Val::Reg(Reg::R10), Val::Imm(1)));
    emit(instructions, Instr::IAdd(Val::Reg(Reg::R11), Val::Reg(Reg::R10)));
    let ghost mid = view_instrs(instructions@);
    assert(mid =~= view_instrs(old(instructions)@) + tag_sum(stack_offset));
    emit(instructions, Instr::Compare(Val::Reg(Reg::R11), Val::Imm(1)));
    emit(instructions, Instr::JumpNotEqual(tc.clone()));
    call_error_fn(TYPE_MISMATCH, instructions);
    emit(instructions, Instr::Label(tc));
    assert(view_instrs(instructions@) =~= view_instrs(old(instructions)@) + same_types(stack_offset, tc@));
}

fn emit_both_numbers(ok: String, instructions: &mut Vec<Instr>)
    ensures
        appended(old(instructions)@, final(instructions)@),
        view_instrs(final(instructions)@) == view_instrs(old(instructions)@) + both_numbers(ok@),
{
    emit(instructions, Instr::Compare(Val::Reg(Reg::R11), Val::Imm(0)));
    emit(instructions, Instr::JumpEqual(ok.clone()));
    call_error_fn(TYPE_MISMATCH, instructions);
    emit(instructions, Instr::Label(ok));
    assert(view_instrs(instructions@) =~= view_instrs(old(instructions)@) + both_numbers(ok@));
}

fn emit_overflow_check(no: String, instructions: &mut Vec<Instr>)
    ensures
        appended(old(instructions)@, final(instructions)@),
        view_instrs(final(instructions)@) == view_instrs(old(instructions)@) + overflow_check(no@),
{
    emit(instructions, Instr::JumpNoOverflow(no.clone()));
    call_error_fn(OVERFLOW_ERROR, instructions);
    emit(instructions, Instr::Label(no));
    assert(view_instrs(instructions@) =~= view_instrs(old(instructions)@) + overflow_check(no@));
}

fn emit_bool_result(t: String, d: String, instructions: &mut Vec<Instr>)
    ensures
        appended(old(instructions)@, final(instructions)@),
        view_instrs(final(instructions)@) == view_instrs(old(instructions)@) + bool_result(t@, d@),
{
    emit(instructions, Instr::IMov(Val::Reg(Reg::Rax), Val::Imm(FALSE)));
    emit(instructions, Instr::Jump(d.clone()));
    emit(instructions, Instr::Label(t));
    emit(instructions, Instr::IMov(Val::Reg(Reg::Rax), Val::Imm(TRUE)));
    emit(instructions, Instr::Label(d));
    assert(view_instrs(instructions@) =~= view_instrs(old(instructions)@) + bool_result(t@, d@));
}

/// Emits what a binary operation does once its operands are in rax and in
/// the stack slot at `stack_offset`: the type checks, the operation, and the
/// overflow check or the boolean result.
fn emit_binop_tail(op_type: Op2, stack_offset: i32, instructions: &mut Vec<Instr>, counter: &mut u64)
    requires
        *old(counter) + 5 <= u64::MAX,
    ensures
        appended(old(instructions)@, final(instructions)@),
        view_instrs(final(instructions)@) == view_instrs(old(instructions)@) + binop_tail(op_type, stack_offset, *old(counter) as nat).0,
        *final(counter) == binop_tail(op_type, stack_offset, *old(counter) as nat).1,
{
    let ghost c = *old(counter) as nat;
    let ghost start = view_instrs(instructions@);
    let true_label = new_label("true_lbl", counter);
    let done_label = new_label("done_lbl", counter);

    // Before we actually perform the operation, we need to make sure we have
    // the correct types for our operands: no operator takes mixed types.
    let type_check_lbl = new_label("type_checker", counter);
    emit_same_types(stack_offset, type_check_lbl, instructions);
    let type_check_success = new_label("success_check", counter);
    let ghost s1 = view_instrs(instructions@);
    match op_type {
        Op2::Arith(op) => {
            // For arithmetic operators, we only want (number, number).
            emit_both_numbers(type_check_success, instructions);
            let ghost s2 = view_instrs(instructions@);
            match op {
                ArithmeticBinaryOp::Plus => {
                    emit(instructions, Instr::IAdd(Val::Reg(Reg::Rax), Val::RegOffset(Reg::Rsp, stack_offset)));
                },
                ArithmeticBinaryOp::Minus => {
                    emit(instructions, Instr::ISub(Val::Reg(Reg::Rax), Val::RegOffset(Reg::Rsp, stack_offset)));
                },
                ArithmeticBinaryOp::Times => {
                    emit(instructions, Instr::ShiftSignRight(Val::Reg(Reg::Rax), 1));
                    emit(instructions, Instr::IMul(Val::Reg(Reg::Rax), Val::RegOffset(Reg::Rsp, stack_offset)));
                },
            }
            assert(view_instrs(instructions@) =~= s2 + arith_instrs(op, stack_offset));
            let ghost s3 = view_instrs(instructions@);
            // After the operation is complete, make sure there wasn't an overflow
            let no_overflow_label = new_label("no_overflow", counter);
            emit_overflow_check(no_overflow_label, instructions);
            assert(view_instrs(instructions@) =~= start + binop_tail(op_type, stack_offset, c).0);
        },
        Op2::Comp(comparison) => {
            let mut temp_instructions: Vec<Instr> = Vec::new();
            emit(&mut temp_instructions, Instr::Compare(Val::Reg(Reg::Rax), Val::RegOffset(Reg::Rsp, stack_offset)));
            match comparison {
                // For equalities, we allow both (number, number) and (boolean, boolean)
                ComparisonBinaryOp::Equality(op) => match op {
                    CompEqualityOp::Equal => {
                        emit(&mut temp_instructions, Instr::JumpEqual(true_label.clone()));
                    },
                    CompEqualityOp::NotEqual => {
                        emit(&mut temp_instructions, Instr::JumpNotEqual(true_label.clone()));
                    },
                },
                // But, for inequalities, we only want (number, number)
                ComparisonBinaryOp::Inequality(op) => {
                    let second_success_label = new_label("check_success", counter);
                    emit_both_numbers(second_success_label, instructions);
                    match op {
                        CompInequalityOp::LessEqual => {
                            emit(&mut temp_instructions, Instr::JumpLessEqual(true_label.clone()));
                        },
                        CompInequalityOp::GreaterEqual => {
                            emit(&mut temp_instructions, Instr::JumpGreaterEqual(true_label.clone()));
                        },
                        CompInequalityOp::Less => {
                            emit(&mut temp_instructions, Instr::JumpLess(true_label.clone()));
                        },
                        CompInequalityOp::Greater => {
                            emit(&mut temp_instructions, Instr::JumpGreater(true_label.clone()));
                        },
                    }
                },
            }
            let ghost before_temp = view_instrs(instructions@);
            let ghost temp = temp_instructions@;
            instructions.append(&mut temp_instructions);
            assert(view_instrs(instructions@) =~= before_temp + view_instrs(temp));
            emit_bool_result(true_label, done_label, instructions);
            assert(view_instrs(instructions@) =~= start + binop_tail(op_type, stack_offset, c).0);
        },
    }
}

/// Emits what a unary operation does once its operand is in rax: the type
/// check, then the operation and its overflow check, or the type test.
fn emit_unop_tail(op_type: Op1, instructions: &mut Vec<Instr>, counter: &mut u64)
    requires
        *old(counter) + 3 <= u64::MAX,
    ensures
        appended(old(instructions)@, final(instructions)@),
        view_instrs(final(instructions)@) == view_instrs(old(instructions)@) + unop_tail(op_type, *old(counter) as nat).0,
        *final(counter) == unop_tail(op_type, *old(counter) as nat).1,
{
    let ghost c = *old(counter) as nat;
    let ghost start = view_instrs(instructions@);
    let unary_success_lbl = new_label("unary_success", counter);

    // First, let's figure out what type is in rax. We can move rax into r10,
    // and then AND r10 with 1 to see if we have 1 (bool) or 0 (num).
    emit(instructions, Instr::IMov(Val::Reg(Reg::R10), Val::Reg(Reg::Rax)));
    emit(instructions, Instr::BitwiseAnd(Val::Reg(Reg::R10), Val::Imm(1)));
    match op_type {
        // For arithmetic operations, we only want number inputs
        Op1::Arith(op) => {
            emit(instructions, Instr::Compare(Val::Reg(Reg::R10), Val::Imm(0)));
            emit(instructions, Instr::JumpEqual(unary_success_lbl.clone()));
            call_error_fn(TYPE_MISMATCH, instructions);
            emit(instructions, Instr::Label(unary_success_lbl));
            match op {
                ArithmeticUnaryOp::Add1 => emit(instructions, Instr::IAdd(Val::Reg(Reg::Rax), Val::Imm(0b10))),
                ArithmeticUnaryOp::Sub1 => emit(instructions, Instr::ISub(Val::Reg(Reg::Rax), Val::Imm(0b10))),
            }
            // After the operation is complete, make sure there wasn't an overflow
            let no_overflow_label = new_label("no_overflow", counter);
            emit(instructions, Instr::JumpNoOverflow(no_overflow_label.clone()));
            call_error_fn(OVERFLOW_ERROR, instructions);
            emit(instructions, Instr::Label(no_overflow_label));
            assert(view_instrs(instructions@) =~= start + unop_tail(op_type, c).0);
        },
        // For comparison operations, we allow any input types.
        Op1::Comp(op) => {
            let unary_comp_else_lbl = new_label("unary_comp_else_lbl", counter);
            let unary_comp_done_lbl = new_label("unary_comp_done_lbl", counter);
            let (r1, r2) = match op {
                ComparisonUnaryOp::IsNum => (TRUE, FALSE),
                ComparisonUnaryOp::IsBool => (FALSE, TRUE),
            };
            emit(instructions, Instr::Compare(Val::Reg(Reg::R10), Val::Imm(1)));
            emit(instructions, Instr::JumpEqual(unary_comp_else_lbl.clone()));
            emit(instructions, Instr::IMov(Val::Reg(Reg::Rax), Val::Imm(r1)));
            emit(instructions, Instr::Jump(unary_comp_done_lbl.clone()));
            emit(instructions, Instr::Label(unary_comp_else_lbl));
            emit(instructions, Instr::IMov(Val::Reg(Reg::Rax), Val::Imm(r2)));
            emit(instructions, Instr::Label(unary_comp_done_lbl));
            assert(view_instrs(instructions@) =~= start + unop_tail(op_type, c).0);
        },
    }
}

/// The string that holds the characters of `s`.
fn owned(s: &str) -> (r: String)
    ensures
        r@ == s@,
{
    let mut r = String::new();
    r.append(s);
    assert(r@ =~= s@);
    r
}

/// A helper function that recursively evaluates the given expression,
/// generating assembly instructions.
///
/// # Parameters
/// - `e`: The expression to evaluate.
/// - `si`: The stack index.
/// - `instructions`: The list where the instructions of the expression go.
/// - `environment`: The identifier environment, from each name to its stack
///   offset (not index).
/// - `counter`: A counter used to create unique labels.
/// - `loop_label`: The label that a `break` jumps to, if the expression is
///   within a loop, or `None` if it is not.
///
/// # Returns
/// Either `Ok(())` if generating the assembly instructions succeeded, or
/// `Err(CompileError)` if a compilation error occurred.
fn compile_helper<'a, 'b>(
    e: &'b Expr<'a>,
    si: i32,
    instructions: &mut Vec<Instr>,
    environment: &Env,
    counter: &mut u64,
    loop_label: Option<&str>,
) -> (r: Result<(), CompileError<'a>>)
    requires
        1 <= si,
        si + expr_size(e@) <= max_stack_index(),
        *old(counter) + 5 * expr_size(e@) <= u64::MAX,
    ensures
        outcome(r, compile_spec(e@, si as int, env_contents(*environment), *old(counter) as nat, label_view(loop_label)),
            old(instructions)@, final(instructions)@, *final(counter)),
        r is Ok ==> *final(counter) <= *old(counter) + 5 * expr_size(e@),
    decreases e, 1int,
{
    let ghost env = env_contents(*environment);
    let ghost lbl = label_view(loop_label);
    let ghost c0 = *old(counter) as nat;
    match e {
        Expr::Number(n) => {
            emit(instructions, Instr::IMov(Val::Reg(Reg::Rax), Val::Imm(*n << 1)));
            assert(view_instrs(instructions@) =~= view_instrs(old(instructions)@) + compile_spec(e@, si as int, env, c0, lbl)->Ok_0.0);
        },
        Expr::BinOp(_, _, _) => {
            return compile_binop(e, si, instructions, environment, counter, loop_label);
        },
        Expr::UnOp(op_type, a) => {
            compile_helper(a, si, instructions, environment, counter, loop_label)?;
            let ghost mid = view_instrs(instructions@);
            emit_unop_tail(*op_type, instructions, counter);
            assert(view_instrs(instructions@) =~= view_instrs(old(instructions)@) + compile_spec(e@, si as int, env, c0, lbl)->Ok_0.0);
        },
        Expr::Id(identifier) => {
            // If we have an identifier, all we need to do is get its value
            // from the stack and put it in RAX.
            match env_get(environment, identifier) {
                Some(s) => {
                    emit(instructions, Instr::IMov(Val::Reg(Reg::Rax), Val::RegOffset(Reg::Rsp, s)));
                    assert(view_instrs(instructions@) =~= view_instrs(old(instructions)@) + compile_spec(e@, si as int, env, c0, lbl)->Ok_0.0);
                },
                None => return Err(CompileError::UnboundIdentifier(*identifier)),
            }
        },
        Expr::Let(_, _) => {
            return compile_let(e, si, instructions, environment, counter, loop_label);
        },
        Expr::Bool(b) => {
            emit(instructions, Instr::IMov(Val::Reg(Reg::Rax), Val::Imm(if *b { TRUE } else { FALSE })));
            assert(view_instrs(instructions@) =~= view_instrs(old(instructions)@) + compile_spec(e@, si as int, env, c0, lbl)->Ok_0.0);
        },
        Expr::If(_, _, _) => {
            return compile_if(e, si, instructions, environment, counter, loop_label);
        },
        Expr::Assign(identifier, a) => match env_get(environment, identifier) {
            Some(loc) => {
                compile_helper(a, si, instructions, environment, counter, loop_label)?;
                let ghost mid = view_instrs(instructions@);
                emit(instructions, Instr::IMov(Val::RegOffset(Reg::Rsp, loc), Val::Reg(Reg::Rax)));
                assert(view_instrs(instructions@) =~= view_instrs(old(instructions)@) + compile_spec(e@, si as int, env, c0, lbl)->Ok_0.0);
            },
            None => return Err(CompileError::UnboundIdentifier(*identifier)),
        },
        Expr::Block(_) => {
            return compile_block(e, si, instructions, environment, counter, loop_label);
        },
        Expr::Loop(a) => {
            let loop_start = new_label("loop_start", counter);
            let mut loop_done = String::new();
            loop_done.append("loop_break_done#");
            loop_done.append(loop_start.as_str());
            emit(instructions, Instr::Label(loop_start.clone()));
            let ghost mid = view_instrs(instructions@);
            compile_helper(a, si, instructions, environment, counter, Some(loop_done.as_str()))?;
            let ghost mid2 = view_instrs(instructions@);
            emit(instructions, Instr::Jump(loop_start));
            emit(instructions, Instr::Label(loop_done));
            assert(view_instrs(instructions@) =~= view_instrs(old(instructions)@) + compile_spec(e@, si as int, env, c0, lbl)->Ok_0.0);
        },
        Expr::Break(a) => match loop_label {
            Some(label) => {
                compile_helper(a, si, instructions, environment, counter, loop_label)?;
                let ghost mid = view_instrs(instructions@);
                emit(instructions, Instr::Jump(owned(label)));
                assert(view_instrs(instructions@) =~= view_instrs(old(instructions)@) + compile_spec(e@, si as int, env, c0, lbl)->Ok_0.0);
            },
            None => return Err(CompileError::NoLoopForBreak),
        },
        Expr::Input => {
            emit(instructions, Instr::IMov(Val::Reg(Reg::Rax), Val::Reg(Reg::Rdi)));
            assert(view_instrs(instructions@) =~= view_instrs(old(instructions)@) + compile_spec(e@, si as int, env, c0, lbl)->Ok_0.0);
        },
    }
    Ok(())
}

/// Compiles a binary operation: the operand that is evaluated first goes to
/// the stack slot at `si`, the other stays in rax.
fn compile_binop<'a, 'b>(
    e: &'b Expr<'a>,
    si: i32,
    instructions: &mut Vec<Instr>,
    environment: &Env,
    counter: &mut u64,
    loop_label: Option<&str>,
) -> (r: Result<(), CompileError<'a>>)
    requires
        e is BinOp,
        1 <= si,
        si + expr_size(e@) <= max_stack_index(),
        *old(counter) + 5 * expr_size(e@) <= u64::MAX,
    ensures
        outcome(r, compile_spec(e@, si as int, env_contents(*environment), *old(counter) as nat, label_view(loop_label)),
            old(instructions)@, final(instructions)@, *final(counter)),
        r is Ok ==> *final(counter) <= *old(counter) + 5 * expr_size(e@),
    decreases e, 0int,
{
    let ghost env = env_contents(*environment);
    let ghost lbl = label_view(loop_label);
    let ghost c0 = *old(counter) as nat;
    match e {
        Expr::BinOp(op_type, e1, e2) => {
            let stack_offset = si * 8;
            // Subtraction and the comparisons evaluate their right operand
            // first, so that the left one ends up in rax; addition and
            // multiplication do not care.
            let lhs_first = match op_type {
                Op2::Arith(ArithmeticBinaryOp::Plus) | Op2::Arith(ArithmeticBinaryOp::Times) => true,
                _ => false,
            };
            assert(lhs_first == left_first(*op_type));
            let (first, second) = if lhs_first { (e1, e2) } else { (e2, e1) };
            compile_helper(first, si, instructions, environment, counter, loop_label)?;
            let ghost s1 = view_instrs(instructions@);
            emit(instructions, Instr::IMov(Val::RegOffset(Reg::Rsp, stack_offset), Val::Reg(Reg::Rax)));
            let ghost s2 = view_instrs(instructions@);
            compile_helper(second, si + 1, instructions, environment, counter, loop_label)?;
            let ghost s3 = view_instrs(instructions@);
            emit_binop_tail(*op_type, stack_offset, instructions, counter);
            assert(view_instrs(instructions@) =~= view_instrs(old(instructions)@) + compile_spec(e@, si as int, env, c0, lbl)->Ok_0.0);
            Ok(())
        },
        _ => Ok(()),
    }
}

/// Compiles an `if`: the condition, then a jump to the else branch where it
/// is false, the then branch, and the else branch.
fn compile_if<'a, 'b>(
    e: &'b Expr<'a>,
    si: i32,
    instructions: &mut Vec<Instr>,
    environment: &Env,
    counter: &mut u64,
    loop_label: Option<&str>,
) -> (r: Result<(), CompileError<'a>>)
    requires
        e is If,
        1 <= si,
        si + expr_size(e@) <= max_stack_index(),
        *old(counter) + 5 * expr_size(e@) <= u64::MAX,
    ensures
        outcome(r, compile_spec(e@, si as int, env_contents(*environment), *old(counter) as nat, label_view(loop_label)),
            old(instructions)@, final(instructions)@, *final(counter)),
        r is Ok ==> *final(counter) <= *old(counter) + 5 * expr_size(e@),
    decreases e, 0int,
{
    let ghost env = env_contents(*environment);
    let ghost lbl = label_view(loop_label);
    let ghost c0 = *old(counter) as nat;
    match e {
        Expr::If(cond_expr, then_cond, else_cond) => {
            let if_false_label = new_label("false_lbl", counter);
            let done_label = new_label("done_lbl", counter);
            compile_helper(cond_expr, si, instructions, environment, counter, loop_label)?;
            let ghost s1 = view_instrs(instructions@);
            // If rax holds false, jump to the else branch; otherwise fall
            // through to the then branch, and then jump to the end.
            emit(instructions, Instr::Compare(Val::Reg(Reg::Rax), Val::Imm(FALSE)));
            emit(instructions, Instr::JumpEqual(if_false_label.clone()));
            let ghost s2 = view_instrs(instructions@);
            compile_helper(then_cond, si, instructions, environment, counter, loop_label)?;
            let ghost s3 = view_instrs(instructions@);
            emit(instructions, Instr::Jump(done_label.clone()));
            emit(instructions, Instr::Label(if_false_label));
            let ghost s4 = view_instrs(instructions@);
            compile_helper(else_cond, si, instructions, environment, counter, loop_label)?;
            let ghost s5 = view_instrs(instructions@);
            emit(instructions, Instr::Label(done_label));
            assert(view_instrs(instructions@) =~= view_instrs(old(instructions)@) + compile_spec(e@, si as int, env, c0, lbl)->Ok_0.0);
            Ok(())
        },
        _ => Ok(()),
    }
}

/// Compiles the statements of a block in order.
fn compile_block<'a, 'b>(
    e: &'b Expr<'a>,
    si: i32,
    instructions: &mut Vec<Instr>,
    environment: &Env,
    counter: &mut u64,
    loop_label: Option<&str>,
) -> (r: Result<(), CompileError<'a>>)
    requires
        e is Block,
        1 <= si,
        si + expr_size(e@) <= max_stack_index(),
        *old(counter) + 5 * expr_size(e@) <= u64::MAX,
    ensures
        outcome(r, compile_spec(e@, si as int, env_contents(*environment), *old(counter) as nat, label_view(loop_label)),
            old(instructions)@, final(instructions)@, *final(counter)),
        r is Ok ==> *final(counter) <= *old(counter) + 5 * expr_size(e@),
    decreases e, 0int,
{
    let ghost env = env_contents(*environment);
    let ghost lbl = label_view(loop_label);
    let ghost c0 = *old(counter) as nat;
    let ghost start = view_instrs(instructions@);
    match e {
        Expr::Block(statements) => {
            let ghost es = view_exprs(statements@);
            assert(e@ == SpecExpr::Block(es));
            assert(compile_spec(e@, si as int, env, c0, lbl) == compile_seq_spec(es, si as int, env, c0, lbl));
            let mut k: usize = 0;
            assert(es.take(0) =~= Seq::<SpecExpr>::empty());
            assert(view_instrs(instructions@).subrange(start.len() as int, start.len() as int) =~= Seq::<SpecInstr>::empty());
            assert(view_instrs(instructions@).subrange(0, start.len() as int) =~= start);
            while k < statements.len()
                invariant
                    appended(old(instructions)@, instructions@),
                    e matches Expr::Block(st) && st == statements,
                    es == view_exprs(statements@),
                    env == env_contents(*environment),
                    lbl == label_view(loop_label),
                    c0 == *old(counter) as nat,
                    start == view_instrs(old(instructions)@),
                    1 <= si,
                    si + expr_size(e@) <= max_stack_index(),
                    c0 + 5 * expr_size(e@) <= u64::MAX,
                    k <= statements@.len(),
                    compile_seq_spec(es.take(k as int), si as int, env, c0, lbl) == Ok::<(Seq<SpecInstr>, nat), SpecCompileError>(
                        (view_instrs(instructions@).subrange(start.len() as int, view_instrs(instructions@).len() as int), *counter as nat)),
                    view_instrs(instructions@).len() >= start.len(),
                    view_instrs(instructions@).subrange(0, start.len() as int) == start,
                    *counter <= c0 + 5 * exprs_size(es.take(k as int)),
                    exprs_size(es.take(k as int)) <= exprs_size(es),
                decreases statements.len() - k,
            {
                let ghost before = view_instrs(instructions@);
                let ghost cb = *counter as nat;
                proof {
                    assert(es.take(k + 1).drop_last() =~= es.take(k as int));
                    assert(es.take(k + 1).last() == es[k as int]);
                    lemma_exprs_size_take(es, k + 1);
                }
                let r = compile_helper(&statements[k], si, instructions, environment, counter, loop_label);
                match r {
                    Err(x) => {
                        proof {
                            assert(statements@[k as int]@ == es[k as int]);
                            assert(compile_spec(es[k as int], si as int, env, cb, lbl) is Err);
                            assert(compile_seq_spec(es.take(k + 1), si as int, env, c0, lbl) is Err);
                            lemma_seq_prefix_err(es, k + 1, si as int, env, c0, lbl);
                        }
                        return Err(x);
                    },
                    Ok(()) => {},
                }
                proof {
                    let after = view_instrs(instructions@);
                    let is = compile_spec(es[k as int], si as int, env, cb, lbl)->Ok_0.0;
                    assert(after =~= before + is);
                    assert(after.subrange(0, start.len() as int) =~= start);
                    assert(after.subrange(start.len() as int, after.len() as int) =~=
                        before.subrange(start.len() as int, before.len() as int) + is);
                    assert(compile_seq_spec(es.take(k + 1), si as int, env, c0, lbl) == Ok::<(Seq<SpecInstr>, nat), SpecCompileError>(
                        (before.subrange(start.len() as int, before.len() as int) + is, *counter as nat)));
                }
                k = k + 1;
            }
            assert(es.take(statements@.len() as int) =~= es);
            assert(view_instrs(instructions@) =~= start + view_instrs(instructions@).subrange(start.len() as int, view_instrs(instructions@).len() as int));
            Ok(())
        },
        _ => Ok(()),
    }
}

proof fn lemma_exprs_size_take(es: Seq<SpecExpr>, k: int)
    requires
        0 < k <= es.len(),
    ensures
        exprs_size(es.take(k)) == exprs_size(es.take(k - 1)) + expr_size(es[k - 1]),
        exprs_size(es.take(k)) <= exprs_size(es),
        expr_size(es[k - 1]) >= 1,
    decreases es.len(),
{
    assert(es.take(k).drop_last() =~= es.take(k - 1));
    if k < es.len() {
        lemma_exprs_size_take(es.drop_last(), k);
        assert(es.drop_last().take(k) =~= es.take(k));
        assert(es.drop_last().take(k - 1) =~= es.take(k - 1));
    } else {
        assert(es.take(k) =~= es);
    }
}

proof fn lemma_bindings_size_take(bs: Seq<(Seq<char>, SpecExpr)>, k: int)
    requires
        0 < k <= bs.len(),
    ensures
        bindings_size(bs.take(k)) == bindings_size(bs.take(k - 1)) + expr_size(bs[k - 1].1),
        bindings_size(bs.take(k)) <= bindings_size(bs),
        expr_size(bs[k - 1].1) >= 1,
    decreases bs.len(),
{
    assert(bs.take(k).drop_last() =~= bs.take(k - 1));
    if k < bs.len() {
        lemma_bindings_size_take(bs.drop_last(), k);
        assert(bs.drop_last().take(k) =~= bs.take(k));
        assert(bs.drop_last().take(k - 1) =~= bs.take(k - 1));
    } else {
        assert(bs.take(k) =~= bs);
    }
}

/// Compiles a `let`: each binding in turn is evaluated, stored in the next
/// stack slot, and bound in the environment; then the body.
fn compile_let<'a, 'b>(
    e: &'b Expr<'a>,
    si: i32,
    instructions: &mut Vec<Instr>,
    environment: &Env,
    counter: &mut u64,
    loop_label: Option<&str>,
) -> (r: Result<(), CompileError<'a>>)
    requires
        e is Let,
        1 <= si,
        si + expr_size(e@) <= max_stack_index(),
        *old(counter) + 5 * expr_size(e@) <= u64::MAX,
    ensures
        outcome(r, compile_spec(e@, si as int, env_contents(*environment), *old(counter) as nat, label_view(loop_label)),
            old(instructions)@, final(instructions)@, *final(counter)),
        r is Ok ==> *final(counter) <= *old(counter) + 5 * expr_size(e@),
    decreases e, 0int,
{
    let ghost env = env_contents(*environment);
    let ghost lbl = label_view(loop_label);
    let ghost c0 = *old(counter) as nat;
    let ghost start = view_instrs(instructions@);
    match e {
        Expr::Let(bindings, body) => {
            let ghost bs = view_bindings(bindings@);
            assert(e@ == SpecExpr::Let(bs, Box::new(view_expr(**body))));
            let mut new_env = env_clone(environment);
            let mut new_si = si;
            let mut k: usize = 0;
            assert(bs.take(0) =~= Seq::<(Seq<char>, SpecExpr)>::empty());
            assert(view_instrs(instructions@).subrange(start.len() as int, start.len() as int) =~= Seq::<SpecInstr>::empty());
            assert(view_instrs(instructions@).subrange(0, start.len() as int) =~= start);
            while k < bindings.len()
                invariant
                    appended(old(instructions)@, instructions@),
                    e matches Expr::Let(b, _) && b == bindings,
                    bs == view_bindings(bindings@),
                    env == env_contents(*environment),
                    lbl == label_view(loop_label),
                    c0 == *old(counter) as nat,
                    start == view_instrs(old(instructions)@),
                    1 <= si <= new_si,
                    si + expr_size(e@) <= max_stack_index(),
                    c0 + 5 * expr_size(e@) <= u64::MAX,
                    k <= bindings@.len(),
                    compile_bindings_spec(bs.take(k as int), si as int, env, c0, lbl) == Ok::<(Seq<SpecInstr>, nat, Map<Seq<char>, i32>, int), SpecCompileError>(
                        (view_instrs(instructions@).subrange(start.len() as int, view_instrs(instructions@).len() as int), *counter as nat,
                        env_contents(new_env), new_si as int)),
                    view_instrs(instructions@).len() >= start.len(),
                    view_instrs(instructions@).subrange(0, start.len() as int) == start,
                    *counter <= c0 + 5 * bindings_size(bs.take(k as int)),
                    new_si <= si + bindings_size(bs.take(k as int)),
                    bindings_size(bs.take(k as int)) <= bindings_size(bs),
                decreases bindings.len() - k,
            {
                let ghost before = view_instrs(instructions@);
                let ghost cb = *counter as nat;
                let ghost old_env = new_env;
                proof {
                    assert(bs.take(k + 1).drop_last() =~= bs.take(k as int));
                    assert(bs.take(k + 1).last() == bs[k as int]);
                    lemma_bindings_size_take(bs, k + 1);
                }
                let (id, exp) = &bindings[k];
                // Evaluate the bound expression into rax.
                let r = compile_helper(exp, new_si, instructions, &new_env, counter, loop_label);
                match r {
                    Err(x) => {
                        proof { lemma_bindings_prefix_err(bs, k + 1, si as int, env, c0, lbl); }
                        return Err(x);
                    },
                    Ok(()) => {},
                }
                let ghost mid = view_instrs(instructions@);
                // Store it in the next stack slot, and bind the identifier to
                // that slot's offset.
                emit(instructions, Instr::IMov(Val::RegOffset(Reg::Rsp, new_si * 8), Val::Reg(Reg::Rax)));
                new_env = env_update(&new_env, owned(id), new_si * 8);
                new_si = new_si + 1;
                proof {
                    let after = view_instrs(instructions@);
                    let is = compile_spec(bs[k as int].1, (new_si - 1) as int, env_contents(old_env), cb, lbl)->Ok_0.0;
                    assert(mid =~= before + is);
                    assert(after =~= mid.push(SpecInstr::IMov(stack(((new_si - 1) * 8) as i32), rax())));
                    assert(after.subrange(0, start.len() as int) =~= start);
                    assert(after.subrange(start.len() as int, after.len() as int) =~=
                        before.subrange(start.len() as int, before.len() as int) + is
                        + seq![SpecInstr::IMov(stack(((new_si - 1) * 8) as i32), rax())]);
                    assert(bs[k as int].0 == id@);
                }
                k = k + 1;
            }
            assert(bs.take(bindings@.len() as int) =~= bs);
            let ghost s1 = view_instrs(instructions@);
            // Finally, evaluate the body.
            compile_helper(body, new_si, instructions, &new_env, counter, loop_label)?;
            proof {
                assert(s1 =~= start + s1.subrange(start.len() as int, s1.len() as int));
            }
            assert(view_instrs(instructions@) =~= view_instrs(old(instructions)@) + compile_spec(e@, si as int, env, c0, lbl)->Ok_0.0);
            Ok(())
        },
        _ => Ok(()),
    }
}

/// The largest expression, in nodes, that `compile` takes: its stack
/// offsets must fit in an `i32`.
pub open spec fn max_expr_size() -> nat {
    0x0fff_fff0
}

/// The assembly text of a list of instructions: one per line, each indented
/// by four spaces.
pub open spec fn asm_text(is: Seq<SpecInstr>) -> Seq<char>
    decreases is.len(),
{
    if is.len() == 0 {
        Seq::empty()
    } else if is.len() == 1 {
        "    "@ + instr_text(is[0])
    } else {
        asm_text(is.drop_last()) + "\n"@ + "    "@ + instr_text(is.last())
    }
}

/// What `compile` gives for an expression: the assembly text of the
/// instructions that `compile_spec` emits from an empty environment at stack
/// index 1, or the error that stops it.
pub open spec fn compile_result(e: SpecExpr) -> Result<Seq<char>, SpecCompileError> {
    match compile_spec(e, 1, no_bindings(), 0, None) {
        Ok((is, _)) => Ok(asm_text(is)),
        Err(x) => Err(x),
    }
}

pub open spec fn view_compile<'a>(r: Result<String, CompileError<'a>>) -> Result<Seq<char>, SpecCompileError> {
    match r {
        Ok(s) => Ok(s@),
        Err(x) => Err(x@),
    }
}

/// Compiles an expression into a formatted `String` containing the final assembly
/// code.
///
/// # Parameters
/// - `e`: The expression to evaluate.
///
/// # Returns
/// A string containing the final assembly code as a `String`. If an error occurred while
/// compiling, this will instead return a `CompileError`.
pub fn compile<'a, 'b>(e: &'b Expr<'a>) -> (r: Result<String, CompileError<'a>>)
    requires
        expr_size(e@) <= max_expr_size(),
    ensures
        view_compile(r) == compile_result(e@),
        r is Ok <==> closed(e@),
{
    proof {
        lemma_compile_ok_iff_closed(e@, 1, no_bindings(), 0, None);
        assert(no_bindings().dom() =~= Set::<Seq<char>>::empty());
    }
    let mut all_instructions: Vec<Instr> = Vec::new();
    let mut counter: u64 = 0;
    let environment = env_new();
    compile_helper(e, 1, &mut all_instructions, &environment, &mut counter, None)?;
    let ghost is = view_instrs(all_instructions@);
    let mut out = String::new();
    let mut i: usize = 0;
    assert(is.take(0) =~= Seq::<SpecInstr>::empty());
    while i < all_instructions.len()
        invariant
            is == view_instrs(all_instructions@),
            i <= all_instructions@.len(),
            out@ == asm_text(is.take(i as int)),
        decreases all_instructions.len() - i,
    {
        if i > 0 {
            out.append("\n");
        }
        out.append("    ");
        all_instructions[i].write_to(&mut out);
        assert(is.take(i + 1).drop_last() =~= is.take(i as int));
        assert(out@ =~= asm_text(is.take(i + 1)));
        i = i + 1;
    }
    assert(is.take(all_instructions@.len() as int) =~= is);
    Ok(out)
}

/// Whether `e` has at most `budget` nodes; if so, how many.
fn count_nodes(e: &Expr, budget: u64) -> (r: Option<u64>)
    ensures
        match r {
            Some(n) => n == expr_size(e@) && n <= budget,
            None => expr_size(e@) > budget,
        },
    decreases e, 1int,
{
    if budget == 0 {
        return None;
    }
    let inner = budget - 1;
    let used: u64 = match e {
        Expr::Let(bindings, body) => {
            let ghost bs = view_bindings(bindings@);
            let mut total: u64 = 0;
            let mut k: usize = 0;
            assert(bs.take(0) =~= Seq::<(Seq<char>, SpecExpr)>::empty());
            assert(expr_size(e@) == 1 + bindings_size(bs) + expr_size(body@));
            while k < bindings.len()
                invariant
                    e matches Expr::Let(b, _) && b == bindings,
                    expr_size(e@) >= 1 + bindings_size(bs),
                    inner + 1 == budget,
                    bs == view_bindings(bindings@),
                    k <= bindings@.len(),
                    total == bindings_size(bs.take(k as int)),
                    total <= inner,
                decreases bindings.len() - k,
            {
                proof { lemma_bindings_size_take(bs, k + 1); }
                match count_nodes(&bindings[k].1, inner - total) {
                    Some(n) => total = total + n,
                    None => {
                        proof {
                            lemma_bindings_size_take(bs, k + 1);
                            lemma_bindings_size_monotone(bs, k + 1);
                        }
                        return None;
                    },
                }
                k = k + 1;
            }
            assert(bs.take(bindings@.len() as int) =~= bs);
            match count_nodes(body, inner - total) {
                Some(n) => total + n,
                None => return None,
            }
        },
        Expr::UnOp(_, a) | Expr::Assign(_, a) | Expr::Loop(a) | Expr::Break(a) => match count_nodes(a, inner) {
            Some(n) => n,
            None => return None,
        },
        Expr::BinOp(_, a, b) => {
            let n = match count_nodes(a, inner) {
                Some(n) => n,
                None => return None,
            };
            match count_nodes(b, inner - n) {
                Some(m) => n + m,
                None => return None,
            }
        },
        Expr::If(c, t, f) => {
            let n = match count_nodes(c, inner) {
                Some(n) => n,
                None => return None,
            };
            let m = match count_nodes(t, inner - n) {
                Some(m) => m,
                None => return None,
            };
            match count_nodes(f, inner - n - m) {
                Some(p) => n + m + p,
                None => return None,
            }
        },
        Expr::Block(statements) => {
            let ghost es = view_exprs(statements@);
            let mut total: u64 = 0;
            let mut k: usize = 0;
            assert(es.take(0) =~= Seq::<SpecExpr>::empty());
            assert(expr_size(e@) == 1 + exprs_size(es));
            while k < statements.len()
                invariant
                    e matches Expr::Block(st) && st == statements,
                    expr_size(e@) == 1 + exprs_size(es),
                    inner + 1 == budget,
                    es == view_exprs(statements@),
                    k <= statements@.len(),
                    total == exprs_size(es.take(k as int)),
                    total <= inner,
                decreases statements.len() - k,
            {
                proof { lemma_exprs_size_take(es, k + 1); }
                match count_nodes(&statements[k], inner - total) {
                    Some(n) => total = total + n,
                    None => {
                        proof { lemma_exprs_size_monotone(es, k + 1); }
                        return None;
                    },
                }
                k = k + 1;
            }
            assert(es.take(statements@.len() as int) =~= es);
            total
        },
        _ => 0,
    };
    Some(used + 1)
}

proof fn lemma_exprs_size_monotone(es: Seq<SpecExpr>, k: int)
    requires
        0 <= k <= es.len(),
    ensures
        exprs_size(es.take(k)) <= exprs_size(es),
    decreases es.len(),
{
    if k < es.len() {
        lemma_exprs_size_monotone(es.drop_last(), k);
        assert(es.drop_last().take(k) =~= es.take(k));
    } else {
        assert(es.take(k) =~= es);
    }
}

proof fn lemma_bindings_size_monotone(bs: Seq<(Seq<char>, SpecExpr)>, k: int)
    requires
        0 <= k <= bs.len(),
    ensures
        bindings_size(bs.take(k)) <= bindings_size(bs),
    decreases bs.len(),
{
    if k < bs.len() {
        lemma_bindings_size_monotone(bs.drop_last(), k);
        assert(bs.drop_last().take(k) =~= bs.take(k));
    } else {
        assert(bs.take(k) =~= bs);
    }
}

/// Whether `compile` takes `e`: its stack offsets fit in an `i32`.
pub fn within_compile_limits(e: &Expr) -> (r: bool)
    ensures
        r == (expr_size(e@) <= max_expr_size()),
{
    count_nodes(e, 0x0fff_fff0).is_some()
}

/// The names that the bindings of `bs` bind.
pub open spec fn bound_names(bs: Seq<(Seq<char>, SpecExpr)>) -> Set<Seq<char>>
    decreases bs.len(),
{
    if bs.len() == 0 {
        Set::empty()
    } else {
        bound_names(bs.drop_last()).insert(bs.last().0)
    }
}

/// Every variable that `e` reads or assigns is in `bound` or bound around
/// it by a `let`, and every `break` stands in a loop (or `in_loop` holds).
pub open spec fn closed_in(e: SpecExpr, bound: Set<Seq<char>>, in_loop: bool) -> bool
    decreases e, 1int,
{
    match e {
        SpecExpr::Id(x) => bound.contains(x),
        SpecExpr::Let(bs, body) => bindings_closed(bs, bound, in_loop) && closed_in(
            *body,
            bound.union(bound_names(bs)),
            in_loop,
        ),
        SpecExpr::UnOp(_, a) => closed_in(*a, bound, in_loop),
        SpecExpr::BinOp(_, a, b) => closed_in(*a, bound, in_loop) && closed_in(*b, bound, in_loop),
        SpecExpr::If(c, t, f) => closed_in(*c, bound, in_loop) && closed_in(*t, bound, in_loop)
            && closed_in(*f, bound, in_loop),
        SpecExpr::Assign(x, a) => bound.contains(x) && closed_in(*a, bound, in_loop),
        SpecExpr::Block(es) => all_closed(es, bound, in_loop),
        SpecExpr::Loop(a) => closed_in(*a, bound, true),
        SpecExpr::Break(a) => in_loop && closed_in(*a, bound, in_loop),
        _ => true,
    }
}

pub open spec fn all_closed(es: Seq<SpecExpr>, bound: Set<Seq<char>>, in_loop: bool) -> bool
    decreases es, 0int,
{
    if es.len() == 0 {
        true
    } else {
        all_closed(es.drop_last(), bound, in_loop) && closed_in(es.last(), bound, in_loop)
    }
}

/// Each binding's expression is closed in the names bound before it.
pub open spec fn bindings_closed(bs: Seq<(Seq<char>, SpecExpr)>, bound: Set<Seq<char>>, in_loop: bool) -> bool
    decreases bs, 0int,
{
    if bs.len() == 0 {
        true
    } else {
        bindings_closed(bs.drop_last(), bound, in_loop) && closed_in(
            bs.last().1,
            bound.union(bound_names(bs.drop_last())),
            in_loop,
        )
    }
}

/// A program: every variable it uses is bound by a `let` around it, and
/// every `break` stands in a loop.
pub open spec fn closed(e: SpecExpr) -> bool {
    closed_in(e, Set::empty(), false)
}

/// Compilation fails exactly where the expression uses an unbound variable
/// or breaks outside a loop.
pub proof fn lemma_compile_ok_iff_closed(e: SpecExpr, si: int, env: Map<Seq<char>, i32>, c: nat, lbl: Option<Seq<char>>)
    ensures
        compile_spec(e, si, env, c, lbl) is Ok <==> closed_in(e, env.dom(), lbl is Some),
    decreases e, 1int,
{
    match e {
        SpecExpr::Let(bs, body) => {
            lemma_bindings_ok_iff_closed(bs, si, env, c, lbl);
            match compile_bindings_spec(bs, si, env, c, lbl) {
                Ok((_, c1, env1, si1)) => {
                    lemma_compile_ok_iff_closed(*body, si1, env1, c1, lbl);
                },
                Err(_) => {},
            }
        },
        SpecExpr::UnOp(_, a) => {
            lemma_compile_ok_iff_closed(*a, si, env, c, lbl);
        },
        SpecExpr::BinOp(op, a, b) => {
            if left_first(op) {
                lemma_compile_ok_iff_closed(*a, si, env, c, lbl);
                match compile_spec(*a, si, env, c, lbl) {
                    Ok((_, c1)) => lemma_compile_ok_iff_closed(*b, si + 1, env, c1, lbl),
                    Err(_) => {},
                }
            } else {
                lemma_compile_ok_iff_closed(*b, si, env, c, lbl);
                match compile_spec(*b, si, env, c, lbl) {
                    Ok((_, c1)) => lemma_compile_ok_iff_closed(*a, si + 1, env, c1, lbl),
                    Err(_) => {},
                }
            }
        },
        SpecExpr::If(x, t, f) => {
            lemma_compile_ok_iff_closed(*x, si, env, c + 2, lbl);
            match compile_spec(*x, si, env, c + 2, lbl) {
                Ok((_, c1)) => {
                    lemma_compile_ok_iff_closed(*t, si, env, c1, lbl);
                    match compile_spec(*t, si, env, c1, lbl) {
                        Ok((_, c2)) => lemma_compile_ok_iff_closed(*f, si, env, c2, lbl),
                        Err(_) => {},
                    }
                },
                Err(_) => {},
            }
        },
        SpecExpr::Assign(_, a) => {
            lemma_compile_ok_iff_closed(*a, si, env, c, lbl);
        },
        SpecExpr::Block(es) => {
            lemma_seq_ok_iff_closed(es, si, env, c, lbl);
        },
        SpecExpr::Loop(a) => {
            let st = label_text("loop_start"@, c);
            lemma_compile_ok_iff_closed(*a, si, env, c + 1, Some("loop_break_done#"@ + st));
        },
        SpecExpr::Break(a) => {
            lemma_compile_ok_iff_closed(*a, si, env, c, lbl);
        },
        _ => {},
    }
}

pub proof fn lemma_seq_ok_iff_closed(es: Seq<SpecExpr>, si: int, env: Map<Seq<char>, i32>, c: nat, lbl: Option<Seq<char>>)
    ensures
        compile_seq_spec(es, si, env, c, lbl) is Ok <==> all_closed(es, env.dom(), lbl is Some),
    decreases es, 0int,
{
    if es.len() > 0 {
        lemma_seq_ok_iff_closed(es.drop_last(), si, env, c, lbl);
        match compile_seq_spec(es.drop_last(), si, env, c, lbl) {
            Ok((_, c1)) => lemma_compile_ok_iff_closed(es.last(), si, env, c1, lbl),
            Err(_) => {},
        }
    }
}

pub proof fn lemma_bindings_ok_iff_closed(bs: Seq<(Seq<char>, SpecExpr)>, si: int, env: Map<Seq<char>, i32>, c: nat, lbl: Option<Seq<char>>)
    ensures
        compile_bindings_spec(bs, si, env, c, lbl) is Ok <==> bindings_closed(bs, env.dom(), lbl is Some),
        compile_bindings_spec(bs, si, env, c, lbl) matches Ok((_, _, env1, _)) ==> env1.dom() == env.dom().union(bound_names(bs)),
    decreases bs, 0int,
{
    if bs.len() == 0 {
        assert(env.dom().union(Set::empty()) =~= env.dom());
    } else {
        lemma_bindings_ok_iff_closed(bs.drop_last(), si, env, c, lbl);
        match compile_bindings_spec(bs.drop_last(), si, env, c, lbl) {
            Ok((_, c1, env1, si1)) => {
                lemma_compile_ok_iff_closed(bs.last().1, si1, env1, c1, lbl);
                match compile_bindings_spec(bs, si, env, c, lbl) {
                    Ok((_, _, env2, _)) => {
                        assert(env2.dom() =~= env.dom().union(bound_names(bs)));
                    },
                    Err(_) => {},
                }
            },
            Err(_) => {},
        }
    }
}

} // verus!
