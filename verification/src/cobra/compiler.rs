//! Compiling expressions into x86 instructions.
use vstd::prelude::*;

use crate::decimal::push_i64_decimal;
use crate::env::{
    Slots, im_union, lemma_im_union_agreeing, slots_clone, slots_contents, slots_get, slots_new, slots_union,
    slots_update,
};
use crate::cobra::emission::{
    Compiled, Counters, ERROR_INVALID_ARGUMENT, ERROR_OVERFLOW, binds_size, binop_tail, bool_select,
    compile_binds_spec, compile_block_spec, compile_spec, env_in_bounds, err_mark, error_if, expr_size,
    exprs_size, imm, label, let_keywords, max_stack_index, number_check, operand_check, rax, rbx, stk,
    unop_tail,
};
use crate::cobra::instrs::{Instr, Reg, SpecInstr, SpecVal, Val, all_printable, printable, view_instrs};
use crate::cobra::syntax::{CompileError, Expr, Op1, Op2, SpecCompileError, SpecExpr, view_binds, view_exprs};
use crate::text::str_eq;

verus! {

broadcast use
    vstd::std_specs::vec::axiom_vec_decreases_to_view,
    vstd::std_specs::vec::axiom_vec_index_decreases,
    crate::cobra::syntax::lemma_view_exprs,
    crate::cobra::syntax::lemma_view_exprs_index,
    crate::cobra::syntax::lemma_view_binds,
    crate::cobra::syntax::lemma_view_binds_index,
;

/// A call of a compiling function did what `expected` says: on success it
/// appended the expected instructions and left the counters where expected;
/// on failure it gave the expected error.
pub open spec fn outcome(
    r: Result<(), CompileError>,
    expected: Compiled,
    before: Seq<Instr>,
    after: Seq<Instr>,
    ifnum: i64,
    loopnum: i64,
) -> bool {
    match expected {
        Ok((is, c)) => r is Ok && view_instrs(after) == view_instrs(before) + is && c == (ifnum as int, loopnum as int),
        Err(x) => r matches Err(y) && y@ == x,
    }
}

/// What a compiling function may assume: the stack indexes it reaches and
/// the counters it increments stay within their bounds.
pub open spec fn within_bounds(e: SpecExpr, si: int, env: Map<Seq<char>, i64>, ifnum: i64, loopnum: i64) -> bool {
    &&& 0 <= si
    &&& si + expr_size(e) <= max_stack_index()
    &&& env_in_bounds(env)
    &&& ifnum + expr_size(e) <= i64::MAX
    &&& loopnum + expr_size(e) <= i64::MAX
}

/// The counters after a successful compilation grew by at most the size of
/// what was compiled.
pub open spec fn counters_grew(old_if: i64, old_loop: i64, new_if: i64, new_loop: i64, n: nat) -> bool {
    old_if <= new_if <= old_if + n && old_loop <= new_loop <= old_loop + n
}

/// Appends one instruction.
fn emit(out: &mut Vec<Instr>, i: Instr)
    ensures
        view_instrs(final(out)@) == view_instrs(old(out)@).push(i@),
        all_printable(view_instrs(old(out)@)) && printable(i@) ==> all_printable(view_instrs(final(out)@)),
{
    out.push(i);
    assert(view_instrs(out@) =~= view_instrs(old(out)@).push(i@));
    proof { reveal(all_printable); }
}

/// The label of the code that reports a runtime error.
fn error_mark() -> (v: Val)
    ensures
        v@ == err_mark(),
{
    let mut s = String::new();
    s.append("snek_error");
    proof { reveal_strlit("snek_error"); }
    assert(s@ =~= "snek_error"@);
    Val::Mark(s)
}

/// The label made of `name` and the counter value `n`.
fn mark(name: &str, n: i64) -> (v: Val)
    ensures
        v@ == SpecVal::Mark(label(name@, n as int)),
{
    let mut s = String::new();
    s.append(name);
    push_i64_decimal(&mut s, n);
    assert(s@ =~= label(name@, n as int));
    Val::Mark(s)
}

/// The stack slot of index `i`.
fn stack_slot(i: i64) -> (v: Val)
    requires
        -max_stack_index() <= i <= max_stack_index() + 1,
    ensures
        v@ == stk(i as int),
        v@ matches SpecVal::RegOffset(r, _) && r == Reg::RSP,
{
    Val::RegOffset(Reg::RSP, i * 8)
}

/// Appends the instructions that stop with error code `code` where the flags
/// satisfy the jump that `jump` builds.
fn emit_error_if(out: &mut Vec<Instr>, code: u64, jump: Instr)
    requires
        printable(jump@),
    ensures
        view_instrs(final(out)@) == view_instrs(old(out)@) + error_if(code, jump@),
        all_printable(view_instrs(old(out)@)) ==> all_printable(view_instrs(final(out)@)),
{
    let ghost j = jump@;
    emit(out, Instr::IMov(Val::Reg(Reg::RDI), Val::Imm(code)));
    emit(out, jump);
    assert(view_instrs(out@) =~= view_instrs(old(out)@) + error_if(code, j));
}

fn emit_bool_select(out: &mut Vec<Instr>, t: Instr, f: Instr)
    requires
        printable(t@),
        printable(f@),
    ensures
        view_instrs(final(out)@) == view_instrs(old(out)@) + bool_select(t@, f@),
        all_printable(view_instrs(old(out)@)) ==> all_printable(view_instrs(final(out)@)),
{
    let ghost (ts, fs) = (t@, f@);
    emit(out, Instr::IMov(Val::Reg(Reg::RBX), Val::Imm(3)));
    emit(out, t);
    emit(out, Instr::IMov(Val::Reg(Reg::RBX), Val::Imm(1)));
    emit(out, f);
    assert(view_instrs(out@) =~= view_instrs(old(out)@) + bool_select(ts, fs));
}

fn emit_number_check(out: &mut Vec<Instr>, si: i64)
    requires
        0 <= si,
        si + 1 <= max_stack_index(),
    ensures
        view_instrs(final(out)@) == view_instrs(old(out)@) + number_check(si as int),
        all_printable(view_instrs(old(out)@)) ==> all_printable(view_instrs(final(out)@)),
{
    emit(out, Instr::IMov(stack_slot(si + 1), Val::Reg(Reg::RAX)));
    emit(out, Instr::IAnd(Val::Reg(Reg::RAX), Val::Imm(1)));
    emit(out, Instr::ICmp(Val::Reg(Reg::RAX), Val::Imm(0)));
    emit_error_if(out, ERROR_INVALID_ARGUMENT, Instr::IJne(error_mark()));
    emit(out, Instr::IMov(Val::Reg(Reg::RAX), stack_slot(si + 1)));
    assert(view_instrs(out@) =~= view_instrs(old(out)@) + number_check(si as int));
}

/// Appends what a unary operator emits once its operand is in rax.
fn emit_unop_tail(out: &mut Vec<Instr>, op: Op1, si: i64)
    requires
        0 <= si,
        si + 2 <= max_stack_index(),
    ensures
        view_instrs(final(out)@) == view_instrs(old(out)@) + unop_tail(op, si as int),
        all_printable(view_instrs(old(out)@)) ==> all_printable(view_instrs(final(out)@)),
{
    let ghost start = view_instrs(out@);
    match op {
        Op1::Add1 => {
            emit_number_check(out, si);
            emit(out, Instr::IAdd(Val::Reg(Reg::RAX), Val::Imm(2)));
            emit_error_if(out, ERROR_OVERFLOW, Instr::IJo(error_mark()));
        },
        Op1::Sub1 => {
            emit_number_check(out, si);
            emit(out, Instr::ISub(Val::Reg(Reg::RAX), Val::Imm(2)));
            emit_error_if(out, ERROR_OVERFLOW, Instr::IJo(error_mark()));
        },
        Op1::IsNum => {
            emit(out, Instr::IAnd(Val::Reg(Reg::RAX), Val::Imm(1)));
            emit(out, Instr::ICmp(Val::Reg(Reg::RAX), Val::Imm(0)));
            emit_bool_select(
                out,
                Instr::ICmove(Val::Reg(Reg::RAX), Val::Reg(Reg::RBX)),
                Instr::ICmovne(Val::Reg(Reg::RAX), Val::Reg(Reg::RBX)),
            );
        },
        Op1::IsBool => {
            emit(out, Instr::IAnd(Val::Reg(Reg::RAX), Val::Imm(0xfffffffffffffffd)));
            emit(out, Instr::ICmp(Val::Reg(Reg::RAX), Val::Imm(1)));
            emit_bool_select(
                out,
                Instr::ICmove(Val::Reg(Reg::RAX), Val::Reg(Reg::RBX)),
                Instr::ICmovne(Val::Reg(Reg::RAX), Val::Reg(Reg::RBX)),
            );
        },
    }
    assert(view_instrs(out@) =~= start + unop_tail(op, si as int));
}

fn emit_operand_check(out: &mut Vec<Instr>, si: i64, xor: bool)
    requires
        0 <= si,
        si + 1 <= max_stack_index(),
    ensures
        view_instrs(final(out)@) == view_instrs(old(out)@) + operand_check(si as int, xor),
        all_printable(view_instrs(old(out)@)) ==> all_printable(view_instrs(final(out)@)),
{
    emit(out, Instr::IMov(stack_slot(si + 1), Val::Reg(Reg::RAX)));
    if xor {
        emit(out, Instr::IXor(Val::Reg(Reg::RAX), stack_slot(si)));
    } else {
        emit(out, Instr::IOr(Val::Reg(Reg::RAX), stack_slot(si)));
    }
    emit(out, Instr::IAnd(Val::Reg(Reg::RAX), Val::Imm(1)));
    emit(out, Instr::ICmp(Val::Reg(Reg::RAX), Val::Imm(1)));
    emit_error_if(out, ERROR_INVALID_ARGUMENT, Instr::IJe(error_mark()));
    emit(out, Instr::IMov(Val::Reg(Reg::RAX), stack_slot(si + 1)));
    assert(view_instrs(out@) =~= view_instrs(old(out)@) + operand_check(si as int, xor));
}

/// Appends what a binary operator emits once its first operand is in rax
/// and its second in the stack slot `si`.
fn emit_binop_tail(out: &mut Vec<Instr>, op: Op2, si: i64)
    requires
        0 <= si,
        si + 2 <= max_stack_index(),
    ensures
        view_instrs(final(out)@) == view_instrs(old(out)@) + binop_tail(op, si as int),
        all_printable(view_instrs(old(out)@)) ==> all_printable(view_instrs(final(out)@)),
{
    let ghost start = view_instrs(out@);
    match op {
        Op2::Plus | Op2::Minus | Op2::Times => {
            emit_operand_check(out, si, false);
            match op {
                Op2::Plus => emit(out, Instr::IAdd(Val::Reg(Reg::RAX), stack_slot(si))),
                Op2::Minus => emit(out, Instr::ISub(Val::Reg(Reg::RAX), stack_slot(si))),
                _ => {
                    emit(out, Instr::Isar(Val::Reg(Reg::RAX), Val::Imm(1)));
                    emit(out, Instr::IMul(Val::Reg(Reg::RAX), stack_slot(si)));
                },
            }
            emit_error_if(out, ERROR_OVERFLOW, Instr::IJo(error_mark()));
            assert(view_instrs(out@) =~= start + binop_tail(op, si as int));
        },
        _ => {
            let xor = match op {
                Op2::Equal => true,
                _ => false,
            };
            emit_operand_check(out, si, xor);
            emit(out, Instr::ICmp(Val::Reg(Reg::RAX), stack_slot(si)));
            let (t, f) = match op {
                Op2::Equal => (
                    Instr::ICmove(Val::Reg(Reg::RAX), Val::Reg(Reg::RBX)),
                    Instr::ICmovne(Val::Reg(Reg::RAX), Val::Reg(Reg::RBX)),
                ),
                Op2::Greater => (
                    Instr::ICmovg(Val::Reg(Reg::RAX), Val::Reg(Reg::RBX)),
                    Instr::ICmovle(Val::Reg(Reg::RAX), Val::Reg(Reg::RBX)),
                ),
                Op2::GreaterEqual => (
                    Instr::ICmovge(Val::Reg(Reg::RAX), Val::Reg(Reg::RBX)),
                    Instr::ICmovl(Val::Reg(Reg::RAX), Val::Reg(Reg::RBX)),
                ),
                Op2::Less => (
                    Instr::ICmovl(Val::Reg(Reg::RAX), Val::Reg(Reg::RBX)),
                    Instr::ICmovge(Val::Reg(Reg::RAX), Val::Reg(Reg::RBX)),
                ),
                _ => (
                    Instr::ICmovle(Val::Reg(Reg::RAX), Val::Reg(Reg::RBX)),
                    Instr::ICmovg(Val::Reg(Reg::RAX), Val::Reg(Reg::RBX)),
                ),
            };
            emit_bool_select(out, t, f);
            assert(view_instrs(out@) =~= start + binop_tail(op, si as int));
        },
    }
}

proof fn lemma_exprs_size_take(es: Seq<SpecExpr>, k: int)
    requires
        0 < k <= es.len(),
    ensures
        exprs_size(es.take(k)) == exprs_size(es.take(k - 1)) + expr_size(es[k - 1]),
        exprs_size(es.take(k)) <= exprs_size(es),
        exprs_size(es.take(k - 1)) >= k - 1,
        expr_size(es[k - 1]) >= 1,
    decreases es.len(),
{
    assert(es.take(k).drop_last() =~= es.take(k - 1));
    if k < es.len() {
        lemma_exprs_size_take(es.drop_last(), k);
        assert(es.drop_last().take(k) =~= es.take(k));
        assert(es.drop_last().take(k - 1) =~= es.take(k - 1));
    } else {
        assert(es.take(k) =~= es);
        if k > 1 {
            lemma_exprs_size_take(es.drop_last(), k - 1);
            assert(es.drop_last().take(k - 1) =~= es.take(k - 1));
        } else {
            assert(es.take(0) =~= Seq::<SpecExpr>::empty());
        }
    }
}

proof fn lemma_exprs_size_len(es: Seq<SpecExpr>)
    ensures
        exprs_size(es) >= es.len(),
    decreases es.len(),
{
    if es.len() > 0 {
        lemma_exprs_size_len(es.drop_last());
        assert(expr_size(es.last()) >= 1);
    }
}

proof fn lemma_binds_size_take(bs: Seq<(Seq<char>, SpecExpr)>, k: int)
    requires
        0 < k <= bs.len(),
    ensures
        binds_size(bs.take(k)) == binds_size(bs.take(k - 1)) + 1 + expr_size(bs[k - 1].1),
        binds_size(bs.take(k)) <= binds_size(bs),
    decreases bs.len(),
{
    assert(bs.take(k).drop_last() =~= bs.take(k - 1));
    if k < bs.len() {
        lemma_binds_size_take(bs.drop_last(), k);
        assert(bs.drop_last().take(k) =~= bs.take(k));
        assert(bs.drop_last().take(k - 1) =~= bs.take(k - 1));
    } else {
        assert(bs.take(k) =~= bs);
    }
}

proof fn lemma_block_prefix_err(
    es: Seq<SpecExpr>,
    k: int,
    si: int,
    env: Map<Seq<char>, i64>,
    c: Counters,
    brk: i64,
)
    requires
        0 <= k <= es.len(),
        compile_block_spec(es.take(k), si, env, c, brk) is Err,
    ensures
        compile_block_spec(es, si, env, c, brk) == compile_block_spec(es.take(k), si, env, c, brk),
    decreases es.len(),
{
    if k == es.len() {
        assert(es.take(k) =~= es);
    } else {
        assert(es.drop_last().take(k) =~= es.take(k));
        lemma_block_prefix_err(es.drop_last(), k, si, env, c, brk);
    }
}

proof fn lemma_binds_prefix_err(
    bs: Seq<(Seq<char>, SpecExpr)>,
    k: int,
    si: int,
    env: Map<Seq<char>, i64>,
    c: Counters,
    brk: i64,
)
    requires
        0 <= k <= bs.len(),
        compile_binds_spec(bs.take(k), si, env, c, brk) is Err,
    ensures
        compile_binds_spec(bs, si, env, c, brk) == compile_binds_spec(bs.take(k), si, env, c, brk),
    decreases bs.len(),
{
    if k == bs.len() {
        assert(bs.take(k) =~= bs);
    } else {
        assert(bs.drop_last().take(k) =~= bs.take(k));
        lemma_binds_prefix_err(bs.drop_last(), k, si, env, c, brk);
    }
}

/// Whether a `let` may not bind `x`.
fn is_let_keyword(x: &str) -> (r: bool)
    ensures
        r == let_keywords().contains(x@),
{
    let ghost ks = let_keywords();
    let words: [&str; 21] = [
        "add1", "sub1", "isnum", "isbool", "+", "-", "*", "=", ">", ">=", "<", "<=", "let", "set!", "if",
        "block", "loop", "break", "true", "false", "input",
    ];
    assert(words@.len() == 21);
    assert forall|j: int| 0 <= j < 21 implies #[trigger] words@[j]@ == ks[j] by {}
    let mut i: usize = 0;
    while i < 21
        invariant
            0 <= i <= 21,
            ks == let_keywords(),
            forall|j: int| 0 <= j < 21 ==> #[trigger] words@[j]@ == ks[j],
            forall|j: int| 0 <= j < i ==> ks[j] != x@,
        decreases 21 - i,
    {
        if str_eq(x, words[i]) {
            assert(ks[i as int] == x@);
            return true;
        }
        i = i + 1;
    }
    false
}

/// Compiles `e` into `out`; see [`compile_spec`] for what it emits.
fn compile_into(
    e: &Expr,
    si: i64,
    env: &Slots,
    ifnum: &mut i64,
    loopnum: &mut i64,
    brk: i64,
    out: &mut Vec<Instr>,
) -> (r: Result<(), CompileError>)
    requires
        within_bounds(e@, si as int, slots_contents(*env), *old(ifnum), *old(loopnum)),
    ensures
        outcome(
            r,
            compile_spec(e@, si as int, slots_contents(*env), (*old(ifnum) as int, *old(loopnum) as int), brk),
            old(out)@,
            final(out)@,
            *final(ifnum),
            *final(loopnum),
        ),
        r is Ok ==> counters_grew(*old(ifnum), *old(loopnum), *final(ifnum), *final(loopnum), expr_size(e@)),
        r is Ok && all_printable(view_instrs(old(out)@)) ==> all_printable(view_instrs(final(out)@)),
    decreases e, 1int,
{
    let ghost envm = slots_contents(*env);
    let ghost c0: Counters = (*old(ifnum) as int, *old(loopnum) as int);
    let ghost start = view_instrs(out@);
    match e {
        Expr::Number(n) => {
            let v = (*n << 1) as u64;
            emit(out, Instr::IMov(Val::Reg(Reg::RAX), Val::Imm(v)));
            assert(view_instrs(out@) =~= start + seq![SpecInstr::IMov(rax(), imm(v))]);
        },
        Expr::Boolean(b) => {
            emit(out, Instr::IMov(Val::Reg(Reg::RAX), Val::Imm(if *b { 3 } else { 1 })));
        },
        Expr::Id(s) => {
            if str_eq(s.as_str(), "input") {
                emit(out, Instr::IMov(Val::Reg(Reg::RAX), stack_slot(2)));
            } else {
                match slots_get(env, s.as_str()) {
                    Some(o) => {
                        emit(out, Instr::IMov(Val::Reg(Reg::RAX), stack_slot(o)));
                    },
                    None => return Err(CompileError::UnboundVariable(s.clone())),
                }
            }
        },
        Expr::UnOp(op, a) => {
            compile_into(a, si, env, ifnum, loopnum, brk, out)?;
            emit_unop_tail(out, *op, si);
        },
        Expr::BinOp(op, a, b) => {
            compile_into(b, si, env, ifnum, loopnum, brk, out)?;
            let ghost s1 = view_instrs(out@);
            emit(out, Instr::IMov(stack_slot(si), Val::Reg(Reg::RAX)));
            let ghost s2 = view_instrs(out@);
            compile_into(a, si + 1, env, ifnum, loopnum, brk, out)?;
            let ghost s3 = view_instrs(out@);
            emit_binop_tail(out, *op, si);
        },
        Expr::Loop(a) => {
            *loopnum = *loopnum + 1;
            let n = *loopnum;
            emit(out, Instr::Imark(mark("loopstart", n)));
            let ghost s1 = view_instrs(out@);
            compile_into(a, si, env, ifnum, loopnum, n, out)?;
            let ghost s2 = view_instrs(out@);
            emit(out, Instr::IJmp(mark("loopstart", n)));
            emit(out, Instr::Imark(mark("loopend", n)));
        },
        Expr::Break(a) => {
            if brk == 0 {
                return Err(CompileError::BreakOutsideLoop);
            }
            compile_into(a, si, env, ifnum, loopnum, brk, out)?;
            emit(out, Instr::IJmp(mark("loopend", brk)));
        },
        Expr::Assign(x, a) => {
            compile_into(a, si, env, ifnum, loopnum, brk, out)?;
            match slots_get(env, x.as_str()) {
                Some(o) => {
                    emit(out, Instr::IMov(stack_slot(o), Val::Reg(Reg::RAX)));
                },
                None => return Err(CompileError::UnboundVariable(x.clone())),
            }
        },
        Expr::If(_, _, _) => {
            return compile_if(e, si, env, ifnum, loopnum, brk, out);
        },
        Expr::Let(_, _) => {
            return compile_let(e, si, env, ifnum, loopnum, brk, out);
        },
        Expr::Block(_) => {
            return compile_block(e, si, env, ifnum, loopnum, brk, out);
        },
    }
    assert(view_instrs(out@) =~= start + compile_spec(e@, si as int, envm, c0, brk)->Ok_0.0);
    Ok(())
}

/// Compiles an `if`: the condition, a jump to the else branch where it is
/// false, the then branch, and the else branch.
fn compile_if(
    e: &Expr,
    si: i64,
    env: &Slots,
    ifnum: &mut i64,
    loopnum: &mut i64,
    brk: i64,
    out: &mut Vec<Instr>,
) -> (r: Result<(), CompileError>)
    requires
        e is If,
        within_bounds(e@, si as int, slots_contents(*env), *old(ifnum), *old(loopnum)),
    ensures
        outcome(
            r,
            compile_spec(e@, si as int, slots_contents(*env), (*old(ifnum) as int, *old(loopnum) as int), brk),
            old(out)@,
            final(out)@,
            *final(ifnum),
            *final(loopnum),
        ),
        r is Ok ==> counters_grew(*old(ifnum), *old(loopnum), *final(ifnum), *final(loopnum), expr_size(e@)),
        r is Ok && all_printable(view_instrs(old(out)@)) ==> all_printable(view_instrs(final(out)@)),
    decreases e, 0int,
{
    let ghost envm = slots_contents(*env);
    let ghost c0: Counters = (*old(ifnum) as int, *old(loopnum) as int);
    let ghost start = view_instrs(out@);
    match e {
        Expr::If(cond, t, f) => {
            *ifnum = *ifnum + 1;
            let n = *ifnum;
            compile_into(cond, si, env, ifnum, loopnum, brk, out)?;
            let ghost s1 = view_instrs(out@);
            emit(out, Instr::ICmp(Val::Reg(Reg::RAX), Val::Imm(1)));
            emit(out, Instr::IJe(mark("elsestart", n)));
            let ghost s2 = view_instrs(out@);
            compile_into(t, si, env, ifnum, loopnum, brk, out)?;
            let ghost s3 = view_instrs(out@);
            emit(out, Instr::IJmp(mark("elseend", n)));
            emit(out, Instr::Imark(mark("elsestart", n)));
            let ghost s4 = view_instrs(out@);
            compile_into(f, si, env, ifnum, loopnum, brk, out)?;
            let ghost s5 = view_instrs(out@);
            emit(out, Instr::Imark(mark("elseend", n)));
            assert(view_instrs(out@) =~= start + compile_spec(e@, si as int, envm, c0, brk)->Ok_0.0);
            Ok(())
        },
        _ => Ok(()),
    }
}

/// Compiles the expressions of a block in order.
fn compile_block(
    e: &Expr,
    si: i64,
    env: &Slots,
    ifnum: &mut i64,
    loopnum: &mut i64,
    brk: i64,
    out: &mut Vec<Instr>,
) -> (r: Result<(), CompileError>)
    requires
        e is Block,
        within_bounds(e@, si as int, slots_contents(*env), *old(ifnum), *old(loopnum)),
    ensures
        outcome(
            r,
            compile_spec(e@, si as int, slots_contents(*env), (*old(ifnum) as int, *old(loopnum) as int), brk),
            old(out)@,
            final(out)@,
            *final(ifnum),
            *final(loopnum),
        ),
        r is Ok ==> counters_grew(*old(ifnum), *old(loopnum), *final(ifnum), *final(loopnum), expr_size(e@)),
        r is Ok && all_printable(view_instrs(old(out)@)) ==> all_printable(view_instrs(final(out)@)),
    decreases e, 0int,
{
    let ghost envm = slots_contents(*env);
    let ghost c0: Counters = (*old(ifnum) as int, *old(loopnum) as int);
    let ghost start = view_instrs(out@);
    match e {
        Expr::Block(es) => {
            let ghost ses = view_exprs(es@);
            assert(e@ == SpecExpr::Block(ses));
            let mut k: usize = 0;
            assert(ses.take(0) =~= Seq::<SpecExpr>::empty());
            assert(view_instrs(out@).subrange(start.len() as int, start.len() as int) =~= Seq::<SpecInstr>::empty());
            assert(view_instrs(out@).subrange(0, start.len() as int) =~= start);
            while k < es.len()
                invariant
                    e matches Expr::Block(v) && v == es,
                    ses == view_exprs(es@),
                    envm == slots_contents(*env),
                    c0 == (*old(ifnum) as int, *old(loopnum) as int),
                    start == view_instrs(old(out)@),
                    within_bounds(e@, si as int, envm, *old(ifnum), *old(loopnum)),
                    k <= es@.len(),
                    compile_block_spec(ses.take(k as int), si as int, envm, c0, brk) == Ok::<(Seq<SpecInstr>, Counters), SpecCompileError>(
                        (view_instrs(out@).subrange(start.len() as int, view_instrs(out@).len() as int), (*ifnum as int, *loopnum as int))),
                    view_instrs(out@).len() >= start.len(),
                    view_instrs(out@).subrange(0, start.len() as int) == start,
                    counters_grew(*old(ifnum), *old(loopnum), *ifnum, *loopnum, exprs_size(ses.take(k as int))),
                    exprs_size(ses.take(k as int)) <= exprs_size(ses),
                    all_printable(start) ==> all_printable(view_instrs(out@)),
                decreases es.len() - k,
            {
                let ghost before = view_instrs(out@);
                let ghost cb: Counters = (*ifnum as int, *loopnum as int);
                proof {
                    assert(ses.take(k + 1).drop_last() =~= ses.take(k as int));
                    assert(ses.take(k + 1).last() == ses[k as int]);
                    lemma_exprs_size_take(ses, k + 1);
                }
                let r = compile_into(&es[k], si, env, ifnum, loopnum, brk, out);
                match r {
                    Err(x) => {
                        proof { lemma_block_prefix_err(ses, k + 1, si as int, envm, c0, brk); }
                        return Err(x);
                    },
                    Ok(()) => {},
                }
                proof {
                    let after = view_instrs(out@);
                    let is = compile_spec(ses[k as int], si as int, envm, cb, brk)->Ok_0.0;
                    assert(after =~= before + is);
                    assert(after.subrange(0, start.len() as int) =~= start);
                    assert(after.subrange(start.len() as int, after.len() as int) =~=
                        before.subrange(start.len() as int, before.len() as int) + is);
                }
                k = k + 1;
            }
            assert(ses.take(es@.len() as int) =~= ses);
            assert(view_instrs(out@) =~= start + view_instrs(out@).subrange(start.len() as int, view_instrs(out@).len() as int));
            Ok(())
        },
        _ => Ok(()),
    }
}

/// Compiles a `let`: each binding in turn is compiled with the outer
/// environment and the bindings before it, and stored in its slot; then
/// the body.
fn compile_let(
    e: &Expr,
    si: i64,
    env: &Slots,
    ifnum: &mut i64,
    loopnum: &mut i64,
    brk: i64,
    out: &mut Vec<Instr>,
) -> (r: Result<(), CompileError>)
    requires
        e is Let,
        within_bounds(e@, si as int, slots_contents(*env), *old(ifnum), *old(loopnum)),
    ensures
        outcome(
            r,
            compile_spec(e@, si as int, slots_contents(*env), (*old(ifnum) as int, *old(loopnum) as int), brk),
            old(out)@,
            final(out)@,
            *final(ifnum),
            *final(loopnum),
        ),
        r is Ok ==> counters_grew(*old(ifnum), *old(loopnum), *final(ifnum), *final(loopnum), expr_size(e@)),
        r is Ok && all_printable(view_instrs(old(out)@)) ==> all_printable(view_instrs(final(out)@)),
    decreases e, 0int,
{
    let ghost envm = slots_contents(*env);
    let ghost c0: Counters = (*old(ifnum) as int, *old(loopnum) as int);
    let ghost start = view_instrs(out@);
    match e {
        Expr::Let(binds, body) => {
            let ghost bs = view_binds(binds@);
            assert(e@ == SpecExpr::Let(bs, Box::new(body@)));
            let mut newenv = slots_new();
            let mut cur = si;
            let mut k: usize = 0;
            assert(bs.take(0) =~= Seq::<(Seq<char>, SpecExpr)>::empty());
            assert(view_instrs(out@).subrange(start.len() as int, start.len() as int) =~= Seq::<SpecInstr>::empty());
            assert(view_instrs(out@).subrange(0, start.len() as int) =~= start);
            while k < binds.len()
                invariant
                    e matches Expr::Let(v, _) && v == binds,
                    bs == view_binds(binds@),
                    envm == slots_contents(*env),
                    c0 == (*old(ifnum) as int, *old(loopnum) as int),
                    start == view_instrs(old(out)@),
                    within_bounds(e@, si as int, envm, *old(ifnum), *old(loopnum)),
                    k <= binds@.len(),
                    si <= cur <= si + binds_size(bs.take(k as int)),
                    compile_binds_spec(bs.take(k as int), si as int, envm, c0, brk) == Ok::<(Seq<SpecInstr>, Counters, Map<Seq<char>, i64>, int), SpecCompileError>(
                        (view_instrs(out@).subrange(start.len() as int, view_instrs(out@).len() as int), (*ifnum as int, *loopnum as int),
                        slots_contents(newenv), cur as int)),
                    forall|x: Seq<char>| #[trigger] slots_contents(newenv).contains_key(x) && envm.contains_key(x)
                        ==> slots_contents(newenv)[x] == envm[x],
                    env_in_bounds(slots_contents(newenv)),
                    view_instrs(out@).len() >= start.len(),
                    view_instrs(out@).subrange(0, start.len() as int) == start,
                    counters_grew(*old(ifnum), *old(loopnum), *ifnum, *loopnum, binds_size(bs.take(k as int))),
                    binds_size(bs.take(k as int)) <= binds_size(bs),
                    all_printable(start) ==> all_printable(view_instrs(out@)),
                decreases binds.len() - k,
            {
                let ghost before = view_instrs(out@);
                let ghost cb: Counters = (*ifnum as int, *loopnum as int);
                let ghost ne = slots_contents(newenv);
                proof {
                    assert(bs.take(k + 1).drop_last() =~= bs.take(k as int));
                    assert(bs.take(k + 1).last() == bs[k as int]);
                    lemma_binds_size_take(bs, k + 1);
                }
                let (x, ex) = &binds[k];
                if slots_get(&newenv, x.as_str()).is_some() {
                    proof { lemma_binds_prefix_err(bs, k + 1, si as int, envm, c0, brk); }
                    return Err(CompileError::DuplicateBinding);
                }
                if is_let_keyword(x.as_str()) {
                    proof { lemma_binds_prefix_err(bs, k + 1, si as int, envm, c0, brk); }
                    return Err(CompileError::KeywordBinding);
                }
                let merged = slots_union(slots_clone(&newenv), slots_clone(env));
                proof {
                    lemma_im_union_agreeing(ne, envm);
                    assert(slots_contents(merged) == envm.union_prefer_right(ne));
                    assert(env_in_bounds(slots_contents(merged)));
                }
                let r = compile_into(ex, cur, &merged, ifnum, loopnum, brk, out);
                match r {
                    Err(y) => {
                        proof { lemma_binds_prefix_err(bs, k + 1, si as int, envm, c0, brk); }
                        return Err(y);
                    },
                    Ok(()) => {},
                }
                let ghost mid = view_instrs(out@);
                let ghost is = compile_spec(bs[k as int].1, cur as int, envm.union_prefer_right(ne), cb, brk)->Ok_0.0;
                assert(mid =~= before + is);
                match slots_get(env, x.as_str()) {
                    None => {
                        newenv = slots_update(&newenv, x.clone(), cur);
                        emit(out, Instr::IMov(stack_slot(cur), Val::Reg(Reg::RAX)));
                        proof {
                            let after = view_instrs(out@);
                            assert(after.subrange(0, start.len() as int) =~= start);
                            assert(after.subrange(start.len() as int, after.len() as int) =~=
                                before.subrange(start.len() as int, before.len() as int) + is + seq![SpecInstr::IMov(stk(cur as int), rax())]);
                        }
                        cur = cur + 1;
                    },
                    Some(o) => {
                        emit(out, Instr::IMov(stack_slot(o), Val::Reg(Reg::RAX)));
                        newenv = slots_update(&newenv, x.clone(), o);
                        proof {
                            let after = view_instrs(out@);
                            assert(after.subrange(0, start.len() as int) =~= start);
                            assert(after.subrange(start.len() as int, after.len() as int) =~=
                                before.subrange(start.len() as int, before.len() as int) + is + seq![SpecInstr::IMov(stk(o as int), rax())]);
                        }
                    },
                }
                k = k + 1;
            }
            assert(bs.take(binds@.len() as int) =~= bs);
            let ghost s1 = view_instrs(out@);
            let ghost ne = slots_contents(newenv);
            let merged = slots_union(newenv, slots_clone(env));
            proof {
                lemma_im_union_agreeing(ne, envm);
                assert(slots_contents(merged) == envm.union_prefer_right(ne));
                assert(env_in_bounds(slots_contents(merged)));
            }
            compile_into(body, cur, &merged, ifnum, loopnum, brk, out)?;
            proof {
                assert(s1 =~= start + s1.subrange(start.len() as int, s1.len() as int));
            }
            assert(view_instrs(out@) =~= start + compile_spec(e@, si as int, envm, c0, brk)->Ok_0.0);
            Ok(())
        },
        _ => Ok(()),
    }
}

/// Whether `e` compiles with stack index `si`, the environment `env`, the
/// label counters `ifnum` and `loopnum`, and the loop that a `break` ends
/// (`breaknum`, 0 outside any loop): `Ok` exactly where [`compile_spec`]
/// succeeds, else the [`CompileError`] for the first fault (an unbound
/// name, a duplicate or keyword binding, a `break` outside any loop), whose
/// message the compiler stops with.
pub fn check_compile(
    e: &Expr,
    si: i64,
    env: &Slots,
    ifnum: i64,
    loopnum: i64,
    breaknum: i64,
) -> (r: Result<(), CompileError>)
    requires
        within_bounds(e@, si as int, slots_contents(*env), ifnum, loopnum),
    ensures
        (r is Ok) == (compile_spec(e@, si as int, slots_contents(*env), (ifnum as int, loopnum as int), breaknum) is Ok),
        r matches Err(x) ==> compile_spec(
            e@,
            si as int,
            slots_contents(*env),
            (ifnum as int, loopnum as int),
            breaknum,
        ) == Err::<(Seq<SpecInstr>, Counters), SpecCompileError>(x@),
{
    let mut i = ifnum;
    let mut l = loopnum;
    let mut t: Vec<Instr> = Vec::new();
    compile_into(e, si, env, &mut i, &mut l, breaknum, &mut t)
}

/// Compiles `e` into instructions, with stack index `si`, the environment
/// `env` from names to stack indexes, the label counters `ifnum` and
/// `loopnum`, and the loop that a `break` ends (`breaknum`, 0 outside any
/// loop). What it gives is [`compile_spec`]; each instruction has assembly
/// text. It takes only what [`check_compile`] passes.
pub fn compile_to_instrs(
    e: &Expr,
    si: i64,
    env: &Slots,
    ifnum: &mut i64,
    loopnum: &mut i64,
    breaknum: i64,
) -> (r: Vec<Instr>)
    requires
        within_bounds(e@, si as int, slots_contents(*env), *old(ifnum), *old(loopnum)),
        compile_spec(e@, si as int, slots_contents(*env), (*old(ifnum) as int, *old(loopnum) as int), breaknum) is Ok,
    ensures
        Ok::<(Seq<SpecInstr>, Counters), SpecCompileError>(
            (view_instrs(r@), (*final(ifnum) as int, *final(loopnum) as int)),
        ) == compile_spec(e@, si as int, slots_contents(*env), (*old(ifnum) as int, *old(loopnum) as int), breaknum),
        counters_grew(*old(ifnum), *old(loopnum), *final(ifnum), *final(loopnum), expr_size(e@)),
        all_printable(view_instrs(r@)),
{
    let mut t: Vec<Instr> = Vec::new();
    proof {
        reveal(all_printable);
        assert(view_instrs(t@) =~= Seq::<SpecInstr>::empty());
    }
    let r = compile_into(e, si, env, ifnum, loopnum, breaknum, &mut t);
    proof {
        if r is Err {
            assert(false);
        }
    }
    t
}

} // verus!
