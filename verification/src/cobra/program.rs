//! Whole programs: the text of an expression and the assembly that the
//! compiler writes for it.
use vstd::prelude::*;

use crate::cobra::compiler::{check_compile, compile_to_instrs, counters_grew};
use crate::cobra::emission::{binds_size, compile_spec, env_in_bounds, expr_size, exprs_size, max_stack_index};
use crate::cobra::instrs::{Instr, SpecInstr, all_printable, instr_text, instr_to_str, view_instrs};
use crate::cobra::parser::{check_expr, parse_expr, parse_spec};
use crate::cobra::syntax::{
    CompileError, Expr, ParseError, SpecCompileError, SpecExpr, SpecParseError, compile_error_text, parse_error_text, view_binds,
    view_exprs,
};
use crate::env::{slots_contents, slots_new};
use crate::sexpr::{read_sexp, sexp_parse};

verus! {

broadcast use
    vstd::std_specs::vec::axiom_vec_decreases_to_view,
    vstd::std_specs::vec::axiom_vec_index_decreases,
    crate::cobra::syntax::lemma_view_exprs,
    crate::cobra::syntax::lemma_view_exprs_index,
    crate::cobra::syntax::lemma_view_binds,
    crate::cobra::syntax::lemma_view_binds_index,
;

/// The text of a sequence of instructions: the text of each in turn.
pub open spec fn instrs_text(is: Seq<SpecInstr>) -> Seq<char>
    decreases is.len(),
{
    if is.len() == 0 {
        Seq::empty()
    } else {
        instrs_text(is.drop_last()) + instr_text(is.last())
    }
}

/// Appends the text of each instruction of `is` to `out`.
fn push_instrs(out: &mut String, is: &Vec<Instr>)
    requires
        all_printable(view_instrs(is@)),
    ensures
        final(out)@ == old(out)@ + instrs_text(view_instrs(is@)),
{
    let ghost v = view_instrs(is@);
    let mut i: usize = 0;
    assert(v.take(0) =~= Seq::<SpecInstr>::empty());
    assert(old(out)@ =~= old(out)@ + instrs_text(v.take(0)));
    while i < is.len()
        invariant
            v == view_instrs(is@),
            all_printable(v),
            i <= is@.len(),
            out@ == old(out)@ + instrs_text(v.take(i as int)),
        decreases is.len() - i,
    {
        proof {
            reveal(all_printable);
            assert(v[i as int] == is@[i as int]@);
        }
        let t = instr_to_str(&is[i]);
        out.append(t.as_str());
        assert(v.take(i + 1).drop_last() =~= v.take(i as int));
        assert(out@ =~= old(out)@ + instrs_text(v.take(i + 1)));
        i = i + 1;
    }
    assert(v.take(is@.len() as int) =~= v);
}

proof fn lemma_exprs_size_step(es: Seq<SpecExpr>, k: int)
    requires
        0 < k <= es.len(),
    ensures
        exprs_size(es.take(k)) == exprs_size(es.take(k - 1)) + expr_size(es[k - 1]),
{
    assert(es.take(k).drop_last() =~= es.take(k - 1));
}

proof fn lemma_exprs_size_monotone(es: Seq<SpecExpr>, k: int)
    requires
        0 <= k <= es.len(),
    ensures
        exprs_size(es.take(k)) <= exprs_size(es),
    decreases es.len(),
{
    if k < es.len() {
        lemma_exprs_size_monotone(es.drop_last(), k);
        assert(es.drop_last().take(k) =~= es.take(k));
    } else {
        assert(es.take(k) =~= es);
    }
}

proof fn lemma_binds_size_step(bs: Seq<(Seq<char>, SpecExpr)>, k: int)
    requires
        0 < k <= bs.len(),
    ensures
        binds_size(bs.take(k)) == binds_size(bs.take(k - 1)) + 1 + expr_size(bs[k - 1].1),
{
    assert(bs.take(k).drop_last() =~= bs.take(k - 1));
}

proof fn lemma_binds_size_monotone(bs: Seq<(Seq<char>, SpecExpr)>, k: int)
    requires
        0 <= k <= bs.len(),
    ensures
        binds_size(bs.take(k)) <= binds_size(bs),
    decreases bs.len(),
{
    if k < bs.len() {
        lemma_binds_size_monotone(bs.drop_last(), k);
        assert(bs.drop_last().take(k) =~= bs.take(k));
    } else {
        assert(bs.take(k) =~= bs);
    }
}

/// The total size of the expressions of a block, if it is at most `budget`.
fn count_list(e: &Expr, es: &Vec<Expr>, budget: u64) -> (r: Option<u64>)
    requires
        e matches Expr::Block(v) && v == es,
    ensures
        match r {
            Some(n) => n == exprs_size(view_exprs(es@)) && n <= budget,
            None => exprs_size(view_exprs(es@)) > budget,
        },
    decreases e, 0int,
{
    let ghost v = view_exprs(es@);
    let mut total: u64 = 0;
    let mut k: usize = 0;
    assert(v.take(0) =~= Seq::<SpecExpr>::empty());
    while k < es.len()
        invariant
            e matches Expr::Block(w) && w == es,
            v == view_exprs(es@),
            k <= es@.len(),
            total == exprs_size(v.take(k as int)),
            total <= budget,
        decreases es.len() - k,
    {
        proof { lemma_exprs_size_step(v, k + 1); }
        match count_nodes(&es[k], budget - total) {
            Some(n) => total = total + n,
            None => {
                proof { lemma_exprs_size_monotone(v, k + 1); }
                return None;
            },
        }
        k = k + 1;
    }
    assert(v.take(es@.len() as int) =~= v);
    Some(total)
}

/// The size of `e` (see [`expr_size`]), if it is at most `budget`.
pub fn count_nodes(e: &Expr, budget: u64) -> (r: Option<u64>)
    ensures
        match r {
            Some(n) => n == expr_size(e@) && n <= budget,
            None => expr_size(e@) > budget,
        },
    decreases e, 1int,
{
    if budget == 0 {
        return None;
    }
    let inner = budget - 1;
    let used: u64 = match e {
        Expr::Let(binds, body) => {
            let ghost bs = view_binds(binds@);
            let mut total: u64 = 0;
            let mut k: usize = 0;
            assert(bs.take(0) =~= Seq::<(Seq<char>, SpecExpr)>::empty());
            while k < binds.len()
                invariant
                    e matches Expr::Let(b, _) && b == binds,
                    inner + 1 == budget,
                    bs == view_binds(binds@),
                    k <= binds@.len(),
                    total == binds_size(bs.take(k as int)),
                    total <= inner,
                decreases binds.len() - k,
            {
                proof { lemma_binds_size_step(bs, k + 1); }
                if total == inner {
                    proof { lemma_binds_size_monotone(bs, k + 1); }
                    return None;
                }
                match count_nodes(&binds[k].1, inner - total - 1) {
                    Some(n) => total = total + 1 + n,
                    None => {
                        proof { lemma_binds_size_monotone(bs, k + 1); }
                        return None;
                    },
                }
                k = k + 1;
            }
            assert(bs.take(binds@.len() as int) =~= bs);
            match count_nodes(body, inner - total) {
                Some(n) => total + n,
                None => return None,
            }
        },
        Expr::UnOp(_, a) | Expr::Loop(a) | Expr::Break(a) | Expr::Assign(_, a) => match count_nodes(a, inner) {
            Some(n) => n,
            None => return None,
        },
        Expr::BinOp(_, a, b) => {
            let n = match count_nodes(a, inner) {
                Some(n) => n,
                None => return None,
            };
            match count_nodes(b, inner - n) {
                Some(m) => n + m,
                None => return None,
            }
        },
        Expr::If(c, t, f) => {
            let n = match count_nodes(c, inner) {
                Some(n) => n,
                None => return None,
            };
            let m = match count_nodes(t, inner - n) {
                Some(m) => m,
                None => return None,
            };
            match count_nodes(f, inner - n - m) {
                Some(p) => n + m + p,
                None => return None,
            }
        },
        Expr::Block(es) => match count_list(e, es, inner) {
            Some(n) => n,
            None => return None,
        },
        _ => 0,
    };
    Some(used + 1)
}

/// What the main expression compiles to: the input saved, then the
/// expression from stack index 3.
pub open spec fn main_spec(e: SpecExpr) -> Result<Seq<char>, SpecCompileError> {
    match compile_spec(e, 3, Map::empty(), (0, 0), 0) {
        Ok((is, _)) => Ok("\nmov [rsp-16], rdi"@ + instrs_text(is)),
        Err(x) => Err(x),
    }
}

/// Compiles an expression: the input saved, then its instructions. It
/// takes only what [`check_compile`] passes from stack index 3, an empty
/// environment and label counters at 0, outside any loop.
pub fn compile(e: &Expr) -> (r: String)
    requires
        3 + expr_size(e@) <= max_stack_index(),
        main_spec(e@) is Ok,
    ensures
        Ok::<Seq<char>, SpecCompileError>(r@) == main_spec(e@),
{
    let env = slots_new();
    assert(env_in_bounds(slots_contents(env)));
    assert(slots_contents(env) == Map::<Seq<char>, i64>::empty());
    let mut ifnum: i64 = 0;
    let mut loopnum: i64 = 0;
    let instrs = compile_to_instrs(e, 3, &env, &mut ifnum, &mut loopnum, 0);
    let mut result = String::new();
    proof { reveal_strlit("\nmov [rsp-16], rdi"); }
    result.append("\nmov [rsp-16], rdi");
    push_instrs(&mut result, &instrs);
    assert(result@ =~= "\nmov [rsp-16], rdi"@ + instrs_text(view_instrs(instrs@)));
    result
}

/// Why a program's text does not compile.
#[derive(Debug)]
pub enum ProgramError {
    Parse(ParseError),
    Compile(CompileError),
    /// The expression has more nodes than the compiler takes: a bound on its
    /// size that keeps every stack offset, and every label number, within
    /// its integer type.
    TooLarge,
}

/// The mathematical model of a [`ProgramError`].
pub enum SpecProgramError {
    Parse(SpecParseError),
    Compile(SpecCompileError),
    TooLarge,
}

impl View for ProgramError {
    type V = SpecProgramError;

    open spec fn view(&self) -> SpecProgramError {
        match self {
            ProgramError::Parse(e) => SpecProgramError::Parse(e@),
            ProgramError::Compile(e) => SpecProgramError::Compile(e@),
            ProgramError::TooLarge => SpecProgramError::TooLarge,
        }
    }
}

/// The assembly file around the code of the expression.
pub open spec fn asm_file(main: Seq<char>) -> Seq<char> {
    "\nsection .text\nextern snek_error\nglobal our_code_starts_here\nour_code_starts_here:\n  "@ + main + "\n  ret\n"@
}

/// What the compiler writes for a program's text.
pub open spec fn program_spec(text: Seq<char>) -> Result<Seq<char>, SpecProgramError> {
    match sexp_parse(text) {
        Err(_) => Err(SpecProgramError::Parse(SpecParseError::InvalidSexp)),
        Ok(sx) => match parse_spec(sx) {
            Err(e) => Err(SpecProgramError::Parse(e)),
            Ok(e) => if 3 + expr_size(e) > max_stack_index() {
                Err(SpecProgramError::TooLarge)
            } else {
                match main_spec(e) {
                    Err(x) => Err(SpecProgramError::Compile(x)),
                    Ok(t) => Ok(asm_file(t)),
                }
            },
        },
    }
}

pub open spec fn view_program(r: Result<String, ProgramError>) -> Result<Seq<char>, SpecProgramError> {
    match r {
        Ok(s) => Ok(s@),
        Err(e) => Err(e@),
    }
}

/// Compiles a program's text into the assembly file; see [`program_spec`].
pub fn compile_program(text: &str) -> (r: Result<String, ProgramError>)
    ensures
        view_program(r) == program_spec(text@),
{
    let expr = match read_sexp(text) {
        Ok(parsed) => match check_expr(&parsed) {
            Ok(()) => parse_expr(&parsed),
            Err(e) => return Err(ProgramError::Parse(e)),
        },
        Err(_) => return Err(ProgramError::Parse(ParseError::InvalidSexp)),
    };
    let fits = match count_nodes(&expr, 0x0fff_ffff) {
        Some(m) => m <= 0x0fff_fffc,
        None => false,
    };
    if !fits {
        return Err(ProgramError::TooLarge);
    }
    let env = slots_new();
    assert(slots_contents(env) == Map::<Seq<char>, i64>::empty());
    if let Err(x) = check_compile(&expr, 3, &env, 0, 0, 0) {
        return Err(ProgramError::Compile(x));
    }
    let result = compile(&expr);
    let mut out = String::new();
    proof {
        reveal_strlit("\nsection .text\nextern snek_error\nglobal our_code_starts_here\nour_code_starts_here:\n  ");
        reveal_strlit("\n  ret\n");
    }
    out.append("\nsection .text\nextern snek_error\nglobal our_code_starts_here\nour_code_starts_here:\n  ");
    out.append(result.as_str());
    out.append("\n  ret\n");
    assert(out@ =~= asm_file(result@));
    Ok(out)
}

/// The message with which the compiler stops on a program error.
pub open spec fn program_error_text(e: SpecProgramError) -> Seq<char> {
    match e {
        SpecProgramError::Parse(p) => parse_error_text(p),
        SpecProgramError::Compile(c) => compile_error_text(c),
        SpecProgramError::TooLarge => "program too large"@,
    }
}

impl ProgramError {
    /// The message with which the compiler stops on this error.
    pub fn message(&self) -> (r: String)
        ensures
            r@ == program_error_text(self@),
    {
        match self {
            ProgramError::Parse(e) => e.message(),
            ProgramError::Compile(e) => e.message(),
            ProgramError::TooLarge => {
                let mut s = String::new();
                s.append("program too large");
                proof {
                    assert(s@ =~= "program too large"@);
                }
                s
            },
        }
    }
}

} // verus!
