//! Whole programs: the text of the function definitions and of the main
//! expression, and the assembly that the compiler writes for them.
use vstd::prelude::*;

use crate::env::{Slots, slots_contents, slots_get, slots_new, slots_update};
use crate::green_snake::compiler::{check_compile, compile_to_instrs, counters_grew, within_bounds};
use crate::green_snake::emission::{Counters, binds_size, compile_spec, env_in_bounds, expr_size, exprs_size, max_stack_index};
use crate::green_snake::instrs::{Instr, SpecInstr, all_printable, instr_text, instr_to_str, view_instrs};
use crate::green_snake::parser::{check_defn, check_expr, parse_defn, parse_defn_spec, parse_expr, parse_spec};
use crate::green_snake::syntax::{
    CompileError, Defn, Expr, ParseError, SpecCompileError, SpecDefn, SpecExpr, view_binds, view_exprs, view_names, compile_error_text, parse_error_text,
};
use crate::sexpr::{read_sexp, sexp_parse};

verus! {

broadcast use
    vstd::std_specs::vec::axiom_vec_decreases_to_view,
    vstd::std_specs::vec::axiom_vec_index_decreases,
    crate::green_snake::syntax::lemma_view_exprs,
    crate::green_snake::syntax::lemma_view_exprs_index,
    crate::green_snake::syntax::lemma_view_binds,
    crate::green_snake::syntax::lemma_view_binds_index,
;

/// The text of a sequence of instructions: the text of each in turn.
pub open spec fn instrs_text(is: Seq<SpecInstr>) -> Seq<char>
    decreases is.len(),
{
    if is.len() == 0 {
        Seq::empty()
    } else {
        instrs_text(is.drop_last()) + instr_text(is.last())
    }
}

/// Appends the text of each instruction of `is` to `out`.
fn push_instrs(out: &mut String, is: &Vec<Instr>)
    requires
        all_printable(view_instrs(is@)),
    ensures
        final(out)@ == old(out)@ + instrs_text(view_instrs(is@)),
{
    let ghost v = view_instrs(is@);
    let mut i: usize = 0;
    assert(v.take(0) =~= Seq::<SpecInstr>::empty());
    assert(old(out)@ =~= old(out)@ + instrs_text(v.take(0)));
    while i < is.len()
        invariant
            v == view_instrs(is@),
            all_printable(v),
            i <= is@.len(),
            out@ == old(out)@ + instrs_text(v.take(i as int)),
        decreases is.len() - i,
    {
        proof {
            reveal(all_printable);
            assert(v[i as int] == is@[i as int]@);
        }
        let t = instr_to_str(&is[i]);
        out.append(t.as_str());
        assert(v.take(i + 1).drop_last() =~= v.take(i as int));
        assert(out@ =~= old(out)@ + instrs_text(v.take(i + 1)));
        i = i + 1;
    }
    assert(v.take(is@.len() as int) =~= v);
}

/// The environment of a function body: parameter `i` (from 0) at stack
/// index `-1 - i`, above the return address.
pub open spec fn defn_env(args: Seq<Seq<char>>) -> Map<Seq<char>, i64>
    decreases args.len(),
{
    if args.len() == 0 {
        Map::empty()
    } else {
        defn_env(args.drop_last()).insert(args.last(), (-(args.len() as int)) as i64)
    }
}

/// A definition whose body compiles within the bounds of the stack and of
/// the counters.
pub open spec fn defn_fits(d: SpecDefn, ifnum: int, loopnum: int) -> bool {
    &&& d.funargs.len() + 1 + expr_size(d.body) <= max_stack_index()
    &&& ifnum + expr_size(d.body) <= i64::MAX
    &&& loopnum + expr_size(d.body) <= i64::MAX
}

/// What a definition compiles to: its label, its body, and a return.
pub open spec fn defn_spec(d: SpecDefn, funs: Map<Seq<char>, i64>, c: Counters) -> Result<
    (Seq<char>, Counters),
    SpecCompileError,
> {
    match compile_spec(d.body, d.funargs.len() + 1int, defn_env(d.funargs), c, 0, funs) {
        Ok((is, c1)) => Ok(("\n"@ + d.fun + ":"@ + instrs_text(is) + "\nret"@, c1)),
        Err(x) => Err(x),
    }
}

proof fn lemma_defn_env_bounds(args: Seq<Seq<char>>)
    requires
        args.len() <= max_stack_index(),
    ensures
        env_in_bounds(defn_env(args)),
    decreases args.len(),
{
    if args.len() > 0 {
        lemma_defn_env_bounds(args.drop_last());
    }
}

/// The environment of a definition's body: each parameter at its stack
/// index above the return address ([`defn_env`]).
fn defn_slots(defn: &Defn) -> (r: Slots)
    requires
        defn.funargs@.len() + 1 <= max_stack_index(),
    ensures
        slots_contents(r) == defn_env(view_names(defn.funargs@)),
        env_in_bounds(slots_contents(r)),
{
    let ghost names = view_names(defn.funargs@);
    let n = defn.funargs.len();
    let mut env = slots_new();
    let mut i: usize = 0;
    assert(names.take(0) =~= Seq::<Seq<char>>::empty());
    while i < n
        invariant
            n == defn.funargs@.len(),
            names == view_names(defn.funargs@),
            n + 1 <= max_stack_index(),
            i <= n,
            slots_contents(env) == defn_env(names.take(i as int)),
        decreases n - i,
    {
        env = slots_update(&env, defn.funargs[i].clone(), -1 - i as i64);
        assert(names.take(i + 1).drop_last() =~= names.take(i as int));
        i = i + 1;
    }
    assert(names.take(n as int) =~= names);
    proof { lemma_defn_env_bounds(names); }
    env
}

/// Whether a function definition compiles with the functions `funnames`
/// and the label counters `ifnum` and `loopnum`: `Ok` exactly where
/// [`defn_spec`] succeeds, else the [`CompileError`] for the first fault
/// in its body, whose message the compiler stops with.
pub fn check_compile_defn(defn: &Defn, funnames: &Slots, ifnum: i64, loopnum: i64) -> (r: Result<(), CompileError>)
    requires
        defn_fits(defn@, ifnum as int, loopnum as int),
    ensures
        (r is Ok) == (defn_spec(defn@, slots_contents(*funnames), (ifnum as int, loopnum as int)) is Ok),
        r matches Err(x) ==> defn_spec(defn@, slots_contents(*funnames), (ifnum as int, loopnum as int)) == Err::<
            (Seq<char>, Counters),
            SpecCompileError,
        >(x@),
{
    let env = defn_slots(defn);
    let si = defn.funargs.len() as i64 + 1;
    check_compile(&defn.body, si, &env, ifnum, loopnum, 0, funnames)
}

/// Compiles a function definition: its label, its body with the
/// parameters above the return address, and a return. It takes only what
/// [`check_compile_defn`] passes.
pub fn compile_defn(defn: &Defn, funnames: &Slots, ifnum: &mut i64, loopnum: &mut i64) -> (r: String)
    requires
        defn_fits(defn@, *old(ifnum) as int, *old(loopnum) as int),
        defn_spec(defn@, slots_contents(*funnames), (*old(ifnum) as int, *old(loopnum) as int)) is Ok,
    ensures
        Ok::<(Seq<char>, Counters), SpecCompileError>((r@, (*final(ifnum) as int, *final(loopnum) as int)))
            == defn_spec(defn@, slots_contents(*funnames), (*old(ifnum) as int, *old(loopnum) as int)),
        counters_grew(*old(ifnum), *old(loopnum), *final(ifnum), *final(loopnum), expr_size(defn.body@)),
{
    let env = defn_slots(defn);
    let si = defn.funargs.len() as i64 + 1;
    let instrs = compile_to_instrs(&defn.body, si, &env, ifnum, loopnum, 0, funnames);
    let mut res = String::new();
    proof {
        reveal_strlit("\n");
        reveal_strlit(":");
        reveal_strlit("\nret");
    }
    res.append("\n");
    res.append(defn.fun.as_str());
    res.append(":");
    push_instrs(&mut res, &instrs);
    res.append("\nret");
    assert(res@ =~= "\n"@ + defn.fun@ + ":"@ + instrs_text(view_instrs(instrs@)) + "\nret"@);
    res
}

/// What the main expression compiles to: the input and heap pointers
/// saved, then the expression from stack index 3, outside any function.
pub open spec fn main_spec(e: SpecExpr, funs: Map<Seq<char>, i64>, c: Counters) -> Result<
    (Seq<char>, Counters),
    SpecCompileError,
> {
    match compile_spec(e, 3, Map::empty(), c, 0, funs) {
        Ok((is, c1)) => Ok(("\nmov [rsp-16], rdi"@ + "\nmov r15, rsi"@ + instrs_text(is), c1)),
        Err(x) => Err(x),
    }
}

/// Compiles the main expression of a program. It takes only what
/// [`check_compile`] passes from stack index 3 and an empty environment,
/// outside any loop.
pub fn compile(e: &Expr, funnames: &Slots, ifnum: &mut i64, loopnum: &mut i64) -> (r: String)
    requires
        3 + expr_size(e@) <= max_stack_index(),
        *old(ifnum) + expr_size(e@) <= i64::MAX,
        *old(loopnum) + expr_size(e@) <= i64::MAX,
        main_spec(e@, slots_contents(*funnames), (*old(ifnum) as int, *old(loopnum) as int)) is Ok,
    ensures
        Ok::<(Seq<char>, Counters), SpecCompileError>((r@, (*final(ifnum) as int, *final(loopnum) as int)))
            == main_spec(e@, slots_contents(*funnames), (*old(ifnum) as int, *old(loopnum) as int)),
        counters_grew(*old(ifnum), *old(loopnum), *final(ifnum), *final(loopnum), expr_size(e@)),
{
    let env = slots_new();
    assert(env_in_bounds(slots_contents(env)));
    assert(slots_contents(env) == Map::<Seq<char>, i64>::empty());
    let instrs = compile_to_instrs(e, 3, &env, ifnum, loopnum, 0, funnames);
    let mut result = String::new();
    proof {
        reveal_strlit("\nmov [rsp-16], rdi");
        reveal_strlit("\nmov r15, rsi");
    }
    result.append("\nmov [rsp-16], rdi");
    result.append("\nmov r15, rsi");
    push_instrs(&mut result, &instrs);
    assert(result@ =~= "\nmov [rsp-16], rdi"@ + "\nmov r15, rsi"@ + instrs_text(view_instrs(instrs@)));
    result
}

proof fn lemma_exprs_size_step(es: Seq<SpecExpr>, k: int)
    requires
        0 < k <= es.len(),
    ensures
        exprs_size(es.take(k)) == exprs_size(es.take(k - 1)) + expr_size(es[k - 1]),
{
    assert(es.take(k).drop_last() =~= es.take(k - 1));
}

proof fn lemma_exprs_size_monotone(es: Seq<SpecExpr>, k: int)
    requires
        0 <= k <= es.len(),
    ensures
        exprs_size(es.take(k)) <= exprs_size(es),
    decreases es.len(),
{
    if k < es.len() {
        lemma_exprs_size_monotone(es.drop_last(), k);
        assert(es.drop_last().take(k) =~= es.take(k));
    } else {
        assert(es.take(k) =~= es);
    }
}

proof fn lemma_binds_size_step(bs: Seq<(Seq<char>, SpecExpr)>, k: int)
    requires
        0 < k <= bs.len(),
    ensures
        binds_size(bs.take(k)) == binds_size(bs.take(k - 1)) + 1 + expr_size(bs[k - 1].1),
{
    assert(bs.take(k).drop_last() =~= bs.take(k - 1));
}

proof fn lemma_binds_size_monotone(bs: Seq<(Seq<char>, SpecExpr)>, k: int)
    requires
        0 <= k <= bs.len(),
    ensures
        binds_size(bs.take(k)) <= binds_size(bs),
    decreases bs.len(),
{
    if k < bs.len() {
        lemma_binds_size_monotone(bs.drop_last(), k);
        assert(bs.drop_last().take(k) =~= bs.take(k));
    } else {
        assert(bs.take(k) =~= bs);
    }
}

/// The total size of the expressions of a block, tuple or call, if it is at
/// most `budget`.
fn count_list(e: &Expr, es: &Vec<Expr>, budget: u64) -> (r: Option<u64>)
    requires
        (e matches Expr::Block(v) && v == es) || (e matches Expr::Tuple(v) && v == es) || (e matches Expr::Call(_, v) && v == es),
    ensures
        match r {
            Some(n) => n == exprs_size(view_exprs(es@)) && n <= budget,
            None => exprs_size(view_exprs(es@)) > budget,
        },
    decreases e, 0int,
{
    let ghost v = view_exprs(es@);
    let mut total: u64 = 0;
    let mut k: usize = 0;
    assert(v.take(0) =~= Seq::<SpecExpr>::empty());
    while k < es.len()
        invariant
            (e matches Expr::Block(w) && w == es) || (e matches Expr::Tuple(w) && w == es) || (e matches Expr::Call(_, w) && w == es),
            v == view_exprs(es@),
            k <= es@.len(),
            total == exprs_size(v.take(k as int)),
            total <= budget,
        decreases es.len() - k,
    {
        proof { lemma_exprs_size_step(v, k + 1); }
        match count_nodes(&es[k], budget - total) {
            Some(n) => total = total + n,
            None => {
                proof { lemma_exprs_size_monotone(v, k + 1); }
                return None;
            },
        }
        k = k + 1;
    }
    assert(v.take(es@.len() as int) =~= v);
    Some(total)
}

/// The size of `e` (see [`expr_size`]), if it is at most `budget`.
pub fn count_nodes(e: &Expr, budget: u64) -> (r: Option<u64>)
    ensures
        match r {
            Some(n) => n == expr_size(e@) && n <= budget,
            None => expr_size(e@) > budget,
        },
    decreases e, 1int,
{
    if budget == 0 {
        return None;
    }
    let inner = budget - 1;
    let used: u64 = match e {
        Expr::Let(binds, body) => {
            let ghost bs = view_binds(binds@);
            let mut total: u64 = 0;
            let mut k: usize = 0;
            assert(bs.take(0) =~= Seq::<(Seq<char>, SpecExpr)>::empty());
            while k < binds.len()
                invariant
                    e matches Expr::Let(b, _) && b == binds,
                    inner + 1 == budget,
                    bs == view_binds(binds@),
                    k <= binds@.len(),
                    total == binds_size(bs.take(k as int)),
                    total <= inner,
                decreases binds.len() - k,
            {
                proof { lemma_binds_size_step(bs, k + 1); }
                if total == inner {
                    proof { lemma_binds_size_monotone(bs, k + 1); }
                    return None;
                }
                match count_nodes(&binds[k].1, inner - total - 1) {
                    Some(n) => total = total + 1 + n,
                    None => {
                        proof { lemma_binds_size_monotone(bs, k + 1); }
                        return None;
                    },
                }
                k = k + 1;
            }
            assert(bs.take(binds@.len() as int) =~= bs);
            match count_nodes(body, inner - total) {
                Some(n) => total + n,
                None => return None,
            }
        },
        Expr::UnOp(_, a) | Expr::Loop(a) | Expr::Break(a) | Expr::Assign(_, a) => match count_nodes(a, inner) {
            Some(n) => n,
            None => return None,
        },
        Expr::BinOp(_, a, b) | Expr::Index(a, b) | Expr::SetTuple(_, a, b) => {
            let n = match count_nodes(a, inner) {
                Some(n) => n,
                None => return None,
            };
            match count_nodes(b, inner - n) {
                Some(m) => n + m,
                None => return None,
            }
        },
        Expr::If(c, t, f) => {
            let n = match count_nodes(c, inner) {
                Some(n) => n,
                None => return None,
            };
            let m = match count_nodes(t, inner - n) {
                Some(m) => m,
                None => return None,
            };
            match count_nodes(f, inner - n - m) {
                Some(p) => n + m + p,
                None => return None,
            }
        },
        Expr::Block(es) | Expr::Tuple(es) | Expr::Call(_, es) => match count_list(e, es, inner) {
            Some(n) => n,
            None => return None,
        },
        _ => 0,
    };
    Some(used + 1)
}

/// Where a function definition starts: a '(' at the top level followed by
/// "fun " or "fun)" and at least one more character.
pub open spec fn opens_fun(s: Seq<char>, i: int, lp: int) -> bool {
    lp == 0 && i + 5 < s.len() && (s.subrange(i + 1, i + 5) == "fun "@ || s.subrange(i + 1, i + 5) == "fun)"@)
}

/// Cuts the text from position `i` on, with `lp` parentheses open, `isfun`
/// where a definition is open, and the current piece starting at `start`:
/// a definition ends at the ')' that closes it; the last piece is the rest.
/// Outside a definition a ')' closes nothing.
pub open spec fn split_from(s: Seq<char>, i: int, lp: int, isfun: bool, start: int) -> Seq<Seq<char>>
    decreases s.len() - i,
{
    if i >= s.len() || i < 0 {
        seq![s.subrange(start, s.len() as int)]
    } else if s[i] == '(' {
        split_from(s, i + 1, lp + 1, isfun || opens_fun(s, i, lp), start)
    } else if s[i] == ')' && isfun {
        if lp - 1 == 0 {
            seq![s.subrange(start, i + 1)] + split_from(s, i + 1, 0, false, i + 1)
        } else {
            split_from(s, i + 1, lp - 1, true, start)
        }
    } else {
        split_from(s, i + 1, lp, isfun, start)
    }
}

/// The pieces of a program's text: each function definition, then the main
/// expression.
pub open spec fn split_spec(s: Seq<char>) -> Seq<Seq<char>> {
    split_from(s, 0, 0, false, 0)
}

pub open spec fn view_pieces(v: Seq<&str>) -> Seq<Seq<char>> {
    v.map_values(|p: &str| p@)
}

/// Cuts a program's text into its function definitions and its main
/// expression (the last piece).
pub fn split_program<'a>(text: &'a str) -> (r: Vec<&'a str>)
    ensures
        view_pieces(r@) == split_spec(text@),
        r@.len() >= 1,
{
    let ghost s = text@;
    let n = text.unicode_len();
    let mut lp: usize = 0;
    let mut start: usize = 0;
    let mut isfun = false;
    let mut i: usize = 0;
    let mut prog: Vec<&'a str> = Vec::new();
    assert(view_pieces(prog@) =~= Seq::<Seq<char>>::empty());
    while i < n
        invariant
            s == text@,
            n == s.len(),
            i <= n,
            start <= i,
            lp <= i,
            isfun ==> lp >= 1,
            view_pieces(prog@) + split_from(s, i as int, lp as int, isfun, start as int) == split_spec(s),
        decreases n - i,
    {
        let ghost before = view_pieces(prog@);
        let c = text.get_char(i);
        if c == '(' {
            let mut opens = false;
            if lp == 0 && 5 < n - i {
                let c1 = text.get_char(i + 1);
                let c2 = text.get_char(i + 2);
                let c3 = text.get_char(i + 3);
                let c4 = text.get_char(i + 4);
                opens = c1 == 'f' && c2 == 'u' && c3 == 'n' && (c4 == ' ' || c4 == ')');
                proof {
                    reveal_strlit("fun ");
                    reveal_strlit("fun)");
                    let w = s.subrange(i + 1, i + 5);
                    if opens {
                        if c4 == ' ' {
                            assert(w =~= "fun "@);
                        } else {
                            assert(w =~= "fun)"@);
                        }
                    } else {
                        if w == "fun "@ || w == "fun)"@ {
                            assert(w[0] == c1 && w[1] == c2 && w[2] == c3 && w[3] == c4);
                        }
                    }
                }
            }
            assert(opens == opens_fun(s, i as int, lp as int));
            if opens {
                isfun = true;
            }
            lp = lp + 1;
        } else if c == ')' && isfun {
            lp = lp - 1;
            if lp == 0 {
                prog.push(text.substring_char(start, i + 1));
                assert(view_pieces(prog@) =~= before.push(s.subrange(start as int, i + 1)));
                start = i + 1;
                isfun = false;
            }
        }
        i = i + 1;
    }
    let ghost before = view_pieces(prog@);
    prog.push(text.substring_char(start, n));
    assert(view_pieces(prog@) =~= before.push(s.subrange(start as int, n as int)));
    prog
}

/// The pieces put back together, in order.
pub open spec fn concat_pieces(ps: Seq<Seq<char>>) -> Seq<char>
    decreases ps.len(),
{
    if ps.len() == 0 {
        Seq::empty()
    } else {
        ps[0] + concat_pieces(ps.drop_first())
    }
}

proof fn lemma_split_from_concat(s: Seq<char>, i: int, lp: int, isfun: bool, start: int)
    requires
        0 <= start <= i <= s.len(),
    ensures
        concat_pieces(split_from(s, i, lp, isfun, start)) == s.subrange(start, s.len() as int),
    decreases s.len() - i,
{
    let ps = split_from(s, i, lp, isfun, start);
    if i >= s.len() {
        assert(ps.drop_first() =~= Seq::<Seq<char>>::empty());
        assert(concat_pieces(ps.drop_first()) == Seq::<char>::empty());
        assert(concat_pieces(ps) =~= s.subrange(start, s.len() as int));
    } else if s[i] == '(' {
        lemma_split_from_concat(s, i + 1, lp + 1, isfun || opens_fun(s, i, lp), start);
    } else if s[i] == ')' && isfun {
        if lp - 1 == 0 {
            let rest = split_from(s, i + 1, 0, false, i + 1);
            lemma_split_from_concat(s, i + 1, 0, false, i + 1);
            assert(ps.drop_first() =~= rest);
            assert(ps[0] == s.subrange(start, i + 1));
            assert(concat_pieces(ps) == s.subrange(start, i + 1) + s.subrange(i + 1, s.len() as int));
            assert(concat_pieces(ps) =~= s.subrange(start, s.len() as int));
        } else {
            lemma_split_from_concat(s, i + 1, lp - 1, true, start);
        }
    } else {
        lemma_split_from_concat(s, i + 1, lp, isfun, start);
    }
}

/// Cutting a program's text loses and repeats nothing: the pieces, put back
/// together in order, are the text.
pub proof fn lemma_split_pieces_make_text(s: Seq<char>)
    ensures
        concat_pieces(split_spec(s)) == s,
{
    lemma_split_from_concat(s, 0, 0, false, 0);
    assert(s.subrange(0, s.len() as int) =~= s);
}

/// Why a program's text does not compile.
#[derive(Debug)]
pub enum ProgramError {
    Parse(ParseError),
    Compile(CompileError),
    /// A definition or the main expression has more nodes than the compiler
    /// takes, or the label counters come too near their limit: bounds that
    /// keep every stack offset and label number within its integer type.
    TooLarge,
}

/// The mathematical model of a [`ProgramError`].
pub enum SpecProgramError {
    Parse(ParseError),
    Compile(SpecCompileError),
    TooLarge,
}

impl View for ProgramError {
    type V = SpecProgramError;

    open spec fn view(&self) -> SpecProgramError {
        match self {
            ProgramError::Parse(e) => SpecProgramError::Parse(*e),
            ProgramError::Compile(e) => SpecProgramError::Compile(e@),
            ProgramError::TooLarge => SpecProgramError::TooLarge,
        }
    }
}

/// Reads and parses the definitions, in order.
pub open spec fn defns_spec(ps: Seq<Seq<char>>) -> Result<Seq<SpecDefn>, ParseError>
    decreases ps.len(),
{
    if ps.len() == 0 {
        Ok(Seq::empty())
    } else {
        match defns_spec(ps.drop_last()) {
            Err(e) => Err(e),
            Ok(ds) => match sexp_parse(ps.last()) {
                Err(_) => Err(ParseError::InvalidSexp),
                Ok(sx) => match parse_defn_spec(sx) {
                    Err(e) => Err(e),
                    Ok(d) => Ok(ds.push(d)),
                },
            },
        }
    }
}

/// The functions of the definitions, each with its number of parameters;
/// a name defined twice is an error.
pub open spec fn fun_table_spec(ds: Seq<SpecDefn>) -> Result<Map<Seq<char>, i64>, ParseError>
    decreases ds.len(),
{
    if ds.len() == 0 {
        Ok(Map::empty())
    } else {
        match fun_table_spec(ds.drop_last()) {
            Err(e) => Err(e),
            Ok(m) => if m.contains_key(ds.last().fun) {
                Err(ParseError::DuplicateFunction)
            } else {
                Ok(m.insert(ds.last().fun, ds.last().funargs.len() as i64))
            },
        }
    }
}

/// The largest counter value with which a definition or the main
/// expression is compiled.
pub open spec fn counter_limit() -> int {
    i64::MAX - max_stack_index()
}

/// A definition that is compiled with counters `c`: it must fit the stack,
/// and the counters their limit.
pub open spec fn defn_admitted(d: SpecDefn, c: Counters) -> bool {
    d.funargs.len() + 1 + expr_size(d.body) <= max_stack_index() && c.0 <= counter_limit() && c.1 <= counter_limit()
}

/// Compiles the definitions in order, the counters running on.
pub open spec fn defns_code_spec(ds: Seq<SpecDefn>, funs: Map<Seq<char>, i64>, c: Counters) -> Result<
    (Seq<char>, Counters),
    SpecProgramError,
>
    decreases ds.len(),
{
    if ds.len() == 0 {
        Ok((Seq::empty(), c))
    } else {
        match defns_code_spec(ds.drop_last(), funs, c) {
            Err(x) => Err(x),
            Ok((t, c1)) => if !defn_admitted(ds.last(), c1) {
                Err(SpecProgramError::TooLarge)
            } else {
                match defn_spec(ds.last(), funs, c1) {
                    Err(x) => Err(SpecProgramError::Compile(x)),
                    Ok((t2, c2)) => Ok((t + t2, c2)),
                }
            },
        }
    }
}

/// The assembly file: the code of the definitions, then the entry point
/// with the code of the main expression.
pub open spec fn asm_file(funs: Seq<char>, main: Seq<char>) -> Seq<char> {
    "\nsection .text\nextern snek_error\nextern snek_print\nextern snek_structural_equal\nglobal our_code_starts_here\n"@
        + funs + "\nour_code_starts_here:\n  "@ + main + "\n  ret\n"@
}

/// What the compiler writes for a program's text: the definitions are read
/// and parsed, their names collected, the main expression read and parsed,
/// the definitions compiled, then the main expression (where `input` is
/// allowed).
pub open spec fn program_spec(text: Seq<char>) -> Result<Seq<char>, SpecProgramError> {
    let ps = split_spec(text);
    let n = ps.len() - 1;
    match defns_spec(ps.take(n)) {
        Err(e) => Err(SpecProgramError::Parse(e)),
        Ok(ds) => match fun_table_spec(ds) {
            Err(e) => Err(SpecProgramError::Parse(e)),
            Ok(funs) => match sexp_parse(ps[n]) {
                Err(_) => Err(SpecProgramError::Parse(ParseError::InvalidSexp)),
                Ok(sx) => match parse_spec(sx) {
                    Err(e) => Err(SpecProgramError::Parse(e)),
                    Ok(e) => match defns_code_spec(ds, funs, (0, 0)) {
                        Err(x) => Err(x),
                        Ok((ft, c)) => if 3 + expr_size(e) > max_stack_index() || c.0 > counter_limit() || c.1
                            > counter_limit() {
                            Err(SpecProgramError::TooLarge)
                        } else {
                            match main_spec(e, funs.insert("main"@, 1), c) {
                                Err(x) => Err(SpecProgramError::Compile(x)),
                                Ok((mt, _)) => Ok(asm_file(ft, mt)),
                            }
                        },
                    },
                },
            },
        },
    }
}

pub open spec fn view_program(r: Result<String, ProgramError>) -> Result<Seq<char>, SpecProgramError> {
    match r {
        Ok(s) => Ok(s@),
        Err(e) => Err(e@),
    }
}

pub open spec fn view_defns(v: Seq<Defn>) -> Seq<SpecDefn> {
    v.map_values(|d: Defn| d@)
}

proof fn lemma_defns_prefix_err(ps: Seq<Seq<char>>, k: int)
    requires
        0 <= k <= ps.len(),
        defns_spec(ps.take(k)) is Err,
    ensures
        defns_spec(ps) == defns_spec(ps.take(k)),
    decreases ps.len(),
{
    if k == ps.len() {
        assert(ps.take(k) =~= ps);
    } else {
        assert(ps.drop_last().take(k) =~= ps.take(k));
        lemma_defns_prefix_err(ps.drop_last(), k);
    }
}

proof fn lemma_fun_table_prefix_err(ds: Seq<SpecDefn>, k: int)
    requires
        0 <= k <= ds.len(),
        fun_table_spec(ds.take(k)) is Err,
    ensures
        fun_table_spec(ds) == fun_table_spec(ds.take(k)),
    decreases ds.len(),
{
    if k == ds.len() {
        assert(ds.take(k) =~= ds);
    } else {
        assert(ds.drop_last().take(k) =~= ds.take(k));
        lemma_fun_table_prefix_err(ds.drop_last(), k);
    }
}

proof fn lemma_defns_code_prefix_err(ds: Seq<SpecDefn>, k: int, funs: Map<Seq<char>, i64>, c: Counters)
    requires
        0 <= k <= ds.len(),
        defns_code_spec(ds.take(k), funs, c) is Err,
    ensures
        defns_code_spec(ds, funs, c) == defns_code_spec(ds.take(k), funs, c),
    decreases ds.len(),
{
    if k == ds.len() {
        assert(ds.take(k) =~= ds);
    } else {
        assert(ds.drop_last().take(k) =~= ds.take(k));
        lemma_defns_code_prefix_err(ds.drop_last(), k, funs, c);
    }
}

/// The result of compiling one definition, with the counters at `c`.
pub open spec fn admitted_spec(d: SpecDefn, funs: Map<Seq<char>, i64>, c: Counters) -> Result<
    (Seq<char>, Counters),
    SpecProgramError,
> {
    if !defn_admitted(d, c) {
        Err(SpecProgramError::TooLarge)
    } else {
        match defn_spec(d, funs, c) {
            Err(x) => Err(SpecProgramError::Compile(x)),
            Ok(r) => Ok(r),
        }
    }
}

pub open spec fn view_admitted(r: Result<String, ProgramError>, ifnum: i64, loopnum: i64) -> Result<
    (Seq<char>, Counters),
    SpecProgramError,
> {
    match r {
        Ok(s) => Ok((s@, (ifnum as int, loopnum as int))),
        Err(x) => Err(x@),
    }
}

/// Compiles one definition where it fits the bounds.
fn compile_admitted(d: &Defn, funnames: &Slots, ifnum: &mut i64, loopnum: &mut i64) -> (r: Result<String, ProgramError>)
    ensures
        view_admitted(r, *final(ifnum), *final(loopnum)) == admitted_spec(
            d@,
            slots_contents(*funnames),
            (*old(ifnum) as int, *old(loopnum) as int),
        ),
{
    let limit: i64 = i64::MAX - 0x0fff_ffff;
    let fits = match count_nodes(&d.body, 0x0fff_ffff) {
        Some(m) => (d.funargs.len() as u64) < 0x0fff_ffff && m <= 0x0fff_fffe - d.funargs.len() as u64,
        None => false,
    };
    if !fits || *ifnum > limit || *loopnum > limit {
        return Err(ProgramError::TooLarge);
    }
    if let Err(x) = check_compile_defn(d, funnames, *ifnum, *loopnum) {
        return Err(ProgramError::Compile(x));
    }
    Ok(compile_defn(d, funnames, ifnum, loopnum))
}

/// Compiles a program's text into the assembly file; see [`program_spec`].
pub fn compile_program(text: &str) -> (r: Result<String, ProgramError>)
    ensures
        view_program(r) == program_spec(text@),
{
    let prog = split_program(text);
    let ghost ps = view_pieces(prog@);
    let n = prog.len() - 1;
    // The definitions.
    let mut parsed_defn: Vec<Defn> = Vec::new();
    let mut i: usize = 0;
    assert(ps.take(0) =~= Seq::<Seq<char>>::empty());
    assert(view_defns(parsed_defn@) =~= Seq::<SpecDefn>::empty());
    while i < n
        invariant
            ps == view_pieces(prog@),
            ps == split_spec(text@),
            n + 1 == prog@.len(),
            i <= n,
            defns_spec(ps.take(i as int)) == Ok::<Seq<SpecDefn>, ParseError>(view_defns(parsed_defn@)),
        decreases n - i,
    {
        let ghost before = view_defns(parsed_defn@);
        assert(ps.take(i + 1).drop_last() =~= ps.take(i as int));
        assert(ps.take(i + 1).last() == prog@[i as int]@);
        match read_sexp(prog[i]) {
            Ok(parsed) => match check_defn(&parsed) {
                Ok(()) => {
                    let d = parse_defn(&parsed);
                    parsed_defn.push(d);
                    assert(view_defns(parsed_defn@) =~= before.push(d@));
                },
                Err(e) => {
                    proof { lemma_defns_prefix_err(ps.take(n as int), i + 1); assert(ps.take(n as int).take(i + 1) =~= ps.take(i + 1)); }
                    return Err(ProgramError::Parse(e));
                },
            },
            Err(_) => {
                proof { lemma_defns_prefix_err(ps.take(n as int), i + 1); assert(ps.take(n as int).take(i + 1) =~= ps.take(i + 1)); }
                return Err(ProgramError::Parse(ParseError::InvalidSexp));
            },
        }
        i = i + 1;
    }
    let ghost ds = view_defns(parsed_defn@);
    // The functions and their numbers of parameters.
    let mut fun_argnum = slots_new();
    let mut j: usize = 0;
    assert(ds.take(0) =~= Seq::<SpecDefn>::empty());
    while j < parsed_defn.len()
        invariant
            ds == view_defns(parsed_defn@),
            j <= parsed_defn@.len(),
            fun_table_spec(ds.take(j as int)) == Ok::<Map<Seq<char>, i64>, ParseError>(slots_contents(fun_argnum)),
            ps == split_spec(text@),
            n + 1 == ps.len(),
            defns_spec(ps.take(n as int)) == Ok::<Seq<SpecDefn>, ParseError>(ds),
        decreases parsed_defn.len() - j,
    {
        assert(ds.take(j + 1).drop_last() =~= ds.take(j as int));
        assert(ds.take(j + 1).last() == parsed_defn@[j as int]@);
        if slots_get(&fun_argnum, parsed_defn[j].fun.as_str()).is_some() {
            proof { lemma_fun_table_prefix_err(ds, j + 1); }
            return Err(ProgramError::Parse(ParseError::DuplicateFunction));
        }
        fun_argnum = slots_update(&fun_argnum, parsed_defn[j].fun.clone(), parsed_defn[j].funargs.len() as i64);
        j = j + 1;
    }
    assert(ds.take(parsed_defn@.len() as int) =~= ds);
    let ghost funs = slots_contents(fun_argnum);
    // The main expression.
    let expr = match read_sexp(prog[n]) {
        Ok(parsed) => match check_expr(&parsed) {
            Ok(()) => parse_expr(&parsed),
            Err(e) => return Err(ProgramError::Parse(e)),
        },
        Err(_) => return Err(ProgramError::Parse(ParseError::InvalidSexp)),
    };
    // The code of the definitions.
    let mut ifnum: i64 = 0;
    let mut loopnum: i64 = 0;
    let mut funs_code = String::new();
    let mut k: usize = 0;
    assert(funs_code@ =~= Seq::<char>::empty());
    while k < parsed_defn.len()
        invariant
            ds == view_defns(parsed_defn@),
            funs == slots_contents(fun_argnum),
            k <= parsed_defn@.len(),
            defns_code_spec(ds.take(k as int), funs, (0, 0)) == Ok::<(Seq<char>, Counters), SpecProgramError>(
                (funs_code@, (ifnum as int, loopnum as int))),
            ps == split_spec(text@),
            n + 1 == ps.len(),
            defns_spec(ps.take(n as int)) == Ok::<Seq<SpecDefn>, ParseError>(ds),
            fun_table_spec(ds) == Ok::<Map<Seq<char>, i64>, ParseError>(funs),
            sexp_parse(ps[n as int]) matches Ok(sx) && parse_spec(sx) == Ok::<SpecExpr, ParseError>(expr@),
        decreases parsed_defn.len() - k,
    {
        assert(ds.take(k + 1).drop_last() =~= ds.take(k as int));
        assert(ds.take(k + 1).last() == parsed_defn@[k as int]@);
        let code = match compile_admitted(&parsed_defn[k], &fun_argnum, &mut ifnum, &mut loopnum) {
            Ok(code) => code,
            Err(x) => {
                proof { lemma_defns_code_prefix_err(ds, k + 1, funs, (0, 0)); }
                return Err(x);
            },
        };
        funs_code.append(code.as_str());
        k = k + 1;
    }
    assert(ds.take(parsed_defn@.len() as int) =~= ds);
    // The code of the main expression, where `input` is allowed.
    let limit: i64 = i64::MAX - 0x0fff_ffff;
    let fits = match count_nodes(&expr, 0x0fff_ffff) {
        Some(m) => m <= 0x0fff_fffc,
        None => false,
    };
    if !fits || ifnum > limit || loopnum > limit {
        return Err(ProgramError::TooLarge);
    }
    let mut main = String::new();
    main.append("main");
    proof { reveal_strlit("main"); }
    assert(main@ =~= "main"@);
    let with_main = slots_update(&fun_argnum, main, 1);
    let env = slots_new();
    assert(slots_contents(env) == Map::<Seq<char>, i64>::empty());
    if let Err(x) = check_compile(&expr, 3, &env, ifnum, loopnum, 0, &with_main) {
        return Err(ProgramError::Compile(x));
    }
    let result = compile(&expr, &with_main, &mut ifnum, &mut loopnum);
    let mut asm_program = String::new();
    proof {
        reveal_strlit("\nsection .text\nextern snek_error\nextern snek_print\nextern snek_structural_equal\nglobal our_code_starts_here\n");
        reveal_strlit("\nour_code_starts_here:\n  ");
        reveal_strlit("\n  ret\n");
    }
    asm_program.append("\nsection .text\nextern snek_error\nextern snek_print\nextern snek_structural_equal\nglobal our_code_starts_here\n");
    asm_program.append(funs_code.as_str());
    asm_program.append("\nour_code_starts_here:\n  ");
    asm_program.append(result.as_str());
    asm_program.append("\n  ret\n");
    assert(asm_program@ =~= asm_file(funs_code@, result@));
    Ok(asm_program)
}

/// The message with which the compiler stops on a program error.
pub open spec fn program_error_text(e: SpecProgramError) -> Seq<char> {
    match e {
        SpecProgramError::Parse(p) => parse_error_text(p),
        SpecProgramError::Compile(c) => compile_error_text(c),
        SpecProgramError::TooLarge => "program too large"@,
    }
}

impl ProgramError {
    /// The message with which the compiler stops on this error.
    pub fn message(&self) -> (r: String)
        ensures
            r@ == program_error_text(self@),
    {
        match self {
            ProgramError::Parse(e) => e.message(),
            ProgramError::Compile(e) => e.message(),
            ProgramError::TooLarge => {
                let mut s = String::new();
                s.append("program too large");
                proof {
                    assert(s@ =~= "program too large"@);
                }
                s
            },
        }
    }
}

} // verus!
