//! The abstract syntax of the language, the x86 instructions that the
//! compiler emits, their assembly text, and the errors of both phases.
use vstd::prelude::*;

use crate::decimal::{int_decimal, push_i64_decimal};
use crate::sexpr::{SExpr, SAtom, SpecSExpr, SpecAtom, view_sexps};

verus! {

broadcast use vstd::std_specs::vec::axiom_vec_decreases_to_view;

/// A register in x86.
#[derive(Debug, PartialEq, Eq, Clone, Copy)]
pub enum Reg {
    /// The rax register. Also known as the return value.
    Rax,
    /// The r10 register. Also known as a scratch/temporary register.
    R10,
    /// The r11 register. Also known as a scratch/temporary register.
    R11,
    /// The rsp (i.e., stack pointer) register.
    Rsp,
    /// The first register to be used for passing in arguments.
    Rdi,
    /// The second register to be used for passing in arguments.
    Rsi,
}

/// A value represented in assembly.
#[derive(Debug, PartialEq, Eq, Clone, Copy)]
pub enum Val {
    /// A register (e.g., rax or rsp).
    Reg(Reg),
    /// An (immutable) integer (e.g., 10, 8)
    Imm(i64),
    /// A register offset (e.g., [rax - 16]).
    RegOffset(Reg, i32),
}

/// An assembly instruction.
#[derive(Debug, PartialEq)]
pub enum Instr {
    IMov(Val, Val),
    IAdd(Val, Val),
    ISub(Val, Val),
    IMul(Val, Val),
    Compare(Val, Val),
    Test(Val, Val),
    Jump(String),
    JumpEqual(String),
    JumpNotEqual(String),
    JumpLess(String),
    JumpLessEqual(String),
    JumpGreater(String),
    JumpGreaterEqual(String),
    JumpOverflow(String),
    JumpNoOverflow(String),
    Label(String),
    ShiftLeft(Val, i32),
    ShiftSignRight(Val, i32),
    ShiftRight(Val, i32),
    BitwiseAnd(Val, Val),
    BitwiseXor(Val, Val),
    Call(String),
    Push(Val),
    Pop(Reg),
}

/// The mathematical model of an [`Instr`]: labels are character sequences.
pub enum SpecInstr {
    IMov(Val, Val),
    IAdd(Val, Val),
    ISub(Val, Val),
    IMul(Val, Val),
    Compare(Val, Val),
    Test(Val, Val),
    Jump(Seq<char>),
    JumpEqual(Seq<char>),
    JumpNotEqual(Seq<char>),
    JumpLess(Seq<char>),
    JumpLessEqual(Seq<char>),
    JumpGreater(Seq<char>),
    JumpGreaterEqual(Seq<char>),
    JumpOverflow(Seq<char>),
    JumpNoOverflow(Seq<char>),
    Label(Seq<char>),
    ShiftLeft(Val, i32),
    ShiftSignRight(Val, i32),
    ShiftRight(Val, i32),
    BitwiseAnd(Val, Val),
    BitwiseXor(Val, Val),
    Call(Seq<char>),
    Push(Val),
    Pop(Reg),
}

impl View for Instr {
    type V = SpecInstr;

    open spec fn view(&self) -> SpecInstr {
        match self {
            Instr::IMov(a, b) => SpecInstr::IMov(*a, *b),
            Instr::IAdd(a, b) => SpecInstr::IAdd(*a, *b),
            Instr::ISub(a, b) => SpecInstr::ISub(*a, *b),
            Instr::IMul(a, b) => SpecInstr::IMul(*a, *b),
            Instr::Compare(a, b) => SpecInstr::Compare(*a, *b),
            Instr::Test(a, b) => SpecInstr::Test(*a, *b),
            Instr::Jump(l) => SpecInstr::Jump(l@),
            Instr::JumpEqual(l) => SpecInstr::JumpEqual(l@),
            Instr::JumpNotEqual(l) => SpecInstr::JumpNotEqual(l@),
            Instr::JumpLess(l) => SpecInstr::JumpLess(l@),
            Instr::JumpLessEqual(l) => SpecInstr::JumpLessEqual(l@),
            Instr::JumpGreater(l) => SpecInstr::JumpGreater(l@),
            Instr::JumpGreaterEqual(l) => SpecInstr::JumpGreaterEqual(l@),
            Instr::JumpOverflow(l) => SpecInstr::JumpOverflow(l@),
            Instr::JumpNoOverflow(l) => SpecInstr::JumpNoOverflow(l@),
            Instr::Label(l) => SpecInstr::Label(l@),
            Instr::ShiftLeft(a, n) => SpecInstr::ShiftLeft(*a, *n),
            Instr::ShiftSignRight(a, n) => SpecInstr::ShiftSignRight(*a, *n),
            Instr::ShiftRight(a, n) => SpecInstr::ShiftRight(*a, *n),
            Instr::BitwiseAnd(a, b) => SpecInstr::BitwiseAnd(*a, *b),
            Instr::BitwiseXor(a, b) => SpecInstr::BitwiseXor(*a, *b),
            Instr::Call(f) => SpecInstr::Call(f@),
            Instr::Push(a) => SpecInstr::Push(*a),
            Instr::Pop(r) => SpecInstr::Pop(*r),
        }
    }
}

pub open spec fn view_instrs(s: Seq<Instr>) -> Seq<SpecInstr> {
    s.map_values(|i: Instr| i@)
}

#[derive(Debug, PartialEq, Eq, Clone, Copy)]
pub enum Op1 {
    Arith(ArithmeticUnaryOp),
    Comp(ComparisonUnaryOp),
}

#[derive(Debug, PartialEq, Eq, Clone, Copy)]
pub enum ArithmeticUnaryOp {
    Add1,
    Sub1,
}

#[derive(Debug, PartialEq, Eq, Clone, Copy)]
pub enum ComparisonUnaryOp {
    IsNum,
    IsBool,
}

#[derive(Debug, PartialEq, Eq, Clone, Copy)]
pub enum Op2 {
    Arith(ArithmeticBinaryOp),
    Comp(ComparisonBinaryOp),
}

#[derive(Debug, PartialEq, Eq, Clone, Copy)]
pub enum ArithmeticBinaryOp {
    Plus,
    Minus,
    Times,
}

#[derive(Debug, PartialEq, Eq, Clone, Copy)]
pub enum ComparisonBinaryOp {
    Equality(CompEqualityOp),
    Inequality(CompInequalityOp),
}

#[derive(Debug, PartialEq, Eq, Clone, Copy)]
pub enum CompInequalityOp {
    LessEqual,
    GreaterEqual,
    Less,
    Greater,
}

#[derive(Debug, PartialEq, Eq, Clone, Copy)]
pub enum CompEqualityOp {
    Equal,
    NotEqual,
}

/// An expression of the language. Identifiers borrow from the s-expression
/// that the expression was parsed from.
#[derive(Debug, PartialEq)]
pub enum Expr<'a> {
    Number(i64),
    Bool(bool),
    Id(&'a str),
    Let(Vec<(&'a str, Expr<'a>)>, Box<Expr<'a>>),
    UnOp(Op1, Box<Expr<'a>>),
    BinOp(Op2, Box<Expr<'a>>, Box<Expr<'a>>),
    If(Box<Expr<'a>>, Box<Expr<'a>>, Box<Expr<'a>>),
    Assign(&'a str, Box<Expr<'a>>),
    Block(Vec<Expr<'a>>),
    Loop(Box<Expr<'a>>),
    Break(Box<Expr<'a>>),
    Input,
}

/// The mathematical model of an [`Expr`].
pub enum SpecExpr {
    Number(i64),
    Bool(bool),
    Id(Seq<char>),
    Let(Seq<(Seq<char>, SpecExpr)>, Box<SpecExpr>),
    UnOp(Op1, Box<SpecExpr>),
    BinOp(Op2, Box<SpecExpr>, Box<SpecExpr>),
    If(Box<SpecExpr>, Box<SpecExpr>, Box<SpecExpr>),
    Assign(Seq<char>, Box<SpecExpr>),
    Block(Seq<SpecExpr>),
    Loop(Box<SpecExpr>),
    Break(Box<SpecExpr>),
    Input,
}

pub open spec fn view_exprs<'a>(s: Seq<Expr<'a>>) -> Seq<SpecExpr>
    decreases s, 0int,
{
    if s.len() == 0 {
        Seq::empty()
    } else {
        view_exprs(s.drop_last()).push(view_expr(s.last()))
    }
}

pub open spec fn view_bindings<'a>(s: Seq<(&'a str, Expr<'a>)>) -> Seq<(Seq<char>, SpecExpr)>
    decreases s, 0int,
{
    if s.len() == 0 {
        Seq::empty()
    } else {
        view_bindings(s.drop_last()).push((s.last().0@, view_expr(s.last().1)))
    }
}

pub open spec fn view_expr<'a>(e: Expr<'a>) -> SpecExpr
    decreases e, 1int,
{
    match e {
        Expr::Number(n) => SpecExpr::Number(n),
        Expr::Bool(b) => SpecExpr::Bool(b),
        Expr::Id(x) => SpecExpr::Id(x@),
        Expr::Let(bs, body) => SpecExpr::Let(view_bindings(bs@), Box::new(view_expr(*body))),
        Expr::UnOp(op, a) => SpecExpr::UnOp(op, Box::new(view_expr(*a))),
        Expr::BinOp(op, a, b) => SpecExpr::BinOp(op, Box::new(view_expr(*a)), Box::new(view_expr(*b))),
        Expr::If(c, t, f) => SpecExpr::If(Box::new(view_expr(*c)), Box::new(view_expr(*t)), Box::new(view_expr(*f))),
        Expr::Assign(x, a) => SpecExpr::Assign(x@, Box::new(view_expr(*a))),
        Expr::Block(es) => SpecExpr::Block(view_exprs(es@)),
        Expr::Loop(a) => SpecExpr::Loop(Box::new(view_expr(*a))),
        Expr::Break(a) => SpecExpr::Break(Box::new(view_expr(*a))),
        Expr::Input => SpecExpr::Input,
    }
}

impl<'a> View for Expr<'a> {
    type V = SpecExpr;

    open spec fn view(&self) -> SpecExpr {
        view_expr(*self)
    }
}


/// The model of a list has one element per element.
pub broadcast proof fn lemma_view_exprs<'a>(s: Seq<Expr<'a>>)
    ensures
        #[trigger] view_exprs(s).len() == s.len(),
    decreases s.len(),
{
    if s.len() > 0 {
        lemma_view_exprs(s.drop_last());
    }
}

/// Each element of the model of a list is the model of the element.
pub broadcast proof fn lemma_view_exprs_index<'a>(s: Seq<Expr<'a>>, i: int)
    requires
        0 <= i < s.len(),
    ensures
        #[trigger] view_exprs(s)[i] == view_expr(s[i]),
    decreases s.len(),
{
    lemma_view_exprs(s);
    if i < s.len() - 1 {
        lemma_view_exprs_index(s.drop_last(), i);
        assert(s.drop_last()[i] == s[i]);
    }
}

/// The model of a list has one element per element.
pub broadcast proof fn lemma_view_bindings<'a>(s: Seq<(&'a str, Expr<'a>)>)
    ensures
        #[trigger] view_bindings(s).len() == s.len(),
    decreases s.len(),
{
    if s.len() > 0 {
        lemma_view_bindings(s.drop_last());
    }
}

/// Each element of the model of a list is the model of the element.
pub broadcast proof fn lemma_view_bindings_index<'a>(s: Seq<(&'a str, Expr<'a>)>, i: int)
    requires
        0 <= i < s.len(),
    ensures
        #[trigger] view_bindings(s)[i] == (s[i].0@, view_expr(s[i].1)),
    decreases s.len(),
{
    lemma_view_bindings(s);
    if i < s.len() - 1 {
        lemma_view_bindings_index(s.drop_last(), i);
        assert(s.drop_last()[i] == s[i]);
    }
}

/// An error of compilation.
#[derive(Debug)]
pub enum CompileError<'a> {
    /// "Unbound variable identifier {0}"
    UnboundIdentifier(&'a str),
    /// "No associated loop to break from"
    NoLoopForBreak,
}

/// The mathematical model of a [`CompileError`].
pub enum SpecCompileError {
    UnboundIdentifier(Seq<char>),
    NoLoopForBreak,
}

impl<'a> View for CompileError<'a> {
    type V = SpecCompileError;

    open spec fn view(&self) -> SpecCompileError {
        match self {
            CompileError::UnboundIdentifier(x) => SpecCompileError::UnboundIdentifier(x@),
            CompileError::NoLoopForBreak => SpecCompileError::NoLoopForBreak,
        }
    }
}

/// An error of parsing: what was wrong, with the s-expressions it was found in.
#[derive(Debug, PartialEq)]
pub enum ParseError<'a> {
    BlockEmpty,
    UnknownOperator(&'a str, &'a [SExpr]),
    UnsupportedAtomType(&'a SAtom),
    UnknownBinaryOperator(&'a str, &'a [SExpr]),
    InvalidSExpr(&'a [SExpr]),
    BadBinding(&'a SExpr),
    InvalidBinding(&'a SExpr),
    InvalidIdentifier(&'a str, &'a [SExpr]),
    ReservedIdentifierUsed(&'a str, &'a [SExpr]),
    NoLetBindings,
    DuplicateIdentifier(&'a str),
    OverflowNumber(&'a SAtom),
    UnderflowNumber(&'a SAtom),
}

/// The mathematical model of a [`ParseError`].
pub enum SpecParseError {
    BlockEmpty,
    UnknownOperator(Seq<char>, Seq<SpecSExpr>),
    UnsupportedAtomType(SpecAtom),
    UnknownBinaryOperator(Seq<char>, Seq<SpecSExpr>),
    InvalidSExpr(Seq<SpecSExpr>),
    BadBinding(SpecSExpr),
    InvalidBinding(SpecSExpr),
    InvalidIdentifier(Seq<char>, Seq<SpecSExpr>),
    ReservedIdentifierUsed(Seq<char>, Seq<SpecSExpr>),
    NoLetBindings,
    DuplicateIdentifier(Seq<char>),
    OverflowNumber(SpecAtom),
    UnderflowNumber(SpecAtom),
}

impl<'a> View for ParseError<'a> {
    type V = SpecParseError;

    open spec fn view(&self) -> SpecParseError {
        match self {
            ParseError::BlockEmpty => SpecParseError::BlockEmpty,
            ParseError::UnknownOperator(op, c) => SpecParseError::UnknownOperator(op@, view_sexps(c@)),
            ParseError::UnsupportedAtomType(a) => SpecParseError::UnsupportedAtomType((*a)@),
            ParseError::UnknownBinaryOperator(op, c) => SpecParseError::UnknownBinaryOperator(op@, view_sexps(c@)),
            ParseError::InvalidSExpr(c) => SpecParseError::InvalidSExpr(view_sexps(c@)),
            ParseError::BadBinding(s) => SpecParseError::BadBinding((*s)@),
            ParseError::InvalidBinding(s) => SpecParseError::InvalidBinding((*s)@),
            ParseError::InvalidIdentifier(x, c) => SpecParseError::InvalidIdentifier(x@, view_sexps(c@)),
            ParseError::ReservedIdentifierUsed(x, c) => SpecParseError::ReservedIdentifierUsed(x@, view_sexps(c@)),
            ParseError::NoLetBindings => SpecParseError::NoLetBindings,
            ParseError::DuplicateIdentifier(x) => SpecParseError::DuplicateIdentifier(x@),
            ParseError::OverflowNumber(a) => SpecParseError::OverflowNumber((*a)@),
            ParseError::UnderflowNumber(a) => SpecParseError::UnderflowNumber((*a)@),
        }
    }
}

/// The assembly name of a register.
pub open spec fn reg_text(r: Reg) -> Seq<char> {
    match r {
        Reg::Rax => "rax"@,
        Reg::R10 => "r10"@,
        Reg::R11 => "r11"@,
        Reg::Rsp => "rsp"@,
        Reg::Rdi => "rdi"@,
        Reg::Rsi => "rsi"@,
    }
}

/// The assembly text of an operand.
pub open spec fn val_text(v: Val) -> Seq<char> {
    match v {
        Val::Reg(r) => reg_text(r),
        Val::Imm(n) => int_decimal(n as int),
        Val::RegOffset(r, n) => "["@ + reg_text(r) + " - "@ + int_decimal(n as int) + "]"@,
    }
}

pub open spec fn two_operands(mnemonic: Seq<char>, a: Val, b: Val) -> Seq<char> {
    mnemonic + " "@ + val_text(a) + ", "@ + val_text(b)
}

pub open spec fn shift_text(mnemonic: Seq<char>, a: Val, n: i32) -> Seq<char> {
    mnemonic + " "@ + val_text(a) + ", "@ + int_decimal(n as int)
}

pub open spec fn jump_text(mnemonic: Seq<char>, target: Seq<char>) -> Seq<char> {
    mnemonic + " "@ + target
}

/// The assembly text of an instruction.
pub open spec fn instr_text(i: SpecInstr) -> Seq<char> {
    match i {
        SpecInstr::IAdd(a, b) => two_operands("add"@, a, b),
        SpecInstr::ISub(a, b) => two_operands("sub"@, a, b),
        SpecInstr::IMul(a, b) => two_operands("imul"@, a, b),
        SpecInstr::IMov(a, b) => two_operands("mov"@, a, b),
        SpecInstr::Jump(l) => jump_text("jmp"@, l),
        SpecInstr::JumpEqual(l) => jump_text("je"@, l),
        SpecInstr::JumpNotEqual(l) => jump_text("jne"@, l),
        SpecInstr::JumpLess(l) => jump_text("jl"@, l),
        SpecInstr::JumpLessEqual(l) => jump_text("jle"@, l),
        SpecInstr::JumpGreater(l) => jump_text("jg"@, l),
        SpecInstr::JumpGreaterEqual(l) => jump_text("jge"@, l),
        SpecInstr::Compare(a, b) => two_operands("cmp"@, a, b),
        SpecInstr::Test(a, b) => two_operands("test"@, a, b),
        SpecInstr::Label(l) => l + ":"@,
        SpecInstr::ShiftLeft(a, n) => shift_text("shl"@, a, n),
        SpecInstr::ShiftSignRight(a, n) => shift_text("sar"@, a, n),
        SpecInstr::ShiftRight(a, n) => shift_text("shr"@, a, n),
        SpecInstr::BitwiseAnd(a, b) => two_operands("and"@, a, b),
        SpecInstr::Call(f) => jump_text("call"@, f),
        SpecInstr::Push(a) => "push "@ + val_text(a),
        SpecInstr::Pop(r) => "pop "@ + reg_text(r),
        SpecInstr::BitwiseXor(a, b) => two_operands("xor"@, a, b),
        SpecInstr::JumpOverflow(l) => jump_text("jo"@, l),
        SpecInstr::JumpNoOverflow(l) => jump_text("jno"@, l),
    }
}

impl Reg {
    /// The assembly name of the register.
    pub fn name(&self) -> (r: &'static str)
        ensures
            r@ == reg_text(*self),
    {
        match self {
            Reg::Rax => "rax",
            Reg::R10 => "r10",
            Reg::R11 => "r11",
            Reg::Rsp => "rsp",
            Reg::Rdi => "rdi",
            Reg::Rsi => "rsi",
        }
    }
}

impl Val {
    /// Appends the assembly text of the operand to `out`.
    pub fn write_to(&self, out: &mut String)
        ensures
            final(out)@ == old(out)@ + val_text(*self),
    {
        match self {
            Val::Reg(r) => out.append(r.name()),
            Val::Imm(n) => push_i64_decimal(out, *n),
            Val::RegOffset(r, n) => {
                out.append("[");
                out.append(r.name());
                out.append(" - ");
                push_i64_decimal(out, *n as i64);
                out.append("]");
                assert(final(out)@ =~= old(out)@ + val_text(*self));
            },
        }
    }

    /// The assembly text of the operand.
    pub fn to_asm(&self) -> (r: String)
        ensures
            r@ == val_text(*self),
    {
        let mut s = String::new();
        self.write_to(&mut s);
        assert(s@ =~= val_text(*self));
        s
    }
}

fn write_two(out: &mut String, mnemonic: &str, a: &Val, b: &Val)
    ensures
        final(out)@ == old(out)@ + two_operands(mnemonic@, *a, *b),
{
    out.append(mnemonic);
    out.append(" ");
    a.write_to(out);
    out.append(", ");
    b.write_to(out);
    assert(final(out)@ =~= old(out)@ + two_operands(mnemonic@, *a, *b));
}

fn write_shift(out: &mut String, mnemonic: &str, a: &Val, n: i32)
    ensures
        final(out)@ == old(out)@ + shift_text(mnemonic@, *a, n),
{
    out.append(mnemonic);
    out.append(" ");
    a.write_to(out);
    out.append(", ");
    push_i64_decimal(out, n as i64);
    assert(final(out)@ =~= old(out)@ + shift_text(mnemonic@, *a, n));
}

fn write_jump(out: &mut String, mnemonic: &str, target: &String)
    ensures
        final(out)@ == old(out)@ + jump_text(mnemonic@, target@),
{
    out.append(mnemonic);
    out.append(" ");
    out.append(target.as_str());
    assert(final(out)@ =~= old(out)@ + jump_text(mnemonic@, target@));
}

impl Instr {
    /// Appends the assembly text of the instruction to `out`.
    pub fn write_to(&self, out: &mut String)
        ensures
            final(out)@ == old(out)@ + instr_text(self@),
    {
        match self {
            Instr::IAdd(a, b) => write_two(out, "add", a, b),
            Instr::ISub(a, b) => write_two(out, "sub", a, b),
            Instr::IMul(a, b) => write_two(out, "imul", a, b),
            Instr::IMov(a, b) => write_two(out, "mov", a, b),
            Instr::Jump(l) => write_jump(out, "jmp", l),
            Instr::JumpEqual(l) => write_jump(out, "je", l),
            Instr::JumpNotEqual(l) => write_jump(out, "jne", l),
            Instr::JumpLess(l) => write_jump(out, "jl", l),
            Instr::JumpLessEqual(l) => write_jump(out, "jle", l),
            Instr::JumpGreater(l) => write_jump(out, "jg", l),
            Instr::JumpGreaterEqual(l) => write_jump(out, "jge", l),
            Instr::Compare(a, b) => write_two(out, "cmp", a, b),
            Instr::Test(a, b) => write_two(out, "test", a, b),
            Instr::Label(l) => {
                out.append(l.as_str());
                out.append(":");
                assert(final(out)@ =~= old(out)@ + instr_text(self@));
            },
            Instr::ShiftLeft(a, n) => write_shift(out, "shl", a, *n),
            Instr::ShiftSignRight(a, n) => write_shift(out, "sar", a, *n),
            Instr::ShiftRight(a, n) => write_shift(out, "shr", a, *n),
            Instr::BitwiseAnd(a, b) => write_two(out, "and", a, b),
            Instr::Call(f) => write_jump(out, "call", f),
            Instr::Push(a) => {
                out.append("push ");
                a.write_to(out);
                assert(final(out)@ =~= old(out)@ + instr_text(self@));
            },
            Instr::Pop(r) => {
                out.append("pop ");
                out.append(r.name());
                assert(final(out)@ =~= old(out)@ + instr_text(self@));
            },
            Instr::BitwiseXor(a, b) => write_two(out, "xor", a, b),
            Instr::JumpOverflow(l) => write_jump(out, "jo", l),
            Instr::JumpNoOverflow(l) => write_jump(out, "jno", l),
        }
    }

    /// The assembly text of the instruction.
    pub fn to_asm(&self) -> (r: String)
        ensures
            r@ == instr_text(self@),
    {
        let mut s = String::new();
        self.write_to(&mut s);
        assert(s@ =~= instr_text(self@));
        s
    }
}

} // verus!
