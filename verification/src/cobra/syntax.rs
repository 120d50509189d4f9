//! The abstract syntax of the language: expressions and the errors of
//! parsing and of compiling them.
use vstd::prelude::*;

verus! {

broadcast use vstd::std_specs::vec::axiom_vec_decreases_to_view;

/// A unary operator.
#[derive(Debug, Clone, Copy, PartialEq, Eq)]
pub enum Op1 {
    Add1,
    Sub1,
    IsNum,
    IsBool,
}

/// A binary operator.
#[derive(Debug, Clone, Copy, PartialEq, Eq)]
pub enum Op2 {
    Plus,
    Minus,
    Times,
    Equal,
    Greater,
    GreaterEqual,
    Less,
    LessEqual,
}

/// An expression. `Assign` is `set!` on a variable.
#[derive(Debug)]
pub enum Expr {
    Number(i64),
    Boolean(bool),
    Id(String),
    Let(Vec<(String, Expr)>, Box<Expr>),
    UnOp(Op1, Box<Expr>),
    BinOp(Op2, Box<Expr>, Box<Expr>),
    If(Box<Expr>, Box<Expr>, Box<Expr>),
    Loop(Box<Expr>),
    Break(Box<Expr>),
    Assign(String, Box<Expr>),
    Block(Vec<Expr>),
}

/// The mathematical model of an [`Expr`].
pub enum SpecExpr {
    Number(i64),
    Boolean(bool),
    Id(Seq<char>),
    Let(Seq<(Seq<char>, SpecExpr)>, Box<SpecExpr>),
    UnOp(Op1, Box<SpecExpr>),
    BinOp(Op2, Box<SpecExpr>, Box<SpecExpr>),
    If(Box<SpecExpr>, Box<SpecExpr>, Box<SpecExpr>),
    Loop(Box<SpecExpr>),
    Break(Box<SpecExpr>),
    Assign(Seq<char>, Box<SpecExpr>),
    Block(Seq<SpecExpr>),
}

pub open spec fn view_exprs(s: Seq<Expr>) -> Seq<SpecExpr>
    decreases s, 0int,
{
    if s.len() == 0 {
        Seq::empty()
    } else {
        view_exprs(s.drop_last()).push(view_expr(s.last()))
    }
}

pub open spec fn view_binds(s: Seq<(String, Expr)>) -> Seq<(Seq<char>, SpecExpr)>
    decreases s, 0int,
{
    if s.len() == 0 {
        Seq::empty()
    } else {
        view_binds(s.drop_last()).push((s.last().0@, view_expr(s.last().1)))
    }
}

pub open spec fn view_expr(e: Expr) -> SpecExpr
    decreases e, 1int,
{
    match e {
        Expr::Number(n) => SpecExpr::Number(n),
        Expr::Boolean(b) => SpecExpr::Boolean(b),
        Expr::Id(x) => SpecExpr::Id(x@),
        Expr::Let(bs, body) => SpecExpr::Let(view_binds(bs@), Box::new(view_expr(*body))),
        Expr::UnOp(op, a) => SpecExpr::UnOp(op, Box::new(view_expr(*a))),
        Expr::BinOp(op, a, b) => SpecExpr::BinOp(op, Box::new(view_expr(*a)), Box::new(view_expr(*b))),
        Expr::If(c, t, f) => SpecExpr::If(
            Box::new(view_expr(*c)),
            Box::new(view_expr(*t)),
            Box::new(view_expr(*f)),
        ),
        Expr::Loop(a) => SpecExpr::Loop(Box::new(view_expr(*a))),
        Expr::Break(a) => SpecExpr::Break(Box::new(view_expr(*a))),
        Expr::Assign(x, a) => SpecExpr::Assign(x@, Box::new(view_expr(*a))),
        Expr::Block(es) => SpecExpr::Block(view_exprs(es@)),
    }
}

impl View for Expr {
    type V = SpecExpr;

    open spec fn view(&self) -> SpecExpr {
        view_expr(*self)
    }
}

/// The model of a list has one element per element.
pub broadcast proof fn lemma_view_exprs(s: Seq<Expr>)
    ensures
        #[trigger] view_exprs(s).len() == s.len(),
    decreases s.len(),
{
    if s.len() > 0 {
        lemma_view_exprs(s.drop_last());
    }
}

/// Each element of the model of a list is the model of the element.
pub broadcast proof fn lemma_view_exprs_index(s: Seq<Expr>, i: int)
    requires
        0 <= i < s.len(),
    ensures
        #[trigger] view_exprs(s)[i] == view_expr(s[i]),
    decreases s.len(),
{
    lemma_view_exprs(s);
    if i < s.len() - 1 {
        lemma_view_exprs_index(s.drop_last(), i);
        assert(s.drop_last()[i] == s[i]);
    }
}

/// The model of a list has one element per element.
pub broadcast proof fn lemma_view_binds(s: Seq<(String, Expr)>)
    ensures
        #[trigger] view_binds(s).len() == s.len(),
    decreases s.len(),
{
    if s.len() > 0 {
        lemma_view_binds(s.drop_last());
    }
}

/// Each element of the model of a list is the model of the element.
pub broadcast proof fn lemma_view_binds_index(s: Seq<(String, Expr)>, i: int)
    requires
        0 <= i < s.len(),
    ensures
        #[trigger] view_binds(s)[i] == (s[i].0@, view_expr(s[i].1)),
    decreases s.len(),
{
    lemma_view_binds(s);
    if i < s.len() - 1 {
        lemma_view_binds_index(s.drop_last(), i);
        assert(s.drop_last()[i] == s[i]);
    }
}

/// Why a text is not a program; each stops the compiler with the message
/// that [`ParseError::message`] gives.
#[derive(Debug)]
pub enum ParseError {
    /// A number outside the 63-bit range.
    InvalidOverflow,
    /// A `block` without expressions.
    EmptyBlock,
    /// A `let` without bindings.
    NoBindingLet,
    /// A list of an unknown operator word and one operand.
    InvalidOp(String),
    /// A list that is no form of the language.
    InvalidList,
    /// An atom that is neither a number nor a name.
    InvalidAtom,
    /// A binding that is not a name and an expression.
    InvalidBind,
    /// Text that is not an s-expression.
    InvalidSexp,
}

/// The mathematical model of a [`ParseError`].
pub enum SpecParseError {
    InvalidOverflow,
    EmptyBlock,
    NoBindingLet,
    InvalidOp(Seq<char>),
    InvalidList,
    InvalidAtom,
    InvalidBind,
    InvalidSexp,
}

impl View for ParseError {
    type V = SpecParseError;

    open spec fn view(&self) -> SpecParseError {
        match self {
            ParseError::InvalidOverflow => SpecParseError::InvalidOverflow,
            ParseError::EmptyBlock => SpecParseError::EmptyBlock,
            ParseError::NoBindingLet => SpecParseError::NoBindingLet,
            ParseError::InvalidOp(op) => SpecParseError::InvalidOp(op@),
            ParseError::InvalidList => SpecParseError::InvalidList,
            ParseError::InvalidAtom => SpecParseError::InvalidAtom,
            ParseError::InvalidBind => SpecParseError::InvalidBind,
            ParseError::InvalidSexp => SpecParseError::InvalidSexp,
        }
    }
}

/// Why a program does not compile.
#[derive(Debug)]
pub enum CompileError {
    /// A name that no `let` or parameter binds.
    UnboundVariable(String),
    /// A `let` that binds one name twice.
    DuplicateBinding,
    /// A `let` that binds a keyword.
    KeywordBinding,
    /// A `break` outside any loop.
    BreakOutsideLoop,
}

/// The mathematical model of a [`CompileError`].
pub enum SpecCompileError {
    UnboundVariable(Seq<char>),
    DuplicateBinding,
    KeywordBinding,
    BreakOutsideLoop,
}

impl View for CompileError {
    type V = SpecCompileError;

    open spec fn view(&self) -> SpecCompileError {
        match self {
            CompileError::UnboundVariable(x) => SpecCompileError::UnboundVariable(x@),
            CompileError::DuplicateBinding => SpecCompileError::DuplicateBinding,
            CompileError::KeywordBinding => SpecCompileError::KeywordBinding,
            CompileError::BreakOutsideLoop => SpecCompileError::BreakOutsideLoop,
        }
    }
}

/// The message with which the compiler stops on a parse error.
pub open spec fn parse_error_text(e: SpecParseError) -> Seq<char> {
    match e {
        SpecParseError::InvalidOverflow => "Invalid overflow"@,
        SpecParseError::EmptyBlock => "Invalid block"@,
        SpecParseError::NoBindingLet => "Invalid no-binding let sexp"@,
        SpecParseError::InvalidOp(x) => "Invalid op"@ + x,
        SpecParseError::InvalidList => "Invalid sexp2"@,
        SpecParseError::InvalidAtom => "Invalid sexp"@,
        SpecParseError::InvalidBind => "Invalid bind"@,
        SpecParseError::InvalidSexp => "Invalid sexp1"@,
    }
}

impl ParseError {
    /// The message with which the compiler stops on this error.
    pub fn message(&self) -> (r: String)
        ensures
            r@ == parse_error_text(self@),
    {
        let mut s = String::new();
        match self {
            ParseError::InvalidOverflow => s.append("Invalid overflow"),
            ParseError::EmptyBlock => s.append("Invalid block"),
            ParseError::NoBindingLet => s.append("Invalid no-binding let sexp"),
            ParseError::InvalidOp(x) => {
                s.append("Invalid op");
                s.append(x.as_str());
            },
            ParseError::InvalidList => s.append("Invalid sexp2"),
            ParseError::InvalidAtom => s.append("Invalid sexp"),
            ParseError::InvalidBind => s.append("Invalid bind"),
            ParseError::InvalidSexp => s.append("Invalid sexp1"),
        }
        proof {
            assert(s@ =~= parse_error_text(self@));
        }
        s
    }
}

/// The message with which the compiler stops on a compile error.
pub open spec fn compile_error_text(e: SpecCompileError) -> Seq<char> {
    match e {
        SpecCompileError::UnboundVariable(x) => "Unbound variable identifier "@ + x,
        SpecCompileError::DuplicateBinding => "Duplicate binding"@,
        SpecCompileError::KeywordBinding => "Invalid keyword binding"@,
        SpecCompileError::BreakOutsideLoop => "break outside loop"@,
    }
}

impl CompileError {
    /// The message with which the compiler stops on this error.
    pub fn message(&self) -> (r: String)
        ensures
            r@ == compile_error_text(self@),
    {
        let mut s = String::new();
        match self {
            CompileError::UnboundVariable(x) => {
                s.append("Unbound variable identifier ");
                s.append(x.as_str());
            },
            CompileError::DuplicateBinding => s.append("Duplicate binding"),
            CompileError::KeywordBinding => s.append("Invalid keyword binding"),
            CompileError::BreakOutsideLoop => s.append("break outside loop"),
        }
        proof {
            assert(s@ =~= compile_error_text(self@));
        }
        s
    }
}

} // verus!
