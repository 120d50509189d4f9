//! The abstract syntax of the language: expressions, function definitions,
//! and the errors of parsing and of compiling them.
use vstd::prelude::*;

verus! {

broadcast use vstd::std_specs::vec::axiom_vec_decreases_to_view;

/// A unary operator.
#[derive(Debug, Clone, Copy, PartialEq, Eq)]
pub enum Op1 {
    Add1,
    Sub1,
    IsNum,
    IsBool,
    Print,
}

/// A binary operator.
#[derive(Debug, Clone, Copy, PartialEq, Eq)]
pub enum Op2 {
    Plus,
    Minus,
    Times,
    Equal,
    StructuralEqual,
    Greater,
    GreaterEqual,
    Less,
    LessEqual,
}

/// An expression. `Assign` is `set!` on a variable, `SetTuple` is
/// `settuple!` on an element of the tuple that a variable holds.
#[derive(Debug)]
pub enum Expr {
    Number(i64),
    Boolean(bool),
    Id(String),
    Let(Vec<(String, Expr)>, Box<Expr>),
    UnOp(Op1, Box<Expr>),
    BinOp(Op2, Box<Expr>, Box<Expr>),
    If(Box<Expr>, Box<Expr>, Box<Expr>),
    Loop(Box<Expr>),
    Break(Box<Expr>),
    Assign(String, Box<Expr>),
    Index(Box<Expr>, Box<Expr>),
    Block(Vec<Expr>),
    Tuple(Vec<Expr>),
    Call(String, Vec<Expr>),
    SetTuple(String, Box<Expr>, Box<Expr>),
}

/// The mathematical model of an [`Expr`].
pub enum SpecExpr {
    Number(i64),
    Boolean(bool),
    Id(Seq<char>),
    Let(Seq<(Seq<char>, SpecExpr)>, Box<SpecExpr>),
    UnOp(Op1, Box<SpecExpr>),
    BinOp(Op2, Box<SpecExpr>, Box<SpecExpr>),
    If(Box<SpecExpr>, Box<SpecExpr>, Box<SpecExpr>),
    Loop(Box<SpecExpr>),
    Break(Box<SpecExpr>),
    Assign(Seq<char>, Box<SpecExpr>),
    Index(Box<SpecExpr>, Box<SpecExpr>),
    Block(Seq<SpecExpr>),
    Tuple(Seq<SpecExpr>),
    Call(Seq<char>, Seq<SpecExpr>),
    SetTuple(Seq<char>, Box<SpecExpr>, Box<SpecExpr>),
}

pub open spec fn view_exprs(s: Seq<Expr>) -> Seq<SpecExpr>
    decreases s, 0int,
{
    if s.len() == 0 {
        Seq::empty()
    } else {
        view_exprs(s.drop_last()).push(view_expr(s.last()))
    }
}

pub open spec fn view_binds(s: Seq<(String, Expr)>) -> Seq<(Seq<char>, SpecExpr)>
    decreases s, 0int,
{
    if s.len() == 0 {
        Seq::empty()
    } else {
        view_binds(s.drop_last()).push((s.last().0@, view_expr(s.last().1)))
    }
}

pub open spec fn view_expr(e: Expr) -> SpecExpr
    decreases e, 1int,
{
    match e {
        Expr::Number(n) => SpecExpr::Number(n),
        Expr::Boolean(b) => SpecExpr::Boolean(b),
        Expr::Id(x) => SpecExpr::Id(x@),
        Expr::Let(bs, body) => SpecExpr::Let(view_binds(bs@), Box::new(view_expr(*body))),
        Expr::UnOp(op, a) => SpecExpr::UnOp(op, Box::new(view_expr(*a))),
        Expr::BinOp(op, a, b) => SpecExpr::BinOp(op, Box::new(view_expr(*a)), Box::new(view_expr(*b))),
        Expr::If(c, t, f) => SpecExpr::If(
            Box::new(view_expr(*c)),
            Box::new(view_expr(*t)),
            Box::new(view_expr(*f)),
        ),
        Expr::Loop(a) => SpecExpr::Loop(Box::new(view_expr(*a))),
        Expr::Break(a) => SpecExpr::Break(Box::new(view_expr(*a))),
        Expr::Assign(x, a) => SpecExpr::Assign(x@, Box::new(view_expr(*a))),
        Expr::Index(a, b) => SpecExpr::Index(Box::new(view_expr(*a)), Box::new(view_expr(*b))),
        Expr::Block(es) => SpecExpr::Block(view_exprs(es@)),
        Expr::Tuple(es) => SpecExpr::Tuple(view_exprs(es@)),
        Expr::Call(f, es) => SpecExpr::Call(f@, view_exprs(es@)),
        Expr::SetTuple(x, a, b) => SpecExpr::SetTuple(x@, Box::new(view_expr(*a)), Box::new(view_expr(*b))),
    }
}

impl View for Expr {
    type V = SpecExpr;

    open spec fn view(&self) -> SpecExpr {
        view_expr(*self)
    }
}

/// The model of a list has one element per element.
pub broadcast proof fn lemma_view_exprs(s: Seq<Expr>)
    ensures
        #[trigger] view_exprs(s).len() == s.len(),
    decreases s.len(),
{
    if s.len() > 0 {
        lemma_view_exprs(s.drop_last());
    }
}

/// Each element of the model of a list is the model of the element.
pub broadcast proof fn lemma_view_exprs_index(s: Seq<Expr>, i: int)
    requires
        0 <= i < s.len(),
    ensures
        #[trigger] view_exprs(s)[i] == view_expr(s[i]),
    decreases s.len(),
{
    lemma_view_exprs(s);
    if i < s.len() - 1 {
        lemma_view_exprs_index(s.drop_last(), i);
        assert(s.drop_last()[i] == s[i]);
    }
}

/// The model of a list has one element per element.
pub broadcast proof fn lemma_view_binds(s: Seq<(String, Expr)>)
    ensures
        #[trigger] view_binds(s).len() == s.len(),
    decreases s.len(),
{
    if s.len() > 0 {
        lemma_view_binds(s.drop_last());
    }
}

/// Each element of the model of a list is the model of the element.
pub broadcast proof fn lemma_view_binds_index(s: Seq<(String, Expr)>, i: int)
    requires
        0 <= i < s.len(),
    ensures
        #[trigger] view_binds(s)[i] == (s[i].0@, view_expr(s[i].1)),
    decreases s.len(),
{
    lemma_view_binds(s);
    if i < s.len() - 1 {
        lemma_view_binds_index(s.drop_last(), i);
        assert(s.drop_last()[i] == s[i]);
    }
}

/// A function definition: its name, its parameters, and its body.
#[derive(Debug)]
pub struct Defn {
    pub fun: String,
    pub funargs: Vec<String>,
    pub body: Expr,
}

/// The mathematical model of a [`Defn`].
pub struct SpecDefn {
    pub fun: Seq<char>,
    pub funargs: Seq<Seq<char>>,
    pub body: SpecExpr,
}

pub open spec fn view_names(s: Seq<String>) -> Seq<Seq<char>> {
    s.map_values(|x: String| x@)
}

impl View for Defn {
    type V = SpecDefn;

    open spec fn view(&self) -> SpecDefn {
        SpecDefn { fun: self.fun@, funargs: view_names(self.funargs@), body: self.body@ }
    }
}

/// Why a text is not a program; each stops the compiler with the message
/// that [`ParseError::message`] gives.
#[derive(Debug, Clone, Copy, PartialEq, Eq)]
pub enum ParseError {
    /// A number outside the 63-bit range.
    InvalidOverflow,
    /// A `let` without bindings.
    NoBindingLet,
    /// A `block` without expressions.
    EmptyBlock,
    /// A `tuple` without elements.
    EmptyTuple,
    /// A list that is no form of the language.
    InvalidList,
    /// An atom that is neither a number nor a name.
    InvalidAtom,
    /// A binding that is not a name and an expression.
    InvalidBind,
    /// A `fun` whose signature is empty.
    FunctionWithoutName,
    /// A `fun` whose name is not a name.
    InvalidFunctionName,
    /// A parameter that occurs twice.
    DuplicateParameter,
    /// A parameter that is a keyword.
    ParameterIsKeyword,
    /// A parameter that is not a name.
    InvalidParameter,
    /// A list that is not `(fun (name params...) body)`.
    InvalidDefinition,
    /// An atom where a definition should be.
    DefinitionNotList,
    /// Text that is not an s-expression.
    InvalidSexp,
    /// Two definitions of one name.
    DuplicateFunction,
}

/// Why a program does not compile.
#[derive(Debug)]
pub enum CompileError {
    /// `input` in the body of a function.
    InputInFunction,
    /// A name that no `let` or parameter binds.
    UnboundVariable(String),
    /// A `let` that binds one name twice.
    DuplicateBinding,
    /// A `let` that binds a keyword.
    KeywordBinding,
    /// A `break` outside any loop.
    BreakOutsideLoop,
    /// A call with another number of arguments than the function has
    /// parameters.
    WrongArity,
    /// A call of a function that is not defined.
    UnknownFunction,
}

/// The mathematical model of a [`CompileError`].
pub enum SpecCompileError {
    InputInFunction,
    UnboundVariable(Seq<char>),
    DuplicateBinding,
    KeywordBinding,
    BreakOutsideLoop,
    WrongArity,
    UnknownFunction,
}

impl View for CompileError {
    type V = SpecCompileError;

    open spec fn view(&self) -> SpecCompileError {
        match self {
            CompileError::InputInFunction => SpecCompileError::InputInFunction,
            CompileError::UnboundVariable(x) => SpecCompileError::UnboundVariable(x@),
            CompileError::DuplicateBinding => SpecCompileError::DuplicateBinding,
            CompileError::KeywordBinding => SpecCompileError::KeywordBinding,
            CompileError::BreakOutsideLoop => SpecCompileError::BreakOutsideLoop,
            CompileError::WrongArity => SpecCompileError::WrongArity,
            CompileError::UnknownFunction => SpecCompileError::UnknownFunction,
        }
    }
}

/// The message with which the compiler stops on a parse error.
pub open spec fn parse_error_text(e: ParseError) -> Seq<char> {
    match e {
        ParseError::InvalidOverflow => "Invalid overflow"@,
        ParseError::NoBindingLet => "Invalid no-binding let sexp"@,
        ParseError::EmptyBlock => "Invalid empty block"@,
        ParseError::EmptyTuple => "Invalid empty tuple"@,
        ParseError::InvalidList => "Invalid sexp2"@,
        ParseError::InvalidAtom => "Invalid sexp"@,
        ParseError::InvalidBind => "Invalid bind"@,
        ParseError::FunctionWithoutName => "Invalid function without name"@,
        ParseError::InvalidFunctionName => "Invalid func name"@,
        ParseError::DuplicateParameter => "A function's parameter list has a duplicate name"@,
        ParseError::ParameterIsKeyword => "function_arg_is_keyword"@,
        ParseError::InvalidParameter => "Invalid func args"@,
        ParseError::InvalidDefinition => "Invalid func"@,
        ParseError::DefinitionNotList => "Invalid function"@,
        ParseError::InvalidSexp => "Invalid sexp"@,
        ParseError::DuplicateFunction => "Multiple functions are defined with the same name"@,
    }
}

impl ParseError {
    /// The message with which the compiler stops on this error.
    pub fn message(&self) -> (r: String)
        ensures
            r@ == parse_error_text(*self),
    {
        let mut s = String::new();
        match self {
            ParseError::InvalidOverflow => s.append("Invalid overflow"),
            ParseError::NoBindingLet => s.append("Invalid no-binding let sexp"),
            ParseError::EmptyBlock => s.append("Invalid empty block"),
            ParseError::EmptyTuple => s.append("Invalid empty tuple"),
            ParseError::InvalidList => s.append("Invalid sexp2"),
            ParseError::InvalidAtom => s.append("Invalid sexp"),
            ParseError::InvalidBind => s.append("Invalid bind"),
            ParseError::FunctionWithoutName => s.append("Invalid function without name"),
            ParseError::InvalidFunctionName => s.append("Invalid func name"),
            ParseError::DuplicateParameter => s.append("A function's parameter list has a duplicate name"),
            ParseError::ParameterIsKeyword => s.append("function_arg_is_keyword"),
            ParseError::InvalidParameter => s.append("Invalid func args"),
            ParseError::InvalidDefinition => s.append("Invalid func"),
            ParseError::DefinitionNotList => s.append("Invalid function"),
            ParseError::InvalidSexp => s.append("Invalid sexp"),
            ParseError::DuplicateFunction => s.append("Multiple functions are defined with the same name"),
        }
        proof {
            assert(s@ =~= parse_error_text(*self));
        }
        s
    }
}

/// The message with which the compiler stops on a compile error.
pub open spec fn compile_error_text(e: SpecCompileError) -> Seq<char> {
    match e {
        SpecCompileError::InputInFunction => "input is used in a function definition"@,
        SpecCompileError::UnboundVariable(x) => "Unbound variable identifier "@ + x,
        SpecCompileError::DuplicateBinding => "Duplicate binding"@,
        SpecCompileError::KeywordBinding => "Invalid keyword binding"@,
        SpecCompileError::BreakOutsideLoop => "break outside loop"@,
        SpecCompileError::WrongArity => "There is a call to a function with the wrong number of arguments"@,
        SpecCompileError::UnknownFunction => "There is a call to a function name that doesn't exist"@,
    }
}

impl CompileError {
    /// The message with which the compiler stops on this error.
    pub fn message(&self) -> (r: String)
        ensures
            r@ == compile_error_text(self@),
    {
        let mut s = String::new();
        match self {
            CompileError::InputInFunction => s.append("input is used in a function definition"),
            CompileError::UnboundVariable(x) => {
                s.append("Unbound variable identifier ");
                s.append(x.as_str());
            },
            CompileError::DuplicateBinding => s.append("Duplicate binding"),
            CompileError::KeywordBinding => s.append("Invalid keyword binding"),
            CompileError::BreakOutsideLoop => s.append("break outside loop"),
            CompileError::WrongArity => s.append("There is a call to a function with the wrong number of arguments"),
            CompileError::UnknownFunction => s.append("There is a call to a function name that doesn't exist"),
        }
        proof {
            assert(s@ =~= compile_error_text(self@));
        }
        s
    }
}

} // verus!
