use snek::boa::{check_bind, check_compile, check_expr, compile_to_instrs, parse_bind, parse_expr, Expr};
use snek::sexpr::{SAtom, SExpr};
use snek::boa::{compile_program, CompileError, ParseError, ProgramError};

fn expected(main: &str) -> String {
    format!("\nsection .text\nglobal our_code_starts_here\nour_code_starts_here:\n  {}\n  ret\n", main)
}

#[test]
fn boa_number_and_add1() {
    assert_eq!(compile_program("73").unwrap(), expected("\nmov rax, 73"));
    assert_eq!(compile_program("(add1 72)").unwrap(), expected("\nmov rax, 72\nadd rax, 1"));
    assert_eq!(compile_program("(sub1 -3)").unwrap(), expected("\nmov rax, -3\nsub rax, 1"));
}

#[test]
fn boa_binop_order() {
    assert_eq!(
        compile_program("(- 10 3)").unwrap(),
        expected("\nmov rax, 3\nmov [rsp-16], rax\nmov rax, 10\nsub rax, [rsp-16]")
    );
}

#[test]
fn boa_let_binding() {
    assert_eq!(
        compile_program("(let ((x 5)) x)").unwrap(),
        expected("\nmov rax, 5\nmov [rsp-16], rax\nmov rax, [rsp-16]")
    );
}

#[test]
fn boa_errors() {
    assert!(matches!(compile_program("x"), Err(ProgramError::Compile(CompileError::UnboundVariable(ref s))) if s == "x"));
    assert!(matches!(compile_program("(let ((x 1) (x 2)) x)"), Err(ProgramError::Compile(CompileError::DuplicateBinding))));
    assert!(matches!(compile_program("(let ((add1 1)) 2)"), Err(ProgramError::Compile(CompileError::InvalidIdentifier))));
    assert!(matches!(compile_program("2147483648"), Err(ProgramError::Parse(ParseError::NumberOutOfRange))));
    assert!(matches!(compile_program("(let () 1)"), Err(ProgramError::Parse(ParseError::NoBindingLet))));
    assert!(matches!(compile_program("(let (x) 1)"), Err(ProgramError::Parse(ParseError::InvalidBind))));
    assert!(matches!(compile_program("(foo 1)"), Err(ProgramError::Parse(ParseError::InvalidSexp))));
    assert!(matches!(compile_program("(add1"), Err(ProgramError::Parse(ParseError::InvalidSexp))));
}

#[test]
fn boa_error_messages() {
    assert_eq!(ParseError::InvalidBind.message(), "Invalid bind");
    assert_eq!(CompileError::InvalidIdentifier.message(), "Invalid identifier");
    assert_eq!(ProgramError::Compile(CompileError::DuplicateBinding).message(), "Duplicate binding");
    match compile_program("x") {
        Err(e) => assert_eq!(e.message(), "Unbound variable identifier x"),
        Ok(_) => panic!("an unbound name compiled"),
    }
}

#[test]
fn boa_checks_before_parsing_and_compiling() {
    let word = |w: &str| SExpr::Atom(SAtom::S(w.to_string()));
    let add1 = SExpr::List(vec![word("add1"), SExpr::Atom(SAtom::I(4))]);
    assert_eq!(check_expr(&add1), Ok(()));
    assert!(matches!(parse_expr(&add1), Expr::UnOp(_, a) if matches!(*a, Expr::Number(4))));
    let empty_let = SExpr::List(vec![word("let"), SExpr::List(vec![]), SExpr::Atom(SAtom::I(1))]);
    assert_eq!(check_expr(&empty_let), Err(ParseError::NoBindingLet));
    assert_eq!(check_expr(&SExpr::Atom(SAtom::I(1 << 40))), Err(ParseError::NumberOutOfRange));
    let bind = SExpr::List(vec![word("x"), SExpr::Atom(SAtom::I(3))]);
    assert_eq!(check_bind(&bind), Ok(()));
    let (name, value) = parse_bind(&bind);
    assert_eq!(name, "x");
    assert!(matches!(value, Expr::Number(3)));
    assert_eq!(check_bind(&word("x")), Err(ParseError::InvalidBind));
    let env = im::HashMap::new();
    let unbound = Expr::Id("x".to_string());
    assert!(matches!(check_compile(&unbound, 2, &env), Err(CompileError::UnboundVariable(x)) if x == "x"));
    let five = Expr::Number(5);
    assert_eq!(check_compile(&five, 2, &env).is_ok(), true);
    assert_eq!(compile_to_instrs(&five, 2, &env).len(), 1);
}
