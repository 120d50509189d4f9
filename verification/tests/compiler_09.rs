use snek::compiler_09::{check_compile, check_expr, compile, compile_to_instrs, parse_expr, Expr};
use snek::sexpr::{SAtom, SExpr};
use snek::compiler_09::{compile_program, new_label, CompileError, ParseError, ProgramError};

fn expected(main: &str) -> String {
    format!(
        "\nsection .text\nextern snek_error\nglobal our_code_starts_here\nthrow_error:\nmov rdi, 7\npush rsp\ncall snek_error\noverflow:\nmov rdi, 5\npush rsp\ncall snek_error\nour_code_starts_here:\n{}\nret\n",
        main
    )
}

#[test]
fn c09_new_label() {
    let mut l = 4;
    assert_eq!(new_label(&mut l, "ifend"), "ifend_4");
    assert_eq!(l, 5);
}

#[test]
fn c09_atoms() {
    assert_eq!(compile_program("7").unwrap(), expected("mov rax, 14\n"));
    assert_eq!(compile_program("true").unwrap(), expected("mov rax, 3\n"));
    assert_eq!(compile_program("input").unwrap(), expected("mov rax, rdi\n"));
}

#[test]
fn c09_if_labels() {
    assert_eq!(
        compile_program("(if true 1 2)").unwrap(),
        expected("mov rax, 3\ncmp rax, 1\nje ifelse_1\nmov rax, 2\njmp ifend_0\nifelse_1:\nmov rax, 4\nifend_0:\n")
    );
}

#[test]
fn c09_let_offsets() {
    assert_eq!(
        compile_program("(let ((x 1)) x)").unwrap(),
        expected("mov rax, 2\nmov [rsp - 16], rax\nmov rax, [rsp - 16]\n")
    );
}

#[test]
fn c09_minus() {
    assert_eq!(
        compile_program("(- 5 2)").unwrap(),
        expected("mov rax, 10\nmov [rsp - 16], rax\nmov rax, 4\nmov rbx, rax\nxor rbx, 0\ntest rbx, 1\njne throw_error\nmov rbx, [rsp - 16]\nxor rbx, 0\ntest rbx, 1\njne throw_error\nsub [rsp - 16], rax\nmov rax, [rsp - 16]\njo overflow\n")
    );
}

#[test]
fn c09_errors() {
    assert!(matches!(compile_program("x"), Err(ProgramError::Compile(CompileError::UnboundVariable(ref s))) if s == "x"));
    assert!(matches!(compile_program("(break 1)"), Err(ProgramError::Compile(CompileError::BreakOutsideLoop))));
    assert!(matches!(compile_program("(loop (break (break 1)))"), Err(ProgramError::Compile(CompileError::BreakOutsideLoop))));
    assert!(matches!(compile_program("(let ((x 1) (x 2)) x)"), Err(ProgramError::Compile(CompileError::DuplicateBinding))));
    assert!(matches!(compile_program("loop"), Err(ProgramError::Parse(ParseError::Keyword))));
    assert!(matches!(compile_program("(let ((input 1)) 1)"), Err(ProgramError::Parse(ParseError::Keyword))));
    assert!(matches!(compile_program("(block)"), Err(ProgramError::Parse(ParseError::EmptyBlock))));
    assert!(matches!(compile_program("(let () 1)"), Err(ProgramError::Parse(ParseError::EmptyBindings))));
    assert!(matches!(compile_program("4611686018427387904"), Err(ProgramError::Parse(ParseError::Overflow))));
    assert!(matches!(compile_program("(foo 1 2)"), Err(ProgramError::Parse(ParseError::Invalid))));
    assert!(matches!(compile_program("(1"), Err(ProgramError::Parse(ParseError::InvalidSexp))));
}

#[test]
fn compiler_09_error_messages() {
    assert_eq!(ParseError::EmptyBindings.message(), "Invalid! Empty bindings");
    assert_eq!(ParseError::InvalidSexp.message(), "Invalid!");
    assert_eq!(CompileError::BreakOutsideLoop.message(), "Using break outside of loop!");
    assert_eq!(ProgramError::Parse(ParseError::Keyword).message(), "keyword");
    match compile_program("(break 1)") {
        Err(e) => assert_eq!(e.message(), "Using break outside of loop!"),
        Ok(_) => panic!("a break outside a loop compiled"),
    }
}

#[test]
fn compiler_09_checks_before_parsing_and_compiling() {
    let word = |w: &str| SExpr::Atom(SAtom::S(w.to_string()));
    assert_eq!(check_expr(&word("loop")), Err(ParseError::Keyword));
    assert_eq!(check_expr(&SExpr::Atom(SAtom::I(1 << 62))), Err(ParseError::Overflow));
    assert_eq!(check_expr(&word("x")), Ok(()));
    assert!(matches!(parse_expr(&word("true")), Expr::Boolean(true)));
    let env = im::HashMap::new();
    let no_loop = String::new();
    let brk = Expr::Break(Box::new(Expr::Number(1)));
    assert!(matches!(check_compile(&brk, 2, &env, 0, &no_loop), Err(CompileError::BreakOutsideLoop)));
    let unbound = Expr::Id("y".to_string());
    assert!(matches!(check_compile(&unbound, 2, &env, 0, &no_loop), Err(CompileError::UnboundVariable(y)) if y == "y"));
    let seven = Expr::Number(7);
    assert_eq!(check_compile(&seven, 2, &env, 0, &no_loop).is_ok(), true);
    let mut l: i32 = 0;
    assert_eq!(compile_to_instrs(&seven, 2, &env, &mut l, &no_loop).len(), 1);
    assert_eq!(compile(&seven), "mov rax, 14\n");
}
