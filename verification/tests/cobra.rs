use snek::cobra::compiler::check_compile;
use snek::cobra::parser::check_expr;
use snek::cobra::syntax::Expr;
use snek::sexpr::{SAtom, SExpr};
use snek::cobra::program::{compile_program, ProgramError};
use snek::cobra::syntax::{CompileError, ParseError};

fn expected(main: &str) -> String {
    format!(
        "\nsection .text\nextern snek_error\nglobal our_code_starts_here\nour_code_starts_here:\n  \nmov [rsp-16], rdi{}\n  ret\n",
        main
    )
}

#[test]
fn cobra_atoms() {
    assert_eq!(compile_program("5").unwrap(), expected("\nmov rax, 10"));
    assert_eq!(compile_program("true").unwrap(), expected("\nmov rax, 3"));
    assert_eq!(compile_program("false").unwrap(), expected("\nmov rax, 1"));
    assert_eq!(compile_program("input").unwrap(), expected("\nmov rax, [rsp-16]"));
}

#[test]
fn cobra_isbool() {
    assert_eq!(
        compile_program("(isbool 1)").unwrap(),
        expected("\nmov rax, 2\nand rax, 18446744073709551613\ncmp rax, 1\nmov rbx, 3\ncmove rax, rbx\nmov rbx, 1\ncmovne rax, rbx")
    );
}

#[test]
fn cobra_if_and_loop() {
    assert_eq!(
        compile_program("(if false 1 2)").unwrap(),
        expected("\nmov rax, 1\ncmp rax, 1\nje elsestart1\nmov rax, 2\njmp elseend1\nelsestart1:\nmov rax, 4\nelseend1:")
    );
    assert_eq!(
        compile_program("(loop (break 3))").unwrap(),
        expected("\nloopstart1:\nmov rax, 6\njmp loopend1\njmp loopstart1\nloopend1:")
    );
}

#[test]
fn cobra_set_and_block() {
    assert_eq!(
        compile_program("(let ((x 1)) (block (set! x 2) x))").unwrap(),
        expected("\nmov rax, 2\nmov [rsp-24], rax\nmov rax, 4\nmov [rsp-24], rax\nmov rax, [rsp-24]")
    );
}

#[test]
fn cobra_errors() {
    assert!(matches!(compile_program("(foo 1)"), Err(ProgramError::Parse(ParseError::InvalidOp(ref s))) if s == "foo"));
    assert!(matches!(compile_program("(block)"), Err(ProgramError::Parse(ParseError::EmptyBlock))));
    assert!(matches!(compile_program("()"), Err(ProgramError::Parse(ParseError::InvalidList))));
    assert!(matches!(compile_program("(let () 1)"), Err(ProgramError::Parse(ParseError::NoBindingLet))));
    assert!(matches!(compile_program("(+ 1"), Err(ProgramError::Parse(ParseError::InvalidSexp))));
    assert!(matches!(compile_program("y"), Err(ProgramError::Compile(CompileError::UnboundVariable(ref s))) if s == "y"));
    assert!(matches!(compile_program("(set! y 1)"), Err(ProgramError::Compile(CompileError::UnboundVariable(ref s))) if s == "y"));
    assert!(matches!(compile_program("(break 1)"), Err(ProgramError::Compile(CompileError::BreakOutsideLoop))));
    assert!(matches!(compile_program("(let ((if 1)) 1)"), Err(ProgramError::Compile(CompileError::KeywordBinding))));
}

#[test]
fn cobra_error_messages() {
    assert_eq!(ParseError::InvalidOp("foo".to_string()).message(), "Invalid opfoo");
    assert_eq!(ParseError::InvalidSexp.message(), "Invalid sexp1");
    assert_eq!(CompileError::BreakOutsideLoop.message(), "break outside loop");
    assert_eq!(ProgramError::Compile(CompileError::UnboundVariable("y".to_string())).message(), "Unbound variable identifier y");
    match compile_program("(block)") {
        Err(e) => assert_eq!(e.message(), "Invalid block"),
        Ok(_) => panic!("an empty block compiled"),
    }
}

#[test]
fn cobra_checks_before_parsing_and_compiling() {
    let word = |w: &str| SExpr::Atom(SAtom::S(w.to_string()));
    let empty_block = SExpr::List(vec![word("block")]);
    assert!(check_expr(&empty_block).is_err());
    assert_eq!(check_expr(&word("x")).is_ok(), true);
    let env = im::HashMap::new();
    let brk = Expr::Break(Box::new(Expr::Number(1)));
    assert!(matches!(check_compile(&brk, 3, &env, 0, 0, 0), Err(CompileError::BreakOutsideLoop)));
    let bind_keyword = Expr::Let(vec![("loop".to_string(), Expr::Number(1))], Box::new(Expr::Number(2)));
    assert!(matches!(check_compile(&bind_keyword, 3, &env, 0, 0, 0), Err(CompileError::KeywordBinding)));
    assert_eq!(check_compile(&Expr::Number(2), 3, &env, 0, 0, 0).is_ok(), true);
}
