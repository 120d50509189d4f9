use snek::green_snake::program::{check_compile_defn, compile_defn};
use snek::green_snake::syntax::Defn;
use snek::green_snake::parser::{check_defn, parse_defn};
use snek::green_snake::syntax::Expr;
use snek::sexpr::{SAtom, SExpr};
use snek::green_snake::program::{compile_program, split_program, ProgramError};
use snek::green_snake::syntax::{CompileError, ParseError};

fn expected(funs: &str, main: &str) -> String {
    format!(
        "\nsection .text\nextern snek_error\nextern snek_print\nextern snek_structural_equal\nglobal our_code_starts_here\n{}\nour_code_starts_here:\n  {}\n  ret\n",
        funs, main
    )
}

const PROLOGUE: &str = "\nmov [rsp-16], rdi\nmov r15, rsi";

#[test]
fn green_number() {
    let out = compile_program("5").unwrap();
    assert_eq!(out, expected("", &format!("{}\nmov rax, 10", PROLOGUE)));
}

#[test]
fn green_negative_number_wraps_to_unsigned() {
    let out = compile_program("-1").unwrap();
    assert_eq!(out, expected("", &format!("{}\nmov rax, 18446744073709551614", PROLOGUE)));
}

#[test]
fn green_booleans_and_input() {
    assert_eq!(compile_program("true").unwrap(), expected("", &format!("{}\nmov rax, 7", PROLOGUE)));
    assert_eq!(compile_program("false").unwrap(), expected("", &format!("{}\nmov rax, 3", PROLOGUE)));
    assert_eq!(compile_program("input").unwrap(), expected("", &format!("{}\nmov rax, [rsp-16]", PROLOGUE)));
}

#[test]
fn green_add1() {
    let main = format!(
        "{}\nmov rax, 4\nmov [rsp-32], rax\nand rax, 1\ncmp rax, 0\nmov rdi, 0\njne snek_error\nmov rax, [rsp-32]\nadd rax, 2\nmov rdi, 1\njo snek_error",
        PROLOGUE
    );
    assert_eq!(compile_program("(add1 2)").unwrap(), expected("", &main));
}

#[test]
fn green_let_and_plus() {
    let main = format!(
        "{}\nmov rax, 2\nmov [rsp-24], rax\nmov rax, 4\nmov [rsp-32], rax\nmov rax, [rsp-24]\nmov [rsp-40], rax\nor rax, [rsp-32]\nand rax, 1\ncmp rax, 1\nmov rdi, 0\nje snek_error\nmov rax, [rsp-40]\nadd rax, [rsp-32]\nmov rdi, 1\njo snek_error",
        PROLOGUE
    );
    assert_eq!(compile_program("(let ((x 1)) (+ x 2))").unwrap(), expected("", &main));
}

#[test]
fn green_if_labels() {
    let main = format!(
        "{}\nmov rax, 7\ncmp rax, 3\nje elsestart1\nmov rax, 2\njmp elseend1\nelsestart1:\nmov rax, 4\nelseend1:",
        PROLOGUE
    );
    assert_eq!(compile_program("(if true 1 2)").unwrap(), expected("", &main));
}

#[test]
fn green_loop_break() {
    let main = format!(
        "{}\nloopstart1:\nmov rax, 2\njmp loopend1\njmp loopstart1\nloopend1:",
        PROLOGUE
    );
    assert_eq!(compile_program("(loop (break 1))").unwrap(), expected("", &main));
}

#[test]
fn green_function_and_call() {
    let text = "(fun (id x) x)\n(id 5)";
    let funs = "\nid:\nmov rax, [rsp+8]\nret";
    let main = format!(
        "{}\nmov rax, 10\nmov [rsp-24], rax\nsub rsp, 40\nmov rbx, [rsp+16]\nmov [rsp+0], rbx\nmov [rsp+16], rdi\ncall id\nmov rdi, [rsp+16]\nadd rsp, 40",
        PROLOGUE
    );
    assert_eq!(compile_program(text).unwrap(), expected(funs, &main));
}

#[test]
fn green_tuple() {
    let main = format!(
        "{}\nmov rax, 2\nmov [rsp-24], rax\nmov rax, 8\nmov [r15+0], rax\nmov rbx, [rsp-24]\nmov [r15+8], rbx\nmov rax, r15\nshl rax, 2\nadd rax, 1\nadd r15, 16",
        PROLOGUE
    );
    assert_eq!(compile_program("(tuple 1)").unwrap(), expected("", &main));
}

#[test]
fn green_split_pieces() {
    let pieces = split_program("(fun (f) 1)(fun (g x) x) (f)");
    assert_eq!(pieces, vec!["(fun (f) 1)", "(fun (g x) x)", " (f)"]);
    assert_eq!(split_program("(+ 1 2)"), vec!["(+ 1 2)"]);
}

#[test]
fn green_errors() {
    assert!(matches!(compile_program("x"), Err(ProgramError::Compile(CompileError::UnboundVariable(ref s))) if s == "x"));
    assert!(matches!(compile_program("(break 1)"), Err(ProgramError::Compile(CompileError::BreakOutsideLoop))));
    assert!(matches!(compile_program("(f 1)"), Err(ProgramError::Compile(CompileError::UnknownFunction))));
    assert!(matches!(compile_program("(fun (f x) x) (f)"), Err(ProgramError::Compile(CompileError::WrongArity))));
    assert!(matches!(compile_program("(fun (f x) input) (f 1)"), Err(ProgramError::Compile(CompileError::InputInFunction))));
    assert!(matches!(compile_program("(let ((x 1) (x 2)) x)"), Err(ProgramError::Compile(CompileError::DuplicateBinding))));
    assert!(matches!(compile_program("(let ((true 1)) 1)"), Err(ProgramError::Compile(CompileError::KeywordBinding))));
    assert!(matches!(compile_program("4611686018427387904"), Err(ProgramError::Parse(ParseError::InvalidOverflow))));
    assert!(matches!(compile_program("(block)"), Err(ProgramError::Parse(ParseError::EmptyBlock))));
    assert!(matches!(compile_program("(tuple)"), Err(ProgramError::Parse(ParseError::EmptyTuple))));
    assert!(matches!(compile_program("(let () 1)"), Err(ProgramError::Parse(ParseError::NoBindingLet))));
    assert!(matches!(compile_program("(let (x) 1)"), Err(ProgramError::Parse(ParseError::InvalidBind))));
    assert!(matches!(compile_program("(if 1 2)"), Err(ProgramError::Parse(ParseError::InvalidList))));
    assert!(matches!(compile_program("1.5"), Err(ProgramError::Parse(ParseError::InvalidAtom))));
    assert!(matches!(compile_program("(+ 1"), Err(ProgramError::Parse(ParseError::InvalidSexp))));
    assert!(matches!(compile_program("(fun (f) 1) (fun (f) 2) 3"), Err(ProgramError::Parse(ParseError::DuplicateFunction))));
    assert!(matches!(compile_program("(fun (f x x) 1) 3"), Err(ProgramError::Parse(ParseError::DuplicateParameter))));
    assert!(matches!(compile_program("(fun (f let) 1) 3"), Err(ProgramError::Parse(ParseError::ParameterIsKeyword))));
    assert!(matches!(compile_program("(fun () 1) 3"), Err(ProgramError::Parse(ParseError::FunctionWithoutName))));
}

#[test]
fn green_error_messages() {
    assert_eq!(ParseError::EmptyTuple.message(), "Invalid empty tuple");
    assert_eq!(ParseError::ParameterIsKeyword.message(), "function_arg_is_keyword");
    assert_eq!(CompileError::UnboundVariable("x".to_string()).message(), "Unbound variable identifier x");
    assert_eq!(
        CompileError::UnknownFunction.message(),
        "There is a call to a function name that doesn't exist"
    );
    assert_eq!(ProgramError::Parse(ParseError::DuplicateFunction).message(), "Multiple functions are defined with the same name");
    assert_eq!(ProgramError::TooLarge.message(), "program too large");
    match compile_program("(let () 1)") {
        Err(e) => assert_eq!(e.message(), "Invalid no-binding let sexp"),
        Ok(_) => panic!("a let without bindings compiled"),
    }
}

#[test]
fn green_split_pieces_rebuild_the_text() {
    let text = "(fun (f x) (+ x 1)) (fun (g) 2)\n(f (g))";
    let pieces = split_program(text);
    assert_eq!(pieces.concat(), text);
    assert_eq!(pieces.len(), 3);
}

#[test]
fn green_checks_a_definition_before_parsing_it() {
    let word = |w: &str| SExpr::Atom(SAtom::S(w.to_string()));
    let defn = |sig: Vec<&str>| {
        SExpr::List(vec![word("fun"), SExpr::List(sig.into_iter().map(|w| word(w)).collect()), word("x")])
    };
    assert_eq!(check_defn(&defn(vec![])), Err(ParseError::FunctionWithoutName));
    assert_eq!(check_defn(&defn(vec!["f", "x", "x"])), Err(ParseError::DuplicateParameter));
    assert_eq!(check_defn(&defn(vec!["f", "loop"])), Err(ParseError::ParameterIsKeyword));
    assert_eq!(check_defn(&defn(vec!["f", "x", "y"])), Ok(()));
    let d = parse_defn(&defn(vec!["f", "x", "y"]));
    assert_eq!(d.fun, "f");
    assert_eq!(d.funargs, vec!["x".to_string(), "y".to_string()]);
    assert!(matches!(d.body, Expr::Id(ref x) if x == "x"));
}

#[test]
fn green_checks_a_definition_before_compiling_it() {
    let funs = im::HashMap::new();
    let bad = Defn { fun: "f".to_string(), funargs: vec!["x".to_string()], body: Expr::Id("z".to_string()) };
    assert!(matches!(check_compile_defn(&bad, &funs, 0, 0), Err(CompileError::UnboundVariable(z)) if z == "z"));
    let input = Defn { fun: "f".to_string(), funargs: vec![], body: Expr::Id("input".to_string()) };
    assert!(matches!(check_compile_defn(&input, &funs, 0, 0), Err(CompileError::InputInFunction)));
    let good = Defn { fun: "f".to_string(), funargs: vec!["x".to_string()], body: Expr::Id("x".to_string()) };
    assert_eq!(check_compile_defn(&good, &funs, 0, 0).is_ok(), true);
    let (mut ifnum, mut loopnum) = (0, 0);
    assert_eq!(compile_defn(&good, &funs, &mut ifnum, &mut loopnum), "\nf:\nmov rax, [rsp+8]\nret");
}
