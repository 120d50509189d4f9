use snek::caduceus::driver::read_program;
use snek::caduceus::parser::parse_expr;
use snek::caduceus::types::Expr::{Assign, BinOp, Block, Id, Let, Number, UnOp};
use snek::caduceus::types::{ArithmeticBinaryOp, ArithmeticUnaryOp, Op1, Op2, ParseError};
use snek::sexpr::{SAtom::I, SAtom::S, SExpr};

fn parse(text: &str) -> Result<SExpr, snek::sexpr::SexpError> {
    read_program(text)
}

#[test]
fn test_number() {
    assert_eq!(parse_expr(&parse("5").unwrap()), Ok(Number(5)));
}

#[test]
fn test_sub1_add1() {
    assert_eq!(
        parse_expr(&parse("(sub1 (add1 (sub1 5)))").unwrap()),
        Ok(UnOp(
            Op1::Arith(ArithmeticUnaryOp::Sub1),
            Box::new(UnOp(
                Op1::Arith(ArithmeticUnaryOp::Add1),
                Box::new(UnOp(
                    Op1::Arith(ArithmeticUnaryOp::Sub1),
                    Box::new(Number(5))
                ))
            ))
        ))
    );
}

#[test]
fn test_let1() {
    assert_eq!(
        parse_expr(&parse("(let ((x 5)) (add1 x))").unwrap()),
        Ok(Let(
            vec![("x", Number(5))],
            Box::new(UnOp(Op1::Arith(ArithmeticUnaryOp::Add1), Box::new(Id("x"))))
        ))
    );
}

#[test]
fn test_sub1() {
    assert_eq!(
        parse_expr(&parse("(sub1 5)").unwrap()),
        Ok(UnOp(
            Op1::Arith(ArithmeticUnaryOp::Sub1),
            Box::new(Number(5))
        ))
    );
}

#[test]
fn test_let2() {
    assert_eq!(
        parse_expr(&parse("(let ((x 10) (y 7)) (* (- x y) 2))").unwrap()),
        Ok(Let(
            vec![("x", Number(10)), ("y", Number(7))],
            Box::new(BinOp(
                Op2::Arith(ArithmeticBinaryOp::Times),
                Box::new(BinOp(
                    Op2::Arith(ArithmeticBinaryOp::Minus),
                    Box::new(Id("x")),
                    Box::new(Id("y"))
                )),
                Box::new(Number(2))
            ))
        ))
    );
}

#[test]
fn test_block_1() {
    assert_eq!(
        parse_expr(&parse("(let ((x 5)) (block (set! x (+ x 1))))").unwrap()),
        Ok(Let(
            vec![("x", Number(5))],
            Box::new(Block(vec![Assign(
                "x",
                Box::new(BinOp(
                    Op2::Arith(ArithmeticBinaryOp::Plus),
                    Box::new(Id("x")),
                    Box::new(Number(1))
                ))
            )]))
        ))
    );
}

#[test]
fn test_fail_invalid_binop1() {
    assert_eq!(
        parse_expr(&parse("(/ 10 5)").unwrap()),
        Err(ParseError::UnknownBinaryOperator(
            "/",
            &[
                SExpr::Atom(S("/".to_owned())),
                SExpr::Atom(I(10)),
                SExpr::Atom(I(5))
            ]
        ))
    );
}

#[test]
fn test_fail_bad_identifier() {
    assert_eq!(
        parse_expr(&parse("(let ((131cse 10)) (+ 5 131cse))").unwrap()),
        Err(ParseError::InvalidIdentifier(
            "131cse",
            &[SExpr::Atom(S("131cse".to_owned())), SExpr::Atom(I(10))]
        ))
    );
}

#[test]
fn test_fail_reserved_identifier1() {
    assert_eq!(
        parse_expr(&parse("(let ((let 10)) (+ 5 let))").unwrap()),
        Err(ParseError::ReservedIdentifierUsed(
            "let",
            &[SExpr::Atom(S("let".to_owned())), SExpr::Atom(I(10))]
        ))
    );
}

#[test]
fn test_fail_reserved_identifier2() {
    assert_eq!(
        parse_expr(&parse("(let ((x 10) (y 15) (add1 20)) (+ (+ x y) add1))").unwrap()),
        Err(ParseError::ReservedIdentifierUsed(
            "add1",
            &[SExpr::Atom(S("add1".to_owned())), SExpr::Atom(I(20))]
        ))
    );
}

#[test]
fn test_fail_block_empty() {
    assert_eq!(
        parse_expr(&parse("(block )").unwrap()),
        Err(ParseError::BlockEmpty)
    );
}

#[test]
fn parse_booleans_input_and_if() {
    assert_eq!(
        parse_expr(&parse("(if true input false)").unwrap()),
        Ok(snek::caduceus::types::Expr::If(
            Box::new(snek::caduceus::types::Expr::Bool(true)),
            Box::new(snek::caduceus::types::Expr::Input),
            Box::new(snek::caduceus::types::Expr::Bool(false))
        ))
    );
}

#[test]
fn parse_number_limits() {
    assert_eq!(parse_expr(&parse("4611686018427387903").unwrap()), Ok(Number(4611686018427387903)));
    assert_eq!(parse_expr(&parse("-4611686018427387904").unwrap()), Ok(Number(-4611686018427387904)));
    let big = parse("4611686018427387904").unwrap();
    assert_eq!(parse_expr(&big), Err(ParseError::OverflowNumber(&I(4611686018427387904))));
    let small = parse("-4611686018427387905").unwrap();
    assert_eq!(parse_expr(&small), Err(ParseError::UnderflowNumber(&I(-4611686018427387905))));
}

#[test]
fn parse_float_atom_unsupported() {
    let s = parse("2.5").unwrap();
    assert!(matches!(parse_expr(&s), Err(ParseError::UnsupportedAtomType(_))));
}

#[test]
fn parse_duplicate_and_empty_let() {
    assert_eq!(
        parse_expr(&parse("(let ((x 1) (x 2)) x)").unwrap()),
        Err(ParseError::DuplicateIdentifier("x"))
    );
    assert_eq!(parse_expr(&parse("(let () 5)").unwrap()), Err(ParseError::NoLetBindings));
}

#[test]
fn parse_bad_bindings() {
    let s = parse("(let (x) 5)").unwrap();
    assert!(matches!(parse_expr(&s), Err(ParseError::InvalidBinding(SExpr::Atom(_)))));
    let s = parse("(let ((x 1 2)) 5)").unwrap();
    assert!(matches!(parse_expr(&s), Err(ParseError::BadBinding(SExpr::List(_)))));
}

#[test]
fn parse_unknown_operators() {
    let s = parse("(foo 1)").unwrap();
    assert!(matches!(parse_expr(&s), Err(ParseError::UnknownOperator("foo", _))));
    let s = parse("(1 2 3 4 5)").unwrap();
    assert!(matches!(parse_expr(&s), Err(ParseError::InvalidSExpr(_))));
    // `set!` whose target is not a name falls through to the binary operators.
    let s = parse("(set! (x) 1)").unwrap();
    assert!(matches!(parse_expr(&s), Err(ParseError::UnknownBinaryOperator("set!", _))));
}

#[test]
fn parse_set_reserved_and_loop_break() {
    let s = parse("(set! if 1)").unwrap();
    assert!(matches!(parse_expr(&s), Err(ParseError::ReservedIdentifierUsed("if", _))));
    let s = parse("(loop (break 1))").unwrap();
    assert_eq!(
        parse_expr(&s),
        Ok(snek::caduceus::types::Expr::Loop(Box::new(snek::caduceus::types::Expr::Break(Box::new(Number(1))))))
    );
}

#[test]
fn read_program_refuses_bad_text() {
    let e = read_program("(aaaa").unwrap_err();
    assert_eq!(e.message, "unexpected eof");
    assert_eq!(e.line, 1);
}
