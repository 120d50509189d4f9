use snek::caduceus::compiler::{compile, within_compile_limits};
use snek::caduceus::driver::{compile_program, read_program, ProgramError};
use snek::caduceus::parser::parse_expr;
use snek::caduceus::runtime::{check_input, error_message, format_output, parse_input, InputError};
use snek::caduceus::types::{CompileError, Instr, Reg, Val};

fn compile_text(text: &str) -> Result<String, String> {
    let s = read_program(text).unwrap();
    let e = parse_expr(&s).unwrap();
    assert!(within_compile_limits(&e));
    compile(&e).map_err(|e| format!("{:?}", e))
}

#[test]
fn compile_number_and_booleans() {
    assert_eq!(compile_text("5").unwrap(), "    mov rax, 10");
    assert_eq!(compile_text("-3").unwrap(), "    mov rax, -6");
    assert_eq!(compile_text("true").unwrap(), "    mov rax, 3");
    assert_eq!(compile_text("false").unwrap(), "    mov rax, 1");
    assert_eq!(compile_text("input").unwrap(), "    mov rax, rdi");
}

#[test]
fn compile_add1() {
    let expected = "    mov rax, 10
    mov r10, rax
    and r10, 1
    cmp r10, 0
    je unary_success_0
    mov rax, 2
    jmp throw_error
    unary_success_0:
    add rax, 2
    jno no_overflow_1
    mov rax, 1
    jmp throw_error
    no_overflow_1:";
    assert_eq!(compile_text("(add1 5)").unwrap(), expected);
}

#[test]
fn compile_isnum() {
    let expected = "    mov rax, 3
    mov r10, rax
    and r10, 1
    cmp r10, 1
    je unary_comp_else_lbl_1
    mov rax, 3
    jmp unary_comp_done_lbl_2
    unary_comp_else_lbl_1:
    mov rax, 1
    unary_comp_done_lbl_2:";
    assert_eq!(compile_text("(isnum true)").unwrap(), expected);
}

#[test]
fn compile_let_and_minus() {
    let expected = "    mov rax, 14
    mov [rsp - 8], rax
    mov rax, 4
    mov [rsp - 16], rax
    mov rax, [rsp - 16]
    mov [rsp - 24], rax
    mov rax, [rsp - 8]
    mov r11, 0
    mov r10, rax
    and r10, 1
    add r11, r10
    mov r10, [rsp - 24]
    and r10, 1
    add r11, r10
    cmp r11, 1
    jne type_checker_2
    mov rax, 2
    jmp throw_error
    type_checker_2:
    cmp r11, 0
    je success_check_3
    mov rax, 2
    jmp throw_error
    success_check_3:
    sub rax, [rsp - 24]
    jno no_overflow_4
    mov rax, 1
    jmp throw_error
    no_overflow_4:";
    assert_eq!(compile_text("(let ((x 7) (y 2)) (- x y))").unwrap(), expected);
}

#[test]
fn compile_less_than() {
    let out = compile_text("(< 1 2)").unwrap();
    let lines: Vec<&str> = out.lines().collect();
    assert_eq!(lines[0], "    mov rax, 4");
    assert_eq!(lines[1], "    mov [rsp - 8], rax");
    assert_eq!(lines[2], "    mov rax, 2");
    assert!(out.contains("    check_success_4:\n    cmp rax, [rsp - 8]\n    jl true_lbl_0\n    mov rax, 1\n    jmp done_lbl_1\n    true_lbl_0:\n    mov rax, 3\n    done_lbl_1:"));
}

#[test]
fn compile_loop_break_and_if() {
    let out = compile_text("(loop (if true (break 1) 2))").unwrap();
    let expected = "    loop_start_0:
    mov rax, 3
    cmp rax, 1
    je false_lbl_1
    mov rax, 2
    jmp loop_break_done#loop_start_0
    jmp done_lbl_2
    false_lbl_1:
    mov rax, 4
    done_lbl_2:
    jmp loop_start_0
    loop_break_done#loop_start_0:";
    assert_eq!(out, expected);
}

#[test]
fn compile_set_and_block() {
    let out = compile_text("(let ((x 1)) (block (set! x 5) x))").unwrap();
    assert_eq!(out, "    mov rax, 2\n    mov [rsp - 8], rax\n    mov rax, 10\n    mov [rsp - 8], rax\n    mov rax, [rsp - 8]");
}

#[test]
fn compile_errors() {
    let s = read_program("(let ((x 1)) y)").unwrap();
    let e = parse_expr(&s).unwrap();
    assert!(matches!(compile(&e), Err(CompileError::UnboundIdentifier("y"))));
    let s = read_program("(break 1)").unwrap();
    let e = parse_expr(&s).unwrap();
    assert!(matches!(compile(&e), Err(CompileError::NoLoopForBreak)));
    let s = read_program("(set! z 1)").unwrap();
    let e = parse_expr(&s).unwrap();
    assert!(matches!(compile(&e), Err(CompileError::UnboundIdentifier("z"))));
}

#[test]
fn compile_whole_program() {
    let s = read_program("(add1 41)").unwrap();
    let out = compile_program(&s).unwrap();
    assert!(out.starts_with("section .text\nextern snek_error\nglobal our_code_starts_here\n\nthrow_error:\n    mov rdi, rax\n    push rsp\n    call snek_error\n    pop rsp\n\nour_code_starts_here:\n    mov rax, 82\n"));
    assert!(out.ends_with("no_overflow_1:\n    ret\n"));
    let s = read_program("(block)").unwrap();
    assert!(matches!(compile_program(&s), Err(ProgramError::Parse(_))));
    let s = read_program("x").unwrap();
    assert!(matches!(compile_program(&s), Err(ProgramError::Compile(CompileError::UnboundIdentifier("x")))));
}

#[test]
fn instruction_text() {
    assert_eq!(Instr::Push(Val::Reg(Reg::Rsi)).to_asm(), "push rsi");
    assert_eq!(Instr::Pop(Reg::R11).to_asm(), "pop r11");
    assert_eq!(Instr::ShiftLeft(Val::Reg(Reg::Rax), 2).to_asm(), "shl rax, 2");
    assert_eq!(Instr::ShiftRight(Val::Reg(Reg::Rax), 1).to_asm(), "shr rax, 1");
    assert_eq!(Instr::Test(Val::Reg(Reg::Rax), Val::Imm(1)).to_asm(), "test rax, 1");
    assert_eq!(Instr::BitwiseXor(Val::Reg(Reg::Rax), Val::Imm(-1)).to_asm(), "xor rax, -1");
    assert_eq!(Instr::Call("f".to_string()).to_asm(), "call f");
    assert_eq!(Instr::JumpOverflow("o".to_string()).to_asm(), "jo o");
    assert_eq!(Instr::JumpGreaterEqual("g".to_string()).to_asm(), "jge g");
    assert_eq!(Val::RegOffset(Reg::Rdi, -16).to_asm(), "[rdi - -16]");
}

#[test]
fn runtime_input_and_output() {
    assert_eq!(parse_input("true"), 3);
    assert_eq!(parse_input("false"), 1);
    assert_eq!(parse_input("21"), 42);
    assert_eq!(parse_input("-1"), (-2i64) as u64);
    assert_eq!(parse_input("+7"), 14);
    assert_eq!(check_input("4611686018427387904"), Err(InputError::Overflow(4611686018427387904)));
    assert_eq!(check_input("-4611686018427387905"), Err(InputError::Underflow(-4611686018427387905)));
    assert_eq!(check_input("abc"), Err(InputError::Unsupported));
    assert_eq!(check_input(""), Err(InputError::Unsupported));
    assert_eq!(check_input("4611686018427387903"), Ok(()));
    assert_eq!(check_input("true"), Ok(()));
    assert_eq!(format_output(42), "21");
    assert_eq!(format_output(-2), "-1");
    assert_eq!(format_output(3), "true");
    assert_eq!(format_output(1), "false");
    for n in [-4611686018427387904i64, -1, 0, 1, 123456789, 4611686018427387903] {
        let v = parse_input(&n.to_string());
        assert_eq!(format_output(v as i64), n.to_string());
    }
}

#[test]
fn runtime_error_messages() {
    assert_eq!(error_message(1), "[Runtime Error] overflow error.");
    assert_eq!(error_message(2), "[Runtime Error] type mismatch error (invalid argument).");
    assert_eq!(error_message(9), "[Runtime Error] Unknown error code: 9");
    assert_eq!(error_message(-9), "[Runtime Error] Unknown error code: -9");
}

#[test]
fn caduceus_error_messages() {
    let s = read_program("(let ((x 1)) y)").unwrap();
    match compile_program(&s) {
        Err(ProgramError::Compile(e)) => assert_eq!(e.message(), "Unbound variable identifier y"),
        _ => panic!("an unbound name compiled"),
    }
    let s = read_program("(break 1)").unwrap();
    match compile_program(&s) {
        Err(ProgramError::Compile(e)) => assert_eq!(e.message(), "No associated loop to break from"),
        _ => panic!("a break outside a loop compiled"),
    }
    let s = read_program("(block)").unwrap();
    match compile_program(&s) {
        Err(ProgramError::Parse(e)) => assert_eq!(e.message(), "Invalid block: Block is empty."),
        _ => panic!("an empty block parsed"),
    }
    let s = read_program("(let ((x 1) (x 2)) x)").unwrap();
    match compile_program(&s) {
        Err(ProgramError::Parse(e)) => assert_eq!(e.message(), "Duplicate binding x"),
        _ => panic!("a duplicate binding parsed"),
    }
    assert_eq!(CompileError::NoLoopForBreak.message(), "No associated loop to break from");
}

#[test]
fn caduceus_input_error_messages() {
    assert_eq!(
        check_input("4611686018427387904").unwrap_err().message("4611686018427387904"),
        "[Input Error] Invalid input, 4611686018427387904 overflow/overflow"
    );
    assert_eq!(
        check_input("-4611686018427387905").unwrap_err().message("-4611686018427387905"),
        "[Input Error] Invalid input, -4611686018427387905 overflow/underflow"
    );
    assert_eq!(check_input("abc").unwrap_err().message("abc"), "[Input Error] Unsupported input: `abc`");
}
