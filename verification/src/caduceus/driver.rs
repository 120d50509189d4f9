//! The compiler as a whole: from program text to the assembly file.
use vstd::prelude::*;

use crate::caduceus::compiler::{closed, compile, compile_result, within_compile_limits, max_expr_size, expr_size};
use crate::caduceus::parser::{parse_expr, parse_spec, view_parse};
use crate::caduceus::types::{CompileError, ParseError, SpecCompileError, SpecParseError};
use crate::sexpr::{read_sexp, sexp_parse, view_read, SExpr, SexpError, SpecSExpr, SpecSexpError};

verus! {

/// The text of the assembly file around the compiled code.
pub open spec fn program_text(body: Seq<char>) -> Seq<char> {
    "section .text\nextern snek_error\nglobal our_code_starts_here\n\nthrow_error:\n    mov rdi, rax\n    push rsp\n    call snek_error\n    pop rsp\n\nour_code_starts_here:\n"@
        + body + "\n    ret\n"@
}

/// Reads program text as an s-expression, with the `sexp` crate.
pub fn read_program(text: &str) -> (r: Result<SExpr, SexpError>)
    ensures
        view_read(r) == sexp_parse(text@),
{
    read_sexp(text)
}

/// Why a program could not be compiled.
#[derive(Debug)]
pub enum ProgramError<'a> {
    /// The program is not a valid expression.
    Parse(ParseError<'a>),
    /// The expression uses an unbound variable or breaks outside a loop.
    Compile(CompileError<'a>),
    /// The expression has more nodes than the compiler takes: a bound on its
    /// size that keeps every stack offset, and every label number, within
    /// its integer type.
    TooLarge,
}

/// The mathematical model of a [`ProgramError`].
pub enum SpecProgramError {
    Parse(SpecParseError),
    Compile(SpecCompileError),
    TooLarge,
}

pub open spec fn view_program<'a>(r: Result<String, ProgramError<'a>>) -> Result<Seq<char>, SpecProgramError> {
    match r {
        Ok(s) => Ok(s@),
        Err(ProgramError::Parse(e)) => Err(SpecProgramError::Parse(e@)),
        Err(ProgramError::Compile(e)) => Err(SpecProgramError::Compile(e@)),
        Err(ProgramError::TooLarge) => Err(SpecProgramError::TooLarge),
    }
}

/// What compiling the program `s` gives: the assembly file, or the first
/// error of parsing, of size, or of compiling.
pub open spec fn program_result(s: SpecSExpr) -> Result<Seq<char>, SpecProgramError> {
    match parse_spec(s) {
        Err(e) => Err(SpecProgramError::Parse(e)),
        Ok(e) => if expr_size(e) > max_expr_size() {
            Err(SpecProgramError::TooLarge)
        } else {
            match compile_result(e) {
                Ok(body) => Ok(program_text(body)),
                Err(x) => Err(SpecProgramError::Compile(x)),
            }
        },
    }
}

/// Parses and compiles a program read as an s-expression into the text of
/// its assembly file.
pub fn compile_program<'a>(sexpr: &'a SExpr) -> (r: Result<String, ProgramError<'a>>)
    ensures
        view_program(r) == program_result(sexpr@),
        r is Ok ==> (parse_spec(sexpr@) matches Ok(e) && closed(e)),
{
    let expr = match parse_expr(sexpr) {
        Ok(o) => o,
        Err(e) => return Err(ProgramError::Parse(e)),
    };
    if !within_compile_limits(&expr) {
        return Err(ProgramError::TooLarge);
    }
    let body = match compile(&expr) {
        Ok(o) => o,
        Err(e) => return Err(ProgramError::Compile(e)),
    };
    let mut out = String::new();
    out.append("section .text\nextern snek_error\nglobal our_code_starts_here\n\nthrow_error:\n    mov rdi, rax\n    push rsp\n    call snek_error\n    pop rsp\n\nour_code_starts_here:\n");
    out.append(body.as_str());
    out.append("\n    ret\n");
    assert(out@ =~= program_text(body@));
    Ok(out)
}

} // verus!
