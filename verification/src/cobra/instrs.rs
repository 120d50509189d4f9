//! The x86 instructions that the compiler emits and their assembly text.
use vstd::prelude::*;

use crate::decimal::{int_decimal, nat_digits, push_i64_decimal, push_u64_digits};

verus! {

/// A register.
#[derive(Debug, Clone, Copy, PartialEq, Eq)]
pub enum Reg {
    RAX,
    RBX,
    RSP,
    RDI,
}

/// An operand: a register, an immediate, a memory slot below a register,
/// or a label.
#[derive(Debug)]
pub enum Val {
    Reg(Reg),
    Imm(u64),
    RegOffset(Reg, i64),
    Mark(String),
}

/// The mathematical model of a [`Val`]: a label is a character sequence.
pub enum SpecVal {
    Reg(Reg),
    Imm(u64),
    RegOffset(Reg, i64),
    Mark(Seq<char>),
}

impl View for Val {
    type V = SpecVal;

    open spec fn view(&self) -> SpecVal {
        match self {
            Val::Reg(r) => SpecVal::Reg(*r),
            Val::Imm(i) => SpecVal::Imm(*i),
            Val::RegOffset(r, o) => SpecVal::RegOffset(*r, *o),
            Val::Mark(s) => SpecVal::Mark(s@),
        }
    }
}

/// An instruction.
#[derive(Debug)]
pub enum Instr {
    IMov(Val, Val),
    IAdd(Val, Val),
    ISub(Val, Val),
    IMul(Val, Val),
    Idiv(Val),
    IAnd(Val, Val),
    IOr(Val, Val),
    IXor(Val, Val),
    ICmp(Val, Val),
    IJmp(Val),
    IJe(Val),
    IJo(Val),
    IJne(Val),
    ICmove(Val, Val),
    ICmovne(Val, Val),
    ICmovg(Val, Val),
    ICmovge(Val, Val),
    ICmovl(Val, Val),
    ICmovle(Val, Val),
    Imark(Val),
    Isar(Val, Val),
}

/// The mathematical model of an [`Instr`].
pub enum SpecInstr {
    IMov(SpecVal, SpecVal),
    IAdd(SpecVal, SpecVal),
    ISub(SpecVal, SpecVal),
    IMul(SpecVal, SpecVal),
    Idiv(SpecVal),
    IAnd(SpecVal, SpecVal),
    IOr(SpecVal, SpecVal),
    IXor(SpecVal, SpecVal),
    ICmp(SpecVal, SpecVal),
    IJmp(SpecVal),
    IJe(SpecVal),
    IJo(SpecVal),
    IJne(SpecVal),
    ICmove(SpecVal, SpecVal),
    ICmovne(SpecVal, SpecVal),
    ICmovg(SpecVal, SpecVal),
    ICmovge(SpecVal, SpecVal),
    ICmovl(SpecVal, SpecVal),
    ICmovle(SpecVal, SpecVal),
    Imark(SpecVal),
    Isar(SpecVal, SpecVal),
}

impl View for Instr {
    type V = SpecInstr;

    open spec fn view(&self) -> SpecInstr {
        match self {
            Instr::IMov(a, b) => SpecInstr::IMov(a@, b@),
            Instr::IAdd(a, b) => SpecInstr::IAdd(a@, b@),
            Instr::ISub(a, b) => SpecInstr::ISub(a@, b@),
            Instr::IMul(a, b) => SpecInstr::IMul(a@, b@),
            Instr::Idiv(a) => SpecInstr::Idiv(a@),
            Instr::IAnd(a, b) => SpecInstr::IAnd(a@, b@),
            Instr::IOr(a, b) => SpecInstr::IOr(a@, b@),
            Instr::IXor(a, b) => SpecInstr::IXor(a@, b@),
            Instr::ICmp(a, b) => SpecInstr::ICmp(a@, b@),
            Instr::IJmp(a) => SpecInstr::IJmp(a@),
            Instr::IJe(a) => SpecInstr::IJe(a@),
            Instr::IJo(a) => SpecInstr::IJo(a@),
            Instr::IJne(a) => SpecInstr::IJne(a@),
            Instr::ICmove(a, b) => SpecInstr::ICmove(a@, b@),
            Instr::ICmovne(a, b) => SpecInstr::ICmovne(a@, b@),
            Instr::ICmovg(a, b) => SpecInstr::ICmovg(a@, b@),
            Instr::ICmovge(a, b) => SpecInstr::ICmovge(a@, b@),
            Instr::ICmovl(a, b) => SpecInstr::ICmovl(a@, b@),
            Instr::ICmovle(a, b) => SpecInstr::ICmovle(a@, b@),
            Instr::Imark(a) => SpecInstr::Imark(a@),
            Instr::Isar(a, b) => SpecInstr::Isar(a@, b@),
        }
    }
}

pub open spec fn view_instrs(s: Seq<Instr>) -> Seq<SpecInstr> {
    s.map_values(|i: Instr| i@)
}

/// The assembly name of a register.
pub open spec fn reg_text(r: Reg) -> Seq<char> {
    match r {
        Reg::RAX => "rax"@,
        Reg::RBX => "rbx"@,
        Reg::RSP => "rsp"@,
        Reg::RDI => "rdi"@,
    }
}

/// An operand that has assembly text: a memory slot only below rsp.
pub open spec fn printable_val(v: SpecVal) -> bool {
    match v {
        SpecVal::RegOffset(r, _) => r == Reg::RSP,
        _ => true,
    }
}

/// The assembly text of a printable operand.
pub open spec fn val_text(v: SpecVal) -> Seq<char> {
    match v {
        SpecVal::Reg(r) => reg_text(r),
        SpecVal::Imm(i) => nat_digits(i as nat),
        SpecVal::RegOffset(_, o) => "[rsp-"@ + int_decimal(o as int) + "]"@,
        SpecVal::Mark(s) => s,
    }
}

/// An instruction that has assembly text: its operands are printable, and a
/// label mark holds a label.
pub open spec fn printable(i: SpecInstr) -> bool {
    match i {
        SpecInstr::Imark(v) => v is Mark,
        SpecInstr::IMov(a, b) => printable_val(a) && printable_val(b),
        SpecInstr::IAdd(a, b) => printable_val(a) && printable_val(b),
        SpecInstr::ISub(a, b) => printable_val(a) && printable_val(b),
        SpecInstr::IMul(a, b) => printable_val(a) && printable_val(b),
        SpecInstr::Idiv(a) => printable_val(a),
        SpecInstr::IAnd(a, b) => printable_val(a) && printable_val(b),
        SpecInstr::IOr(a, b) => printable_val(a) && printable_val(b),
        SpecInstr::IXor(a, b) => printable_val(a) && printable_val(b),
        SpecInstr::ICmp(a, b) => printable_val(a) && printable_val(b),
        SpecInstr::IJmp(a) => printable_val(a),
        SpecInstr::IJe(a) => printable_val(a),
        SpecInstr::IJo(a) => printable_val(a),
        SpecInstr::IJne(a) => printable_val(a),
        SpecInstr::ICmove(a, b) => printable_val(a) && printable_val(b),
        SpecInstr::ICmovne(a, b) => printable_val(a) && printable_val(b),
        SpecInstr::ICmovg(a, b) => printable_val(a) && printable_val(b),
        SpecInstr::ICmovge(a, b) => printable_val(a) && printable_val(b),
        SpecInstr::ICmovl(a, b) => printable_val(a) && printable_val(b),
        SpecInstr::ICmovle(a, b) => printable_val(a) && printable_val(b),
        SpecInstr::Isar(a, b) => printable_val(a) && printable_val(b),
    }
}

#[verifier::opaque]
pub open spec fn all_printable(s: Seq<SpecInstr>) -> bool {
    forall|k: int| 0 <= k < s.len() ==> #[trigger] printable(s[k])
}

/// The assembly text of a printable instruction: a line break, then the
/// instruction.
pub open spec fn instr_text(i: SpecInstr) -> Seq<char> {
    match i {
        SpecInstr::Imark(v) => "\n"@ + val_text(v) + ":"@,
        SpecInstr::IMov(a, b) => "\nmov "@ + val_text(a) + ", "@ + val_text(b),
        SpecInstr::IAdd(a, b) => "\nadd "@ + val_text(a) + ", "@ + val_text(b),
        SpecInstr::ISub(a, b) => "\nsub "@ + val_text(a) + ", "@ + val_text(b),
        SpecInstr::IMul(a, b) => "\nimul "@ + val_text(a) + ", "@ + val_text(b),
        SpecInstr::Idiv(a) => "\nidiv "@ + val_text(a),
        SpecInstr::IAnd(a, b) => "\nand "@ + val_text(a) + ", "@ + val_text(b),
        SpecInstr::IOr(a, b) => "\nor "@ + val_text(a) + ", "@ + val_text(b),
        SpecInstr::IXor(a, b) => "\nxor "@ + val_text(a) + ", "@ + val_text(b),
        SpecInstr::ICmp(a, b) => "\ncmp "@ + val_text(a) + ", "@ + val_text(b),
        SpecInstr::IJmp(a) => "\njmp "@ + val_text(a),
        SpecInstr::IJe(a) => "\nje "@ + val_text(a),
        SpecInstr::IJo(a) => "\njo "@ + val_text(a),
        SpecInstr::IJne(a) => "\njne "@ + val_text(a),
        SpecInstr::ICmove(a, b) => "\ncmove "@ + val_text(a) + ", "@ + val_text(b),
        SpecInstr::ICmovne(a, b) => "\ncmovne "@ + val_text(a) + ", "@ + val_text(b),
        SpecInstr::ICmovg(a, b) => "\ncmovg "@ + val_text(a) + ", "@ + val_text(b),
        SpecInstr::ICmovge(a, b) => "\ncmovge "@ + val_text(a) + ", "@ + val_text(b),
        SpecInstr::ICmovl(a, b) => "\ncmovl "@ + val_text(a) + ", "@ + val_text(b),
        SpecInstr::ICmovle(a, b) => "\ncmovle "@ + val_text(a) + ", "@ + val_text(b),
        SpecInstr::Isar(a, b) => "\nsar "@ + val_text(a) + ", "@ + val_text(b),
    }
}

/// The text of a register.
fn reg_to_str(r: Reg) -> (s: &'static str)
    ensures
        s@ == reg_text(r),
{
    match r {
        Reg::RAX => {
            proof { reveal_strlit("rax"); }
            "rax"
        },
        Reg::RBX => {
            proof { reveal_strlit("rbx"); }
            "rbx"
        },
        Reg::RSP => {
            proof { reveal_strlit("rsp"); }
            "rsp"
        },
        Reg::RDI => {
            proof { reveal_strlit("rdi"); }
            "rdi"
        },
    }
}

/// The assembly text of an operand.
pub fn val_to_str(v: &Val) -> (s: String)
    requires
        printable_val(v@),
    ensures
        s@ == val_text(v@),
{
    let mut s = String::new();
    match v {
        Val::Reg(r) => {
            s.append(reg_to_str(*r));
        },
        Val::Imm(i) => {
            push_u64_digits(&mut s, *i);
        },
        Val::RegOffset(_, offset) => {
            proof {
                reveal_strlit("[rsp-");
                reveal_strlit("]");
            }
            s.append("[rsp-");
            push_i64_decimal(&mut s, *offset);
            s.append("]");
        },
        Val::Mark(l) => {
            s.append(l.as_str());
        },
    }
    assert(s@ =~= val_text(v@));
    s
}

/// Appends `", "` and the text of `b` to `s`.
fn push_second(s: &mut String, b: &Val)
    requires
        printable_val(b@),
    ensures
        final(s)@ == old(s)@ + ", "@ + val_text(b@),
{
    proof { reveal_strlit(", "); }
    s.append(", ");
    let t = val_to_str(b);
    s.append(t.as_str());
    assert(final(s)@ =~= old(s)@ + ", "@ + val_text(b@));
}

/// The assembly text of an instruction: a line break, then the instruction.
pub fn instr_to_str(i: &Instr) -> (s: String)
    requires
        printable(i@),
    ensures
        s@ == instr_text(i@),
{
    let mut s = String::new();
    match i {
        Instr::IMov(a, b) => {
            proof { reveal_strlit("\nmov "); }
            s.append("\nmov ");
            let t = val_to_str(a);
            s.append(t.as_str());
            push_second(&mut s, b);
        },
        Instr::IAdd(a, b) => {
            proof { reveal_strlit("\nadd "); }
            s.append("\nadd ");
            let t = val_to_str(a);
            s.append(t.as_str());
            push_second(&mut s, b);
        },
        Instr::ISub(a, b) => {
            proof { reveal_strlit("\nsub "); }
            s.append("\nsub ");
            let t = val_to_str(a);
            s.append(t.as_str());
            push_second(&mut s, b);
        },
        Instr::IMul(a, b) => {
            proof { reveal_strlit("\nimul "); }
            s.append("\nimul ");
            let t = val_to_str(a);
            s.append(t.as_str());
            push_second(&mut s, b);
        },
        Instr::Idiv(a) => {
            proof { reveal_strlit("\nidiv "); }
            s.append("\nidiv ");
            let t = val_to_str(a);
            s.append(t.as_str());
        },
        Instr::IAnd(a, b) => {
            proof { reveal_strlit("\nand "); }
            s.append("\nand ");
            let t = val_to_str(a);
            s.append(t.as_str());
            push_second(&mut s, b);
        },
        Instr::IOr(a, b) => {
            proof { reveal_strlit("\nor "); }
            s.append("\nor ");
            let t = val_to_str(a);
            s.append(t.as_str());
            push_second(&mut s, b);
        },
        Instr::IXor(a, b) => {
            proof { reveal_strlit("\nxor "); }
            s.append("\nxor ");
            let t = val_to_str(a);
            s.append(t.as_str());
            push_second(&mut s, b);
        },
        Instr::ICmp(a, b) => {
            proof { reveal_strlit("\ncmp "); }
            s.append("\ncmp ");
            let t = val_to_str(a);
            s.append(t.as_str());
            push_second(&mut s, b);
        },
        Instr::IJmp(a) => {
            proof { reveal_strlit("\njmp "); }
            s.append("\njmp ");
            let t = val_to_str(a);
            s.append(t.as_str());
        },
        Instr::IJe(a) => {
            proof { reveal_strlit("\nje "); }
            s.append("\nje ");
            let t = val_to_str(a);
            s.append(t.as_str());
        },
        Instr::IJo(a) => {
            proof { reveal_strlit("\njo "); }
            s.append("\njo ");
            let t = val_to_str(a);
            s.append(t.as_str());
        },
        Instr::IJne(a) => {
            proof { reveal_strlit("\njne "); }
            s.append("\njne ");
            let t = val_to_str(a);
            s.append(t.as_str());
        },
        Instr::ICmove(a, b) => {
            proof { reveal_strlit("\ncmove "); }
            s.append("\ncmove ");
            let t = val_to_str(a);
            s.append(t.as_str());
            push_second(&mut s, b);
        },
        Instr::ICmovne(a, b) => {
            proof { reveal_strlit("\ncmovne "); }
            s.append("\ncmovne ");
            let t = val_to_str(a);
            s.append(t.as_str());
            push_second(&mut s, b);
        },
        Instr::ICmovg(a, b) => {
            proof { reveal_strlit("\ncmovg "); }
            s.append("\ncmovg ");
            let t = val_to_str(a);
            s.append(t.as_str());
            push_second(&mut s, b);
        },
        Instr::ICmovge(a, b) => {
            proof { reveal_strlit("\ncmovge "); }
            s.append("\ncmovge ");
            let t = val_to_str(a);
            s.append(t.as_str());
            push_second(&mut s, b);
        },
        Instr::ICmovl(a, b) => {
            proof { reveal_strlit("\ncmovl "); }
            s.append("\ncmovl ");
            let t = val_to_str(a);
            s.append(t.as_str());
            push_second(&mut s, b);
        },
        Instr::ICmovle(a, b) => {
            proof { reveal_strlit("\ncmovle "); }
            s.append("\ncmovle ");
            let t = val_to_str(a);
            s.append(t.as_str());
            push_second(&mut s, b);
        },
        Instr::Imark(v) => {
            proof {
                reveal_strlit("\n");
                reveal_strlit(":");
            }
            s.append("\n");
            let t = val_to_str(v);
            s.append(t.as_str());
            s.append(":");
        },
        Instr::Isar(a, b) => {
            proof { reveal_strlit("\nsar "); }
            s.append("\nsar ");
            let t = val_to_str(a);
            s.append(t.as_str());
            push_second(&mut s, b);
        },
    }
    assert(s@ =~= instr_text(i@));
    s
}

} // verus!
