//! A model of the x86-64 machine that the emitted code runs on: its
//! registers, the stack words at byte offsets from rsp, the flags that the
//! conditional instructions test, and the label that a taken jump goes to.
//! Each compiler gives its instructions their meaning over this model, and
//! states what its code leaves in rax.
use vstd::prelude::*;

verus! {

/// The flags that the emitted code tests: zero, less (the sign flag differs
/// from the overflow flag: the exact result is negative), and overflow.
pub struct Flags {
    pub zf: bool,
    pub lt: bool,
    pub of: bool,
}

/// A condition on the flags, as the `j..` and `cmov..` instructions name it.
pub enum Cond {
    E,
    Ne,
    G,
    Ge,
    L,
    Le,
    O,
    No,
}

/// Whether the flags satisfy a condition.
pub open spec fn cond_holds(f: Flags, c: Cond) -> bool {
    match c {
        Cond::E => f.zf,
        Cond::Ne => !f.zf,
        Cond::G => !f.zf && !f.lt,
        Cond::Ge => !f.lt,
        Cond::L => f.lt,
        Cond::Le => f.zf || f.lt,
        Cond::O => f.of,
        Cond::No => !f.of,
    }
}

/// The flags after an addition, subtraction, multiplication or comparison
/// whose exact result, over the signed values of the operands, is `r`.
pub open spec fn arith_flags(r: int) -> Flags {
    Flags { zf: r == 0, lt: r < 0, of: r < i64::MIN || r > i64::MAX }
}

/// The flags after a bitwise operation whose result is `v`.
pub open spec fn logic_flags(v: i64) -> Flags {
    Flags { zf: v == 0, lt: v < 0, of: false }
}

/// The state of the machine. Registers hold 64-bit words, read as signed.
pub struct Machine {
    pub rax: i64,
    pub rbx: i64,
    pub rdi: i64,
    pub rsi: i64,
    pub r10: i64,
    pub r11: i64,
    pub r15: i64,
    /// The stack word at each byte offset from rsp.
    pub stack: Map<int, i64>,
    pub flags: Flags,
    /// The label that a taken jump goes to, until the code reaches it; a
    /// label outside the code (the error handler) is never reached.
    pub target: Option<Seq<char>>,
    /// Every instruction run so far is one that the model covers.
    pub known: bool,
}

/// The machine runs on: no jump is pending, and no instruction outside
/// the model has run.
pub open spec fn running(m: Machine) -> bool {
    m.target is None && m.known
}

/// The machine jumps to `l` where `c` holds of the flags.
pub open spec fn jump_if(m: Machine, c: bool, l: Seq<char>) -> Machine {
    if c {
        Machine { target: Some(l), ..m }
    } else {
        m
    }
}

/// The machine runs an instruction that the model does not cover.
pub open spec fn unknown(m: Machine) -> Machine {
    Machine { known: false, ..m }
}

/// The machine reaches the label `l`: a jump to it lands here.
pub open spec fn reach_label(m: Machine, l: Seq<char>) -> Machine {
    if m.target == Some(l) {
        Machine { target: None, ..m }
    } else {
        m
    }
}

/// The value that a tagged number `n` is held as: shifted left by one bit.
pub open spec fn tagged(n: int) -> int {
    2 * n
}

} // verus!
