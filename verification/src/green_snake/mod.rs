//! The Green Snake compiler: tuples, functions, loops and mutation.
pub mod compiler;
pub mod emission;
pub mod instrs;
pub mod parser;
pub mod program;
pub mod semantics;
pub mod syntax;
