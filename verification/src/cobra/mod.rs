//! The Cobra compiler: booleans, conditionals, loops and mutation.
pub mod compiler;
pub mod emission;
pub mod instrs;
pub mod parser;
pub mod program;
pub mod runtime;
pub mod semantics;
pub mod syntax;
