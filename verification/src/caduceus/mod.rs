pub mod compiler;
pub mod driver;
pub mod messages;
pub mod parser;
pub mod runtime;
pub mod semantics;
pub mod types;
pub mod util;
