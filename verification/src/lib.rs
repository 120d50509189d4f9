pub mod boa;
pub mod caduceus;
pub mod cobra;
pub mod compiler_09;
pub mod decimal;
pub mod egg_eater;
pub mod env;
pub mod forest_flame;
pub mod green_snake;
pub mod machine;
pub mod memory;
pub mod sexpr;
pub mod text;
