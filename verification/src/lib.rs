pub mod token;
pub mod token_ops;
pub mod text;
pub mod numeral;
pub mod env;
pub mod printer;
pub mod arith;
pub mod semantics;
pub mod eval;
pub mod pattern;
pub mod reader;
pub mod repl;
pub mod laws;
pub mod eval_laws;
pub mod value_laws;
