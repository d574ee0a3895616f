//! Dabara: a small scripting language with Hausa keywords.
//!
//! The crate is a pipeline of three verified components: a lexer that turns
//! source text into tokens, a recursive-descent parser that builds an
//! abstract syntax tree, and a tree-walking evaluator that executes the tree.
//! Each stage carries a contract relating its result to a mathematical model
//! of the stage, so the behaviour of the whole pipeline is pinned down by
//! spec functions rather than by the executable code.

pub mod error;
pub mod interpreter;
pub mod lexer;
pub mod parser;
pub mod stdlib;
pub mod text;

pub use error::Error;
pub use interpreter::{Interpreter, Value};
pub use lexer::Token;
pub use lexer::tokenize;
pub use parser::parse;
pub use parser::{BinaryOperator, Expression, Program, Statement};
