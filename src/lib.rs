//! A line-oriented interpreter for a small arithmetic language with `let`
//! bindings and one binary operation per operator slot.
pub mod token;
pub mod lexer;
pub mod table;
pub mod semantics;
pub mod interpreter;
pub mod laws;

pub use interpreter::Interpreter;
pub use lexer::tokenize;
pub use semantics::{AssignFault, EvalError, Side};
pub use token::{Keyword, Op, Token};
