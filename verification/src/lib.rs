//! A minimal stack-based scripting language: a lexer that turns source bytes
//! into tokens, and an interpreter that executes the token stream against an
//! explicit value stack of numbers, booleans and strings.

pub mod interpreter;
pub mod laws;
pub mod lexer;
pub mod number;

pub use interpreter::Interpreter;
pub use interpreter::InterpreterError;
pub use lexer::Lexer;
pub use lexer::Token;
pub use number::Number;
