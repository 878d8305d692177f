pub mod chars;
pub mod decimal;
pub mod token;
pub mod ast;
pub mod lexer;
pub mod parser;
pub mod eval;
