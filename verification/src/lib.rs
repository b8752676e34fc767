pub mod error;
pub mod token;
pub mod text;
pub mod lexer;
pub mod ast;
pub mod parser;
pub mod interpreter;
pub mod bytecode;
pub mod compiler;
pub mod vm;
pub mod value;
pub mod env;
