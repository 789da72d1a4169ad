pub mod assembler;
pub mod codegen;
pub mod executor;
pub mod gc;
pub mod lexer;
pub mod lox_core;
pub mod lparse;
pub mod text;
pub mod frontend;
pub mod parse;
