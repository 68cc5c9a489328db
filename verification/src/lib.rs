//! A small stack-based bytecode virtual machine with its chunk format and a tokenizer.

pub mod chunk;
pub mod compiler;
pub mod lexer;
pub mod text;
pub mod value;
pub mod vm;
