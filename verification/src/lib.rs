//! The front end and execution core of a small bytecode language: a scanner
//! that turns source text into tokens, a chunk of bytecode with its
//! disassembler, and the stepping core of a stack machine.

pub mod chars;
pub mod chunk;
pub mod compiler;
pub mod cursor;
pub mod laws;
pub mod scanner;
pub mod source;
pub mod text;
pub mod token;
pub mod vm;
