//! NGL: a small scripting language with a lexer, a bytecode compiler and a
//! stack machine, each stated and proved against its own specification.

pub mod text;
pub mod token;
pub mod error;
pub mod lexer;
pub mod value;
pub mod opcode;
pub mod vm;
pub mod builtins;
pub mod compiler;
pub mod shell;
pub mod laws;
