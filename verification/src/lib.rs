//! Execution core of a small dynamic language: a lexical scanner that turns
//! source text into classified tokens, and a bytecode virtual machine that
//! executes an instruction sequence against an operand stack.

pub mod chunk;
pub mod disasm;
pub mod scan;
pub mod stack;
pub mod token;
pub mod trace;
pub mod value;
pub mod vm;
