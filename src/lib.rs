//! A single-pass compiler from tokens to bytecode, and a stack machine that
//! executes that bytecode one instruction at a time.
//!
//! Numbers are carried as the bit patterns of IEEE-754 doubles; the machine
//! never computes on them itself and instead asks its host for each result.

pub mod opcode;
pub mod precedence;
pub mod value;
pub mod token;
pub mod chunk;
pub mod globals;
pub mod vm;
pub mod parser;
pub mod laws;
