//! A small bytecode language pipeline: a hand-written lexer, a
//! single-pass precedence-climbing compiler that emits bytecode directly,
//! a compact bytecode container with a constant pool and a line table, a
//! read-only disassembler, and a stack-based virtual machine with dynamic
//! type checks over booleans, an absence value, and double-precision
//! numbers.
//!
//! Numbers travel as IEEE 754 binary64 bit patterns; their arithmetic,
//! parsing and printing are the only trusted calls, into a soft-float
//! crate that computes on bit patterns.
pub mod chunk;
pub mod compile;
pub mod debug;
pub mod expr;
pub mod num;
pub mod scanner;
pub mod text;
pub mod value;
pub mod vm;
