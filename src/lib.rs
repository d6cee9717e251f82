//! A single-pass bytecode compiler and stack-based virtual machine for a
//! small expression language of the Lox family.
//!
//! The scanner turns source text into tokens; the compiler parses one
//! expression by precedence climbing and writes its bytecode straight into a
//! chunk; the machine runs a chunk on a fixed-capacity operand stack.
//! Numbers are IEEE-754 binary64 values carried as their bit patterns: the
//! machine compares and negates them itself and hands the four arithmetic
//! operations and the remainder to its caller.
pub mod chunk;
pub mod compiler;
pub mod debug;
pub mod gc;
pub mod opcode;
pub mod rules;
pub mod scanner;
pub mod syntax;
pub mod value;
pub mod vm;
