//! A small stack-based bytecode virtual machine and its assembler.
//!
//! Bytecode is a flat byte sequence: each record is one opcode byte, followed
//! by one 4-byte little-endian signed operand for the opcodes that take one.
//! The machine executes such a program against a fixed-capacity operand stack
//! and a separate fixed-capacity control stack of 32-bit integers.
//!
//! The assembler turns a line-oriented textual listing into bytecode,
//! resolving symbolic labels into relative byte displacements in a second
//! pass over the recorded use sites.

pub mod assembler;
pub mod inst;
pub mod int32;
pub mod laws;
pub mod vm;
