//! A small bytecode machine: an assembler from mnemonic text to a stream of
//! 32-bit words, and a machine that loads and runs such a stream; beside it,
//! a few small routines offered to a host program and a rectangle painter.
pub mod assembler;
pub mod basics;
pub mod binary;
pub mod canvas;
pub mod laws;
pub mod lexer;
pub mod opcode;
pub mod vm;
