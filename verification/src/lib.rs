//! A toolchain for a minimal 8-bit assembly language.
//!
//! The crate lowers a program (with imports, symbolic constants, labels,
//! automatically assigned addresses and subroutines) to the primitive
//! operations of a small instruction set, encodes those operations as bytes,
//! and executes the bytes on a virtual machine with a flat 256-byte memory.
//!
//! * [`lexer`] and [`parser`] turn the text of a source into a program
//!   ([`ast`]).
//! * [`syntax_ext`] holds the passes that rewrite a program until only
//!   operations with concrete operands are left.
//! * [`machine`] is the instruction set: one table that says, for each
//!   opcode, how its operands are written in source and how they are read
//!   when the instruction runs.
//! * [`codegen`] encodes operations by that table, and [`vm`] executes the
//!   bytes by it.
//! * [`assembler`] runs the whole from text to bytes.
//!
//! Every function states what it computes over a mathematical view of its
//! arguments, and is verified against that statement. A few calls are
//! trusted and marked so: appending a character to a string, the classes of
//! characters that the standard library knows, and the random numbers of the
//! `rand` crate.
//!
//! Nothing in the crate reads or writes files or the terminal: errors and
//! warnings are returned as [`util::Diagnostic`]s, and what a program prints
//! or reads is handed to the caller as a [`machine::Effect`].
pub mod assembler;
pub mod ast;
pub mod codegen;
pub mod lexer;
pub mod machine;
pub mod parser;
pub mod syntax_ext;
pub mod text;
pub mod util;
pub mod vm;
