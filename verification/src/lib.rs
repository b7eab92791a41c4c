//! A small virtual machine for an esoteric tape language in which each
//! opcode is written as a whitespace-delimited run of one repeated
//! character; the run's length (1 through 8) selects the operation.
//!
//! - [`opcode`] defines the eight opcodes, the error kinds, and the
//!   decoding of a single token.
//! - [`decode`] splits source text into tokens and decodes a whole program.
//! - [`tape`] is the fixed-size circular byte memory with its data pointer.
//! - [`exec`] drives an instruction pointer over the decoded program,
//!   resolving loops with a forward scan and a loop-entry stack.
//! - [`laws`] states and proves the machine's general properties.

pub mod decode;
pub mod exec;
pub mod laws;
pub mod opcode;
pub mod tape;
