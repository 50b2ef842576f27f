//! A two-pass assembler for a custom microcode-driven processor.
//!
//! Textual instruction lines are parsed into mnemonics and operands,
//! encoded into fixed-width 32-bit machine words, and label references
//! are resolved in a second pass over the collected relocation records.

pub mod driver;
pub mod encode;
pub mod error;
pub mod laws;
pub mod operand;
pub mod resolve;
pub mod serialize;
pub mod text;
