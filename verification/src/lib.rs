//! Translator for a small accumulator-machine assembly dialect: it splits
//! source text into trimmed lines and decodes each line into an instruction
//! record (mnemonic, numeric operation code, optional operand).

pub mod decode;
pub mod laws;
pub mod numbers;
pub mod text;

pub use decode::{DecodeError, Instruction, str_to_instructions};
pub use text::split_and_trim;
