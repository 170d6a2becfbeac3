//! Assembly of mnemonics into opcodes and hints.
pub mod errors;
pub mod numbers;
pub mod parsers;
pub mod assembler;

