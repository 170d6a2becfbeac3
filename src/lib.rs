//! Execution-trace generation and assembly for a small stack machine whose runs are
//! proven with a STARK.
pub mod field;
pub mod opcodes;
pub mod accumulator;
pub mod processor;
pub mod programs;
pub mod stark;
