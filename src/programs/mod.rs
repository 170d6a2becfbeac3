//! Programs: the block tree and the assembler.
pub mod blocks;
pub mod flow;
pub mod assembly;
