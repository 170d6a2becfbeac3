//! The processor: register traces and the instruction decoder.
pub mod registers;
pub mod decoder;
pub mod stack;
pub mod executor;
