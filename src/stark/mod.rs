//! Transition constraints of the STARK.
pub mod utils;
pub mod selections;
