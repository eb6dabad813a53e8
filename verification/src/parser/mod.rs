//! The parts of the parser that stand on their own: its error type, the
//! matching of delimiters, and the frames it keeps while it compiles.

pub mod errors;
pub mod delimiters;
pub mod frames;
pub mod context;
