//! Helpers of the lexer.

pub mod char_utils;
pub mod headers;
pub mod numeric;
pub mod string;
pub mod buffer;
