//! The lexer: from source text to tokens.

pub mod counter;
pub mod context;
pub mod context_info;
pub mod token_list;
pub mod utils;
pub mod errors;
pub mod keywords;
pub mod tokenizer;
pub mod balance;
