//! The description of compiled bytecode that tools show: instructions,
//! constants, functions, and the control-flow graph built from them.

pub mod bytecode;
pub mod cfg;
pub mod helpers;
