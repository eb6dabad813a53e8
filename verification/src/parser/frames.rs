//! The frames that the parser keeps while it compiles nested constructs.

use vstd::prelude::*;
use crate::syntax::TokenType;

verus! {

/// An array literal being compiled.
#[derive(Debug)]
pub struct ArrayFrame {
    pub depth: u32,
    pub output_len: usize,
    pub create: bool,
}

/// A class definition being compiled.
#[derive(Debug, Clone)]
pub struct ClassFrame {
    pub name: String,
    pub start_ip: usize,
    pub end_ip: usize,
    pub initial_depth: u32,
    pub method_count: u32,
}

/// A conditional or a loop being compiled: the jumps to patch and the
/// temporaries to drop at its end.
#[derive(Debug)]
pub struct CondFrame {
    pub cond_jump: Option<usize>,
    pub exit_jumps: Vec<usize>,
    pub if_jumps: Vec<usize>,
    pub current_type: TokenType,
    pub loop_start: Option<usize>,
    pub temp_vars_to_cleanup: Vec<(u8, u32)>,
    pub expr_count: usize,
    pub count: usize,
    pub pop_at_end: bool,
}

/// A call being compiled.
#[derive(Debug)]
pub struct FuncFrame {
    pub depth: u32,
    pub output_len: usize,
    pub is_method: bool,
    pub is_dollar: bool,
    pub is_explicit_call: bool,
    pub name: Option<String>,
}

/// A function definition being compiled.
#[derive(Debug)]
pub struct FunctionDefFrame {
    pub name: String,
    pub start_ip: usize,
    pub end_ip: usize,
    pub param_count: u32,
    pub return_count: u32,
    pub initial_depth: u32,
    pub function_id: u32,
    pub is_global: bool,
    pub is_method: bool,
}

/// A parenthesised group being compiled.
#[derive(Debug)]
pub struct GroupFrame {
    pub depth: u32,
    pub output_len: usize,
}

/// A chain of `and` / `or` being compiled: the jumps that short-circuit it.
#[derive(Debug)]
pub struct LogicFrame {
    pub depth: u32,
    pub jumps: Vec<usize>,
    pub count: usize,
}

/// An object literal being compiled.
#[derive(Debug)]
pub struct ObjectFrame {
    pub depth: u32,
    pub output_len: usize,
    pub create: bool,
}

} // verus!
