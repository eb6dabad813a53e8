//! The description of a compiled program: its constants, functions and
//! instructions, each instruction with the source position it comes from.

use vstd::prelude::*;

verus! {

/// A constant of the constant pool.
#[derive(Debug)]
pub struct ConstantInfo {
    pub index: u32,
    pub const_type: String,
    pub value: String,
    pub raw: Option<u64>,
}

/// A compiled function: its index, its arity, and its instructions
/// `start_ip..end_ip`.
#[derive(Debug)]
pub struct FunctionInfo {
    pub index: u32,
    pub param_count: u32,
    pub return_count: u32,
    pub start_ip: u32,
    pub end_ip: u32,
}

/// An instruction: its address, opcode and operand, their description, and
/// the source position (line, column) and the last address of its line.
#[derive(Debug, Clone)]
pub struct InstructionInfo {
    pub ip: u32,
    pub opcode: u8,
    pub opcode_name: String,
    pub operand: u32,
    pub operand_description: String,
    pub source_line: u32,
    pub source_column: u32,
    pub end_ip_for_line: u32,
}

/// The description of a compiled program.
#[derive(Debug)]
pub struct BytecodeInfo {
    pub constants: Vec<ConstantInfo>,
    pub functions: Vec<FunctionInfo>,
    pub instructions: Vec<InstructionInfo>,
    pub global_count: u32,
    pub instruction_count: u32,
}

/// The instructions of `s` that come from source line `line`, in order.
pub open spec fn instructions_on_line(s: Seq<InstructionInfo>, line: u32) -> Seq<InstructionInfo>
    decreases s.len(),
{
    if s.len() == 0 {
        s
    } else if s.last().source_line == line {
        instructions_on_line(s.drop_last(), line).push(s.last())
    } else {
        instructions_on_line(s.drop_last(), line)
    }
}

impl BytecodeInfo {
    /// The instructions that come from source line `line`, in order.
    pub fn get_instructions_at_line(&self, line: u32) -> (r: Vec<&InstructionInfo>)
        ensures
            r@.map_values(|x: &InstructionInfo| *x) == instructions_on_line(self.instructions@, line),
    {
        let mut r: Vec<&InstructionInfo> = Vec::new();
        let mut k: usize = 0;
        while k < self.instructions.len()
            invariant
                k <= self.instructions@.len(),
                r@.map_values(|x: &InstructionInfo| *x) == instructions_on_line(
                    self.instructions@.take(k as int),
                    line,
                ),
            decreases self.instructions@.len() - k,
        {
            let ghost before = r@;
            let instr = &self.instructions[k];
            assert(self.instructions@.take(k + 1).drop_last() =~= self.instructions@.take(k as int));
            if instr.source_line == line {
                r.push(instr);
                assert(r@.map_values(|x: &InstructionInfo| *x) =~= before.map_values(
                    |x: &InstructionInfo| *x,
                ).push(*instr));
            }
            k = k + 1;
        }
        assert(self.instructions@.take(k as int) =~= self.instructions@);
        r
    }

    /// The first and last-plus-one addresses of function `function_index`,
    /// when there is one.
    pub fn get_function_range(&self, function_index: u32) -> (r: Option<(u32, u32)>)
        ensures
            r == (if function_index < self.functions@.len() {
                Some(
                    (
                        self.functions@[function_index as int].start_ip,
                        self.functions@[function_index as int].end_ip,
                    ),
                )
            } else {
                None
            }),
    {
        let k = function_index as usize;
        if k < self.functions.len() {
            let f = &self.functions[k];
            Some((f.start_ip, f.end_ip))
        } else {
            None
        }
    }

    /// The instruction at address `ip`, when there is one.
    pub fn get_instruction_at(&self, ip: u32) -> (r: Option<&InstructionInfo>)
        ensures
            r is Some <==> ip < self.instructions@.len(),
            r matches Some(x) ==> *x == self.instructions@[ip as int],
    {
        let k = ip as usize;
        if k < self.instructions.len() {
            Some(&self.instructions[k])
        } else {
            None
        }
    }
}

} // verus!
