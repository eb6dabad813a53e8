//! The state that the parser keeps while it compiles: the code emitted so
//! far, where each instruction came from, the operator stack and the frames
//! of the constructs that are open.

use vstd::prelude::*;
use crate::syntax::Token;
use crate::parser::frames::{
    ArrayFrame, ClassFrame, CondFrame, FuncFrame, FunctionDefFrame, GroupFrame, LogicFrame,
    ObjectFrame,
};

verus! {

/// The parser's working state. `source_map` lists the locations recorded for
/// instructions, as (instruction index, line, column), in the order they
/// were recorded.
pub struct ParserContext<'a> {
    pub instructions: Vec<u32>,
    pub source_map: Vec<(usize, usize, usize)>,
    pub op_stack: Vec<Token>,
    pub cond_frames: Vec<CondFrame>,
    pub logic_frames: Vec<LogicFrame>,
    pub func_frames: Vec<FuncFrame>,
    pub function_def_frames: Vec<FunctionDefFrame>,
    pub array_frames: Vec<ArrayFrame>,
    pub object_frames: Vec<ObjectFrame>,
    pub class_frames: Vec<ClassFrame>,
    pub group_frames: Vec<GroupFrame>,
    pub source: &'a str,
    pub allow_main: bool,
}

/// The last depth of a stack of frames is `depth`.
pub open spec fn top_depth_is(depths: Seq<u32>, depth: u32) -> bool {
    depths.len() > 0 && depths.last() == depth
}

/// The depths of the call frames.
pub open spec fn call_depths(frames: Seq<FuncFrame>) -> Seq<u32> {
    frames.map_values(|f: FuncFrame| f.depth)
}

/// The depths of the object frames.
pub open spec fn object_depths(frames: Seq<ObjectFrame>) -> Seq<u32> {
    frames.map_values(|f: ObjectFrame| f.depth)
}

/// The depths of the array frames.
pub open spec fn array_depths(frames: Seq<ArrayFrame>) -> Seq<u32> {
    frames.map_values(|f: ArrayFrame| f.depth)
}

/// The depths of the group frames.
pub open spec fn group_depths(frames: Seq<GroupFrame>) -> Seq<u32> {
    frames.map_values(|f: GroupFrame| f.depth)
}

/// The depths of the logic frames.
pub open spec fn logic_depths(frames: Seq<LogicFrame>) -> Seq<u32> {
    frames.map_values(|f: LogicFrame| f.depth)
}

/// The location that emitting after `token` records, if any: its line and
/// column, when both are known and positive.
pub open spec fn recorded_location(token: Option<Token>) -> Option<(usize, usize)> {
    match token {
        Some(t) => {
            let line: u32 = match t.line { Some(l) => l, None => 0 };
            let col: u32 = match t.column { Some(c) => c, None => 0 };
            if line > 0 && col > 0 {
                Some((line as usize, col as usize))
            } else {
                None
            }
        },
        None => None,
    }
}

impl<'a> ParserContext<'a> {
    /// `other` differs from `self` at most in the frames of calls, objects,
    /// arrays and groups.
    pub open spec fn same_but_nesting(self, other: Self) -> bool {
        &&& other.instructions@ == self.instructions@
        &&& other.source_map@ == self.source_map@
        &&& other.op_stack@ == self.op_stack@
        &&& other.cond_frames@ == self.cond_frames@
        &&& other.logic_frames@ == self.logic_frames@
        &&& other.function_def_frames@ == self.function_def_frames@
        &&& other.class_frames@ == self.class_frames@
        &&& other.source == self.source
        &&& other.allow_main == self.allow_main
    }

    /// An empty state for compiling `source`, whose tokens number
    /// `tokens_len`: no code, no frames, and a `main` function allowed.
    pub fn new(tokens_len: usize, source: &'a str) -> (r: Self)
        ensures
            r.instructions@.len() == 0,
            r.source_map@.len() == 0,
            r.op_stack@.len() == 0,
            r.cond_frames@.len() == 0,
            r.logic_frames@.len() == 0,
            r.func_frames@.len() == 0,
            r.function_def_frames@.len() == 0,
            r.array_frames@.len() == 0,
            r.object_frames@.len() == 0,
            r.class_frames@.len() == 0,
            r.group_frames@.len() == 0,
            r.source == source,
            r.allow_main,
    {
        ParserContext {
            instructions: Vec::with_capacity(tokens_len),
            source_map: Vec::new(),
            op_stack: Vec::with_capacity(32),
            cond_frames: Vec::with_capacity(8),
            logic_frames: Vec::with_capacity(8),
            func_frames: Vec::with_capacity(16),
            function_def_frames: Vec::with_capacity(16),
            array_frames: Vec::with_capacity(16),
            object_frames: Vec::with_capacity(16),
            class_frames: Vec::with_capacity(16),
            group_frames: Vec::with_capacity(16),
            source,
            allow_main: true,
        }
    }

    /// The innermost call frame, taken off its stack, when it was opened at
    /// `depth`; otherwise `None`, and nothing changes.
    pub fn call_with_depth(&mut self, depth: u32) -> (r: Option<FuncFrame>)
        ensures
            old(self).same_but_nesting(*final(self)),
            final(self).object_frames@ == old(self).object_frames@,
            final(self).array_frames@ == old(self).array_frames@,
            final(self).group_frames@ == old(self).group_frames@,
            if top_depth_is(call_depths(old(self).func_frames@), depth) {
                &&& r == Some(old(self).func_frames@.last())
                &&& final(self).func_frames@ == old(self).func_frames@.drop_last()
            } else {
                &&& r is None
                &&& final(self).func_frames@ == old(self).func_frames@
            },
    {
        let n = self.func_frames.len();
        if n == 0 || self.func_frames[n - 1].depth != depth {
            return None;
        }
        self.func_frames.pop()
    }

    /// The innermost object frame, taken off its stack, when it was opened
    /// at `depth`; otherwise `None`, and nothing changes.
    pub fn object_with_depth(&mut self, depth: u32) -> (r: Option<ObjectFrame>)
        ensures
            old(self).same_but_nesting(*final(self)),
            final(self).func_frames@ == old(self).func_frames@,
            final(self).array_frames@ == old(self).array_frames@,
            final(self).group_frames@ == old(self).group_frames@,
            if top_depth_is(object_depths(old(self).object_frames@), depth) {
                &&& r == Some(old(self).object_frames@.last())
                &&& final(self).object_frames@ == old(self).object_frames@.drop_last()
            } else {
                &&& r is None
                &&& final(self).object_frames@ == old(self).object_frames@
            },
    {
        let n = self.object_frames.len();
        if n == 0 || self.object_frames[n - 1].depth != depth {
            return None;
        }
        self.object_frames.pop()
    }

    /// The innermost array frame, taken off its stack, when it was opened at
    /// `depth`; otherwise `None`, and nothing changes.
    pub fn array_with_depth(&mut self, depth: u32) -> (r: Option<ArrayFrame>)
        ensures
            old(self).same_but_nesting(*final(self)),
            final(self).func_frames@ == old(self).func_frames@,
            final(self).object_frames@ == old(self).object_frames@,
            final(self).group_frames@ == old(self).group_frames@,
            if top_depth_is(array_depths(old(self).array_frames@), depth) {
                &&& r == Some(old(self).array_frames@.last())
                &&& final(self).array_frames@ == old(self).array_frames@.drop_last()
            } else {
                &&& r is None
                &&& final(self).array_frames@ == old(self).array_frames@
            },
    {
        let n = self.array_frames.len();
        if n == 0 || self.array_frames[n - 1].depth != depth {
            return None;
        }
        self.array_frames.pop()
    }

    /// The innermost group frame, taken off its stack, when it was opened at
    /// `depth`; otherwise `None`, and nothing changes.
    pub fn group_with_depth(&mut self, depth: u32) -> (r: Option<GroupFrame>)
        ensures
            old(self).same_but_nesting(*final(self)),
            final(self).func_frames@ == old(self).func_frames@,
            final(self).object_frames@ == old(self).object_frames@,
            final(self).array_frames@ == old(self).array_frames@,
            if top_depth_is(group_depths(old(self).group_frames@), depth) {
                &&& r == Some(old(self).group_frames@.last())
                &&& final(self).group_frames@ == old(self).group_frames@.drop_last()
            } else {
                &&& r is None
                &&& final(self).group_frames@ == old(self).group_frames@
            },
    {
        let n = self.group_frames.len();
        if n == 0 || self.group_frames[n - 1].depth != depth {
            return None;
        }
        self.group_frames.pop()
    }

    /// Whether the innermost call frame was opened at `depth`.
    pub fn is_call_depth(&self, depth: u32) -> (r: bool)
        ensures
            r == top_depth_is(call_depths(self.func_frames@), depth),
    {
        let n = self.func_frames.len();
        n > 0 && self.func_frames[n - 1].depth == depth
    }

    /// Whether the innermost object frame was opened at `depth`.
    pub fn is_object_depth(&self, depth: u32) -> (r: bool)
        ensures
            r == top_depth_is(object_depths(self.object_frames@), depth),
    {
        let n = self.object_frames.len();
        n > 0 && self.object_frames[n - 1].depth == depth
    }

    /// Whether the innermost array frame was opened at `depth`.
    pub fn is_array_depth(&self, depth: u32) -> (r: bool)
        ensures
            r == top_depth_is(array_depths(self.array_frames@), depth),
    {
        let n = self.array_frames.len();
        n > 0 && self.array_frames[n - 1].depth == depth
    }

    /// Whether the innermost group frame was opened at `depth`.
    pub fn is_group_depth(&self, depth: u32) -> (r: bool)
        ensures
            r == top_depth_is(group_depths(self.group_frames@), depth),
    {
        let n = self.group_frames.len();
        n > 0 && self.group_frames[n - 1].depth == depth
    }

    /// Whether the innermost logic frame was opened at `depth`.
    pub fn is_logic_depth(&self, depth: u32) -> (r: bool)
        ensures
            r == top_depth_is(logic_depths(self.logic_frames@), depth),
    {
        let n = self.logic_frames.len();
        n > 0 && self.logic_frames[n - 1].depth == depth
    }

    /// Appends the instruction `inst`, and records for it the line and column
    /// of `token` when both are known and positive.
    pub fn emit(&mut self, inst: u32, token: Option<&Token>)
        ensures
            final(self).instructions@ == old(self).instructions@.push(inst),
            final(self).source_map@ == match recorded_location(match token { Some(t) => Some(*t), None => None }) {
                Some((line, col)) => old(self).source_map@.push((old(self).instructions@.len() as usize, line, col)),
                None => old(self).source_map@,
            },
            final(self).op_stack@ == old(self).op_stack@,
            final(self).cond_frames@ == old(self).cond_frames@,
            final(self).logic_frames@ == old(self).logic_frames@,
            final(self).func_frames@ == old(self).func_frames@,
            final(self).function_def_frames@ == old(self).function_def_frames@,
            final(self).array_frames@ == old(self).array_frames@,
            final(self).object_frames@ == old(self).object_frames@,
            final(self).class_frames@ == old(self).class_frames@,
            final(self).group_frames@ == old(self).group_frames@,
            final(self).source == old(self).source,
            final(self).allow_main == old(self).allow_main,
    {
        if let Some(tok) = token {
            let line: u32 = match tok.line { Some(l) => l, None => 0 };
            let col: u32 = match tok.column { Some(c) => c, None => 0 };
            if line > 0 && col > 0 {
                let at = self.instructions.len();
                self.source_map.push((at, line as usize, col as usize));
            }
        }
        self.instructions.push(inst);
    }
}

} // verus!
