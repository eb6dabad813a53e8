//! A stack of levels, used by the lexer for indentation levels.

use vstd::prelude::*;

verus! {

/// A stack of levels. The current level is the top one, or 0 when the stack
/// is empty.
#[derive(Debug)]
pub struct Counter {
    levels: Vec<usize>,
}

impl View for Counter {
    type V = Seq<usize>;

    closed spec fn view(&self) -> Seq<usize> {
        self.levels@
    }
}

/// The current level of a stack of levels.
pub open spec fn top_level(levels: Seq<usize>) -> usize {
    if levels.len() > 0 {
        levels.last()
    } else {
        0
    }
}

impl Counter {
    /// An empty stack.
    pub fn new() -> (c: Counter)
        ensures
            c@ == Seq::<usize>::empty(),
    {
        Counter { levels: Vec::new() }
    }

    /// The current level.
    pub fn get(&self) -> (r: usize)
        ensures
            r == top_level(self@),
    {
        let n = self.levels.len();
        if n > 0 {
            self.levels[n - 1]
        } else {
            0
        }
    }

    /// Enters a new level.
    pub fn push(&mut self, level: usize)
        ensures
            final(self)@ == old(self)@.push(level),
    {
        self.levels.push(level);
    }

    /// Leaves the current level; nothing happens on an empty stack.
    pub fn leave(&mut self)
        ensures
            final(self)@ == (if old(self)@.len() > 0 {
                old(self)@.drop_last()
            } else {
                old(self)@
            }),
    {
        let _ = self.levels.pop();
    }

}

} // verus!
