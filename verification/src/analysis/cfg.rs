//! The control-flow graph of a compiled program: basic blocks, the edges
//! between them, and a subgraph per function.

use vstd::prelude::*;
use crate::analysis::bytecode::InstructionInfo;

verus! {

/// A basic block: its instructions, the source they come from, its kind
/// (condition, process, terminal, ...), and the function it calls, if any.
#[derive(Debug, Clone)]
pub struct CFGNode {
    pub id: u32,
    pub start_ip: u32,
    pub end_ip: u32,
    pub instructions: Vec<InstructionInfo>,
    pub source_text: String,
    pub node_type: String,
    pub called_function_ref: Option<u64>,
}

/// A directed edge between two blocks, with an optional label (such as
/// "true" or "false" for a conditional branch).
#[derive(Debug, Clone)]
pub struct CFGEdge {
    pub from: u32,
    pub to: u32,
    pub label: String,
}

/// The control flow of a function: its blocks and edges.
#[derive(Debug, Clone)]
pub struct CFGSubgraph {
    pub id: String,
    pub name: String,
    pub function_ref: Option<u64>,
    pub nodes: Vec<CFGNode>,
    pub edges: Vec<CFGEdge>,
}

/// The control-flow graph: the main graph and a subgraph per function.
#[derive(Debug, Clone)]
pub struct ControlFlowGraph {
    pub nodes: Vec<CFGNode>,
    pub edges: Vec<CFGEdge>,
    pub subgraphs: Vec<CFGSubgraph>,
}

/// The index of the first element of `s`, from `k` on, that passes `ip`
/// (`s.len()` when there is none).
pub open spec fn first_above(s: Seq<u32>, ip: u32, k: int) -> int
    decreases s.len() - k,
{
    if 0 <= k < s.len() && s[k] <= ip {
        first_above(s, ip, k + 1)
    } else {
        k
    }
}

/// The leader of the block of address `ip`: the last of the leaders read in
/// order up to the first one past `ip`; 0 when the first one is past it.
pub open spec fn leader_of(leaders: Seq<u32>, ip: u32) -> u32 {
    let k = first_above(leaders, ip, 0);
    if k == 0 {
        0
    } else {
        leaders[k - 1]
    }
}

/// The index of the first element of `s`, from `k` on, greater than
/// `current` (`s.len()` when there is none).
pub open spec fn first_greater(s: Seq<u32>, current: u32, k: int) -> int
    decreases s.len() - k,
{
    if 0 <= k < s.len() && s[k] <= current {
        first_greater(s, current, k + 1)
    } else {
        k
    }
}

/// The index of the first edge of `edges`, from `k` on, that leaves block
/// `from` (`edges.len()` when there is none).
pub open spec fn first_edge_from(edges: Seq<CFGEdge>, from: u32, k: int) -> int
    decreases edges.len() - k,
{
    if 0 <= k < edges.len() && edges[k].from != from {
        first_edge_from(edges, from, k + 1)
    } else {
        k
    }
}

/// The leader of the block that holds address `ip`, given the leaders in
/// increasing order.
pub fn find_leader(leaders: &[u32], ip: u32) -> (r: u32)
    ensures
        r == leader_of(leaders@, ip),
{
    let mut last_leader: u32 = 0;
    let mut k: usize = 0;
    while k < leaders.len() && leaders[k] <= ip
        invariant
            k <= leaders@.len(),
            first_above(leaders@, ip, 0) == first_above(leaders@, ip, k as int),
            last_leader == (if k == 0 {
                0
            } else {
                leaders@[k - 1]
            }),
        decreases leaders@.len() - k,
    {
        last_leader = leaders[k];
        k = k + 1;
    }
    last_leader
}

/// The first leader, in order, greater than `current_leader`.
pub fn get_next_leader(leaders: &[u32], current_leader: u32) -> (r: Option<u32>)
    ensures
        ({
            let k = first_greater(leaders@, current_leader, 0);
            r == (if k < leaders@.len() {
                Some(leaders@[k])
            } else {
                None
            })
        }),
{
    let mut k: usize = 0;
    while k < leaders.len()
        invariant
            k <= leaders@.len(),
            first_greater(leaders@, current_leader, 0) == first_greater(leaders@, current_leader, k as int),
        decreases leaders@.len() - k,
    {
        if leaders[k] > current_leader {
            return Some(leaders[k]);
        }
        k = k + 1;
    }
    None
}

/// The block that the first edge leaving block `from_id` goes to.
pub fn find_raw_successor(from_id: u32, raw_edges: &[CFGEdge]) -> (r: Option<u32>)
    ensures
        ({
            let k = first_edge_from(raw_edges@, from_id, 0);
            r == (if k < raw_edges@.len() {
                Some(raw_edges@[k].to)
            } else {
                None
            })
        }),
{
    let mut k: usize = 0;
    while k < raw_edges.len()
        invariant
            k <= raw_edges@.len(),
            first_edge_from(raw_edges@, from_id, 0) == first_edge_from(raw_edges@, from_id, k as int),
        decreases raw_edges@.len() - k,
    {
        if raw_edges[k].from == from_id {
            return Some(raw_edges[k].to);
        }
        k = k + 1;
    }
    None
}

} // verus!
