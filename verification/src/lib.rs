//! Control-flow-graph construction for a small instruction-stream IR.
//!
//! A function's body is a flat sequence of labels and instructions. The
//! partitioner in [`blocks`] cuts that stream into maximal basic blocks, the
//! deriver in [`edges`] turns the block order and each block's terminating
//! instruction into directed edges, and [`dot`] renders the resulting graph
//! as a textual `digraph`.

use vstd::prelude::*;

pub mod ir;
pub mod blocks;
pub mod edges;
pub mod dot;

use crate::ir::ControlFlowGraph;
use crate::ir::Function;

verus! {

/// Builds one function's control-flow graph: the basic blocks of its code
/// stream, and the edges those blocks imply.
pub fn build_cfg(function: &Function) -> (cfg: ControlFlowGraph)
    ensures
        cfg@.blocks == blocks::blocks_of(function.instrs.deep_view()),
        cfg@.edges == edges::edges_of(blocks::blocks_of(function.instrs.deep_view())),
{
    let blocks = blocks::get_blocks(function);
    let edges = edges::get_cfg_edges(&blocks);
    ControlFlowGraph { blocks, edges }
}

} // verus!
