//! The renderer: serializes a control-flow graph as a textual `digraph`.
//!
//! One node line per block in block order, then one edge line per edge in
//! derivation order.

use vstd::prelude::*;

use crate::ir::ControlFlowGraph;
use crate::ir::SpecBlock;
use crate::ir::SpecEdge;
use crate::ir::SpecGraph;

verus! {

/// The node declaration lines of the rendering, one per block in order.
pub open spec fn node_lines(blocks: Seq<SpecBlock>) -> Seq<char>
    decreases blocks.len(),
{
    if blocks.len() == 0 {
        Seq::empty()
    } else {
        node_lines(blocks.drop_last()) + "\n\t"@ + blocks.last().label + ";"@
    }
}

/// The edge declaration lines of the rendering, one per edge in order.
pub open spec fn edge_lines(edges: Seq<SpecEdge>) -> Seq<char>
    decreases edges.len(),
{
    if edges.len() == 0 {
        Seq::empty()
    } else {
        edge_lines(edges.drop_last()) + "\n\t"@ + edges.last().from + " -> "@ + edges.last().to
            + ";"@
    }
}

/// The whole textual rendering of one function's graph.
pub open spec fn dot_of(g: SpecGraph, name: Seq<char>) -> Seq<char> {
    "digraph "@ + name + " {"@ + node_lines(g.blocks) + edge_lines(g.edges) + "\n}"@
}

/// Renders a control-flow graph as a `digraph` block named after the
/// function.
pub fn to_dot(cfg: &ControlFlowGraph, name: &String) -> (dot: String)
    ensures
        dot@ == dot_of(cfg@, name@),
{
    let ghost bv: Seq<SpecBlock> = cfg.blocks.deep_view();
    let ghost ev: Seq<SpecEdge> = cfg.edges.deep_view();
    let mut dot: String = "digraph ".to_owned();
    dot.append(name.as_str());
    dot.append(" {");
    let ghost head = "digraph "@ + name@ + " {"@;
    assert(dot@ =~= head);
    let n = cfg.blocks.len();
    for i in 0..n
        invariant
            n == cfg.blocks.len(),
            bv == cfg.blocks.deep_view(),
            dot@ =~= head + node_lines(bv.take(i as int)),
    {
        assert(cfg.blocks.deep_view()[i as int] == cfg.blocks@[i as int]@);
        let block = &cfg.blocks[i];
        dot.append("\n\t");
        dot.append(block.label.as_str());
        dot.append(";");
        proof {
            assert(bv.take(i + 1).drop_last() =~= bv.take(i as int));
            assert(bv.take(i + 1).last() == bv[i as int]);
            assert(dot@ =~= head + node_lines(bv.take(i + 1)));
        }
    }
    proof {
        assert(bv.take(n as int) =~= bv);
    }
    let ghost mid = head + node_lines(bv);
    let m = cfg.edges.len();
    for i in 0..m
        invariant
            m == cfg.edges.len(),
            ev == cfg.edges.deep_view(),
            dot@ =~= mid + edge_lines(ev.take(i as int)),
    {
        assert(cfg.edges.deep_view()[i as int] == cfg.edges@[i as int]@);
        let edge = &cfg.edges[i];
        dot.append("\n\t");
        dot.append(edge.from.as_str());
        dot.append(" -> ");
        dot.append(edge.to.as_str());
        dot.append(";");
        proof {
            assert(ev.take(i + 1).drop_last() =~= ev.take(i as int));
            assert(ev.take(i + 1).last() == ev[i as int]);
            assert(dot@ =~= mid + edge_lines(ev.take(i + 1)));
        }
    }
    proof {
        assert(ev.take(m as int) =~= ev);
    }
    dot.append("\n}");
    assert(dot@ =~= dot_of(cfg@, name@));
    dot
}

} // verus!
