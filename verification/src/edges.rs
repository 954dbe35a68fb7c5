//! The edge deriver: turns an ordered block sequence into the directed edges
//! of the control-flow graph.
//!
//! A block with no instructions contributes no edges. A block whose last
//! instruction is an `Effect` carrying labels contributes one edge per
//! carried label, in order, and nothing else. Any other non-empty block falls
//! through to the block after it, when one exists.

use vstd::prelude::*;

use crate::ir::Block;
use crate::ir::Edge;
use crate::ir::Instruction;
use crate::ir::SpecBlock;
use crate::ir::SpecEdge;
use crate::ir::is_transfer;
use crate::ir::transfer_labels;

verus! {

/// The label of the block after position `p`, if any.
pub open spec fn next_label(blocks: Seq<SpecBlock>, p: int) -> Option<Seq<char>> {
    if p + 1 < blocks.len() {
        Option::Some(blocks[p + 1].label)
    } else {
        Option::None
    }
}

/// One edge from `from` to each of `labels`, in order.
pub open spec fn label_edges(from: Seq<char>, labels: Seq<Seq<char>>) -> Seq<SpecEdge> {
    Seq::new(labels.len(), |i: int| SpecEdge { from: from, to: labels[i] })
}

/// The edges one block contributes, given the label of the block after it.
pub open spec fn block_out_edges(b: SpecBlock, next: Option<Seq<char>>) -> Seq<SpecEdge> {
    if b.instrs.len() == 0 {
        Seq::empty()
    } else if is_transfer(b.instrs.last()) {
        label_edges(b.label, transfer_labels(b.instrs.last()))
    } else {
        match next {
            Option::Some(label) => seq![SpecEdge { from: b.label, to: label }],
            Option::None => Seq::empty(),
        }
    }
}

/// The edges contributed by the blocks from position `p` on, in block order.
pub open spec fn edges_from(blocks: Seq<SpecBlock>, p: int) -> Seq<SpecEdge>
    decreases blocks.len() - p,
{
    if 0 <= p < blocks.len() {
        block_out_edges(blocks[p], next_label(blocks, p)) + edges_from(blocks, p + 1)
    } else {
        Seq::empty()
    }
}

/// The edge sequence of a whole block sequence.
pub open spec fn edges_of(blocks: Seq<SpecBlock>) -> Seq<SpecEdge> {
    edges_from(blocks, 0)
}

/// A filter keeps nothing when no element satisfies the predicate.
proof fn lemma_filter_none<A>(s: Seq<A>, pred: spec_fn(A) -> bool)
    requires
        forall|i: int| 0 <= i < s.len() ==> !pred(#[trigger] s[i]),
    ensures
        s.filter(pred) == Seq::<A>::empty(),
    decreases s.len(),
{
    reveal(Seq::filter);
    if s.len() > 0 {
        lemma_filter_none(s.drop_last(), pred);
    }
}

/// A filter keeps everything when every element satisfies the predicate.
proof fn lemma_filter_all<A>(s: Seq<A>, pred: spec_fn(A) -> bool)
    requires
        forall|i: int| 0 <= i < s.len() ==> pred(#[trigger] s[i]),
    ensures
        s.filter(pred) == s,
    decreases s.len(),
{
    reveal(Seq::filter);
    if s.len() > 0 {
        lemma_filter_all(s.drop_last(), pred);
        assert(s.drop_last().push(s.last()) =~= s);
    }
}

/// Every edge a block contributes leaves from that block's label.
proof fn lemma_block_out_edges_from(b: SpecBlock, next: Option<Seq<char>>)
    ensures
        forall|k: int|
            0 <= k < block_out_edges(b, next).len() ==> (#[trigger] block_out_edges(b, next)[k]).from
                == b.label,
{
}

/// When a block's label is unique among the blocks, the edges leaving that
/// label are exactly the ones this block contributes, in their order.
proof fn lemma_edges_from_of_unique(blocks: Seq<SpecBlock>, p: int, q: int)
    requires
        0 <= p < blocks.len(),
        0 <= q <= blocks.len(),
        forall|j: int|
            0 <= j < blocks.len() && j != p ==> (#[trigger] blocks[j]).label != blocks[p].label,
    ensures
        edges_from(blocks, q).filter(|e: SpecEdge| e.from == blocks[p].label) == (if q <= p {
            block_out_edges(blocks[p], next_label(blocks, p))
        } else {
            Seq::<SpecEdge>::empty()
        }),
    decreases blocks.len() - q,
{
    let pred = |e: SpecEdge| e.from == blocks[p].label;
    if q == blocks.len() {
        lemma_filter_none(edges_from(blocks, q), pred);
    } else {
        lemma_edges_from_of_unique(blocks, p, q + 1);
        let own = block_out_edges(blocks[q], next_label(blocks, q));
        let rest = edges_from(blocks, q + 1);
        assert(edges_from(blocks, q) == own + rest);
        Seq::filter_distributes_over_add(own, rest, pred);
        lemma_block_out_edges_from(blocks[q], next_label(blocks, q));
        if q == p {
            lemma_filter_all(own, pred);
            assert(own.filter(pred) + rest.filter(pred) =~= own);
        } else {
            assert(forall|k: int| 0 <= k < own.len() ==> !pred(#[trigger] own[k]));
            lemma_filter_none(own, pred);
            assert(own.filter(pred) + rest.filter(pred) =~= rest.filter(pred));
        }
    }
}

/// The edges of the graph that leave a uniquely-labelled block are exactly
/// that block's own contribution.
pub proof fn lemma_edges_of_block(blocks: Seq<SpecBlock>, p: int)
    requires
        0 <= p < blocks.len(),
        forall|j: int|
            0 <= j < blocks.len() && j != p ==> (#[trigger] blocks[j]).label != blocks[p].label,
    ensures
        edges_of(blocks).filter(|e: SpecEdge| e.from == blocks[p].label) == block_out_edges(
            blocks[p],
            next_label(blocks, p),
        ),
{
    lemma_edges_from_of_unique(blocks, p, 0);
}

/// No edge of the graph leaves a given label when the uniquely-labelled
/// block carrying it contributes none.
proof fn lemma_no_edges_from(blocks: Seq<SpecBlock>, p: int)
    requires
        0 <= p < blocks.len(),
        forall|j: int|
            0 <= j < blocks.len() && j != p ==> (#[trigger] blocks[j]).label != blocks[p].label,
        block_out_edges(blocks[p], next_label(blocks, p)) == Seq::<SpecEdge>::empty(),
    ensures
        forall|k: int|
            0 <= k < edges_of(blocks).len() ==> (#[trigger] edges_of(blocks)[k]).from
                != blocks[p].label,
{
    let pred = |e: SpecEdge| e.from == blocks[p].label;
    lemma_edges_of_block(blocks, p);
    assert forall|k: int|
        0 <= k < edges_of(blocks).len() implies (#[trigger] edges_of(blocks)[k]).from
        != blocks[p].label by {
        if edges_of(blocks)[k].from == blocks[p].label {
            edges_of(blocks).lemma_filter_contains(pred, k);
        }
    }
}

/// Empty-block rule: a block with no instructions contributes no outgoing
/// edge, so no edge of the graph leaves its label when that label is unique.
pub proof fn lemma_empty_block_no_edges(blocks: Seq<SpecBlock>, p: int)
    requires
        0 <= p < blocks.len(),
        forall|j: int|
            0 <= j < blocks.len() && j != p ==> (#[trigger] blocks[j]).label != blocks[p].label,
        blocks[p].instrs.len() == 0,
    ensures
        forall|k: int|
            0 <= k < edges_of(blocks).len() ==> (#[trigger] edges_of(blocks)[k]).from
                != blocks[p].label,
{
    lemma_no_edges_from(blocks, p);
}

/// Terminal rule: the last block never falls through. When it does not end
/// in an explicit transfer either, no edge of the graph leaves its label at
/// all, provided that label is unique.
pub proof fn lemma_last_block_no_fallthrough(blocks: Seq<SpecBlock>)
    requires
        blocks.len() > 0,
        forall|j: int|
            0 <= j < blocks.len() - 1 ==> (#[trigger] blocks[j]).label != blocks.last().label,
        blocks.last().instrs.len() > 0 ==> !is_transfer(blocks.last().instrs.last()),
    ensures
        forall|k: int|
            0 <= k < edges_of(blocks).len() ==> (#[trigger] edges_of(blocks)[k]).from
                != blocks.last().label,
{
    let p = blocks.len() - 1;
    assert(block_out_edges(blocks[p], next_label(blocks, p)) =~= Seq::<SpecEdge>::empty());
    lemma_no_edges_from(blocks, p);
}

/// Explicit-transfer exhaustiveness: when a uniquely-labelled block ends in
/// an `Effect` carrying labels, the edges leaving it are exactly one edge to
/// each carried label, in the carried order — in particular no fallthrough
/// edge.
pub proof fn lemma_explicit_transfer_exhaustive(blocks: Seq<SpecBlock>, p: int)
    requires
        0 <= p < blocks.len(),
        forall|j: int|
            0 <= j < blocks.len() && j != p ==> (#[trigger] blocks[j]).label != blocks[p].label,
        blocks[p].instrs.len() > 0,
        is_transfer(blocks[p].instrs.last()),
    ensures
        edges_of(blocks).filter(|e: SpecEdge| e.from == blocks[p].label) == label_edges(
            blocks[p].label,
            transfer_labels(blocks[p].instrs.last()),
        ),
{
    lemma_edges_of_block(blocks, p);
}

/// Derives the control-flow edges of an ordered block sequence.
pub fn get_cfg_edges(blocks: &Vec<Block>) -> (edges: Vec<Edge>)
    ensures
        edges.deep_view() == edges_of(blocks.deep_view()),
{
    let ghost bv: Seq<SpecBlock> = blocks.deep_view();
    let mut edges: Vec<Edge> = Vec::new();
    let n = blocks.len();
    for p in 0..n
        invariant
            n == blocks.len(),
            bv == blocks.deep_view(),
            edges.deep_view() + edges_from(bv, p as int) =~= edges_of(bv),
    {
        let ghost pre = edges.deep_view();
        let block = &blocks[p];
        assert(block@ == bv[p as int]);
        let m = block.instrs.len();
        if m > 0 {
            assert(block.instrs.deep_view().len() == m);
            let last = &block.instrs[m - 1];
            assert(last@ == bv[p as int].instrs.last());
            let is_labeled_effect = match last {
                Instruction::Effect { labels, .. } => labels.len() > 0,
                _ => false,
            };
            if is_labeled_effect {
                match last {
                    Instruction::Effect { labels, .. } => {
                        let ghost lv = transfer_labels(bv[p as int].instrs.last());
                        assert(labels.deep_view() == lv);
                        let k = labels.len();
                        for j in 0..k
                            invariant
                                k == labels.len(),
                                lv == labels.deep_view(),
                                lv.len() == k,
                                bv == blocks.deep_view(),
                                0 <= (p as int) < bv.len(),
                                block.label@ == bv[p as int].label,
                                edges.deep_view() =~= pre + label_edges(
                                    bv[p as int].label,
                                    lv.take(j as int),
                                ),
                        {
                            assert(labels.deep_view()[j as int] == labels@[j as int]@);
                            assert(edges.deep_view().len() == edges@.len());
                            let ghost prior = edges.deep_view();
                            edges.push(
                                Edge { from: block.label.clone(), to: labels[j].clone() },
                            );
                            assert(edges.deep_view().len() == edges@.len());
                            proof {
                                let rhs = pre + label_edges(bv[p as int].label, lv.take(j + 1));
                                assert forall|i: int|
                                    0 <= i < pre.len() + j + 1 implies edges.deep_view()[i]
                                    == rhs[i] by {
                                    if i < prior.len() {
                                        assert(edges.deep_view()[i] == prior[i]);
                                    } else {
                                        assert(lv.take(j + 1)[i - pre.len()] == lv[i - pre.len()]);
                                        assert(rhs[i] == (SpecEdge {
                                            from: bv[p as int].label,
                                            to: lv[i - pre.len()],
                                        }));
                                    }
                                }
                            }
                            assert(edges.deep_view() =~= pre + label_edges(
                                bv[p as int].label,
                                lv.take(j + 1),
                            ));
                        }
                        proof {
                            assert(lv.take(k as int) =~= lv);
                            assert(edges.deep_view() =~= pre + block_out_edges(
                                bv[p as int],
                                next_label(bv, p as int),
                            ));
                        }
                    },
                    _ => {
                        assert(false);
                    },
                }
            } else {
                if p + 1 < n {
                    let target = &blocks[p + 1];
                    edges.push(Edge { from: block.label.clone(), to: target.label.clone() });
                    assert(edges.deep_view() =~= pre + block_out_edges(
                        bv[p as int],
                        next_label(bv, p as int),
                    ));
                } else {
                    assert(edges.deep_view() =~= pre + block_out_edges(
                        bv[p as int],
                        next_label(bv, p as int),
                    ));
                }
            }
        } else {
            assert(edges.deep_view() =~= pre + block_out_edges(
                bv[p as int],
                next_label(bv, p as int),
            ));
        }
        proof {
            assert(edges_from(bv, p as int) == block_out_edges(bv[p as int], next_label(bv, p as int))
                + edges_from(bv, p + 1));
            assert(edges.deep_view() + edges_from(bv, p + 1) =~= edges_of(bv));
        }
    }
    proof {
        assert(edges.deep_view() + edges_from(bv, n as int) =~= edges.deep_view());
    }
    edges
}

} // verus!
