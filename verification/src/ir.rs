//! The instruction-stream IR: instructions, labels, blocks and edges,
//! together with their mathematical models.

use vstd::prelude::*;

verus! {

/// Model of an instruction: names and label lists as character sequences,
/// the constant's value as an unbounded integer.
#[verifier::ext_equal]
pub enum SpecInstr {
    Constant { dest: Seq<char>, value: int },
    Value {
        dest: Seq<char>,
        op: Seq<char>,
        args: Seq<Seq<char>>,
        funcs: Seq<Seq<char>>,
        labels: Seq<Seq<char>>,
    },
    Effect {
        op: Seq<char>,
        args: Seq<Seq<char>>,
        funcs: Seq<Seq<char>>,
        labels: Seq<Seq<char>>,
    },
}

/// Model of one item of a function's flat code stream.
#[verifier::ext_equal]
pub enum SpecCode {
    Label { label: Seq<char> },
    Instruction { instr: SpecInstr },
}

/// Model of a basic block: its label and the instructions it holds.
#[verifier::ext_equal]
pub struct SpecBlock {
    pub label: Seq<char>,
    pub instrs: Seq<SpecInstr>,
}

/// Model of a directed edge of the control-flow graph.
#[verifier::ext_equal]
pub struct SpecEdge {
    pub from: Seq<char>,
    pub to: Seq<char>,
}

/// Model of a whole control-flow graph.
#[verifier::ext_equal]
pub struct SpecGraph {
    pub blocks: Seq<SpecBlock>,
    pub edges: Seq<SpecEdge>,
}

/// An instruction of the IR. `Constant` and `Value` define a destination and
/// never transfer control; `Effect` performs an operation and is the only
/// variant that may carry outgoing control-flow labels.
#[derive(Debug, PartialEq, Eq)]
pub enum Instruction {
    Constant { dest: String, value: i64 },
    Value {
        dest: String,
        op: String,
        args: Vec<String>,
        funcs: Vec<String>,
        labels: Vec<String>,
    },
    Effect {
        op: String,
        args: Vec<String>,
        funcs: Vec<String>,
        labels: Vec<String>,
    },
}

/// One item of a function's flat code stream: a named label marking an entry
/// point, or an instruction.
#[derive(Debug, PartialEq, Eq)]
pub enum Code {
    Label { label: String },
    Instruction { instr: Instruction },
}

/// A function: a name and a flat code stream.
pub struct Function {
    pub name: String,
    pub instrs: Vec<Code>,
}

/// A basic block: a label naming it and the instructions it executes.
#[derive(Debug, PartialEq, Eq)]
pub struct Block {
    pub label: String,
    pub instrs: Vec<Instruction>,
}

/// A directed edge between two blocks, by label.
#[derive(Debug, PartialEq, Eq)]
pub struct Edge {
    pub from: String,
    pub to: String,
}

/// The control-flow graph of one function.
#[derive(Debug, PartialEq, Eq)]
pub struct ControlFlowGraph {
    pub blocks: Vec<Block>,
    pub edges: Vec<Edge>,
}

impl View for Instruction {
    type V = SpecInstr;

    open spec fn view(&self) -> SpecInstr {
        match self {
            Instruction::Constant { dest, value } => SpecInstr::Constant {
                dest: dest@,
                value: *value as int,
            },
            Instruction::Value { dest, op, args, funcs, labels } => SpecInstr::Value {
                dest: dest@,
                op: op@,
                args: args.deep_view(),
                funcs: funcs.deep_view(),
                labels: labels.deep_view(),
            },
            Instruction::Effect { op, args, funcs, labels } => SpecInstr::Effect {
                op: op@,
                args: args.deep_view(),
                funcs: funcs.deep_view(),
                labels: labels.deep_view(),
            },
        }
    }
}

impl DeepView for Instruction {
    type V = SpecInstr;

    open spec fn deep_view(&self) -> SpecInstr {
        self.view()
    }
}

impl View for Code {
    type V = SpecCode;

    open spec fn view(&self) -> SpecCode {
        match self {
            Code::Label { label } => SpecCode::Label { label: label@ },
            Code::Instruction { instr } => SpecCode::Instruction { instr: instr@ },
        }
    }
}

impl DeepView for Code {
    type V = SpecCode;

    open spec fn deep_view(&self) -> SpecCode {
        self.view()
    }
}

impl View for Block {
    type V = SpecBlock;

    open spec fn view(&self) -> SpecBlock {
        SpecBlock { label: self.label@, instrs: self.instrs.deep_view() }
    }
}

impl DeepView for Block {
    type V = SpecBlock;

    open spec fn deep_view(&self) -> SpecBlock {
        self.view()
    }
}

impl View for Edge {
    type V = SpecEdge;

    open spec fn view(&self) -> SpecEdge {
        SpecEdge { from: self.from@, to: self.to@ }
    }
}

impl DeepView for Edge {
    type V = SpecEdge;

    open spec fn deep_view(&self) -> SpecEdge {
        self.view()
    }
}

impl View for ControlFlowGraph {
    type V = SpecGraph;

    open spec fn view(&self) -> SpecGraph {
        SpecGraph { blocks: self.blocks.deep_view(), edges: self.edges.deep_view() }
    }
}

/// The labels an instruction transfers control to: an `Effect`'s label list,
/// and nothing for the defining variants.
pub open spec fn transfer_labels(i: SpecInstr) -> Seq<Seq<char>> {
    match i {
        SpecInstr::Effect { labels, .. } => labels,
        _ => Seq::empty(),
    }
}

/// Whether an instruction transfers control explicitly: an `Effect` carrying
/// at least one label.
pub open spec fn is_transfer(i: SpecInstr) -> bool {
    i is Effect && transfer_labels(i).len() > 0
}

impl Clone for Instruction {
    /// Field-by-field copy; the copy has the same model.
    fn clone(&self) -> (r: Self)
        ensures
            r@ == self@,
    {
        match self {
            Instruction::Constant { dest, value } => Instruction::Constant {
                dest: dest.clone(),
                value: *value,
            },
            Instruction::Value { dest, op, args, funcs, labels } => Instruction::Value {
                dest: dest.clone(),
                op: op.clone(),
                args: clone_strings(args),
                funcs: clone_strings(funcs),
                labels: clone_strings(labels),
            },
            Instruction::Effect { op, args, funcs, labels } => Instruction::Effect {
                op: op.clone(),
                args: clone_strings(args),
                funcs: clone_strings(funcs),
                labels: clone_strings(labels),
            },
        }
    }
}

/// Copies a vector of strings, keeping its contents.
fn clone_strings(v: &Vec<String>) -> (r: Vec<String>)
    ensures
        r.deep_view() == v.deep_view(),
{
    let mut r: Vec<String> = Vec::new();
    let n = v.len();
    for i in 0..n
        invariant
            n == v.len(),
            r.deep_view() =~= v.deep_view().take(i as int),
    {
        assert(r.deep_view().len() == r@.len());
        r.push(v[i].clone());
        assert(r.deep_view() =~= v.deep_view().take(i + 1));
    }
    assert(v.deep_view().take(n as int) =~= v.deep_view());
    r
}

} // verus!
