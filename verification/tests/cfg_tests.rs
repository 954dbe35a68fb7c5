use bril_cfg::blocks::get_blocks;
use bril_cfg::blocks::synth_name;
use bril_cfg::edges::get_cfg_edges;
use bril_cfg::ir::Block;
use bril_cfg::ir::Code;
use bril_cfg::ir::Edge;
use bril_cfg::ir::Function;
use bril_cfg::ir::Instruction;

fn konst(dest: &str, value: i64) -> Code {
    Code::Instruction {
        instr: Instruction::Constant { dest: dest.to_string(), value },
    }
}

fn effect(op: &str, labels: &[&str]) -> Code {
    Code::Instruction {
        instr: Instruction::Effect {
            op: op.to_string(),
            args: Vec::new(),
            funcs: Vec::new(),
            labels: labels.iter().map(|l| l.to_string()).collect(),
        },
    }
}

fn label(name: &str) -> Code {
    Code::Label { label: name.to_string() }
}

fn value(dest: &str, op: &str, args: &[&str], labels: &[&str]) -> Code {
    Code::Instruction {
        instr: Instruction::Value {
            dest: dest.to_string(),
            op: op.to_string(),
            args: args.iter().map(|a| a.to_string()).collect(),
            funcs: Vec::new(),
            labels: labels.iter().map(|l| l.to_string()).collect(),
        },
    }
}

fn func(name: &str, instrs: Vec<Code>) -> Function {
    Function { name: name.to_string(), instrs }
}

fn instr_of(code: &Code) -> Instruction {
    match code {
        Code::Instruction { instr } => instr.clone(),
        Code::Label { .. } => panic!("not an instruction"),
    }
}

fn edge(from: &str, to: &str) -> Edge {
    Edge { from: from.to_string(), to: to.to_string() }
}

fn labels_of(blocks: &[Block]) -> Vec<String> {
    blocks.iter().map(|b| b.label.clone()).collect()
}

#[test]
fn jump_between_labelled_blocks() {
    let f = func(
        "main",
        vec![
            label("entry"),
            konst("x", 1),
            effect("jmp", &["end"]),
            label("end"),
            konst("y", 2),
        ],
    );
    let blocks = get_blocks(&f);
    assert_eq!(labels_of(&blocks), vec!["b0", "entry", "b2", "end"]);
    assert!(blocks[0].instrs.is_empty());
    assert_eq!(
        blocks[1].instrs,
        vec![instr_of(&konst("x", 1)), instr_of(&effect("jmp", &["end"]))]
    );
    assert!(blocks[2].instrs.is_empty());
    assert_eq!(blocks[3].instrs, vec![instr_of(&konst("y", 2))]);
    let edges = get_cfg_edges(&blocks);
    assert_eq!(edges, vec![edge("entry", "end")]);
}

#[test]
fn no_labels_one_synthesized_block() {
    let f = func("main", vec![konst("x", 1), konst("y", 2)]);
    let blocks = get_blocks(&f);
    assert_eq!(labels_of(&blocks), vec!["b0"]);
    assert_eq!(
        blocks[0].instrs,
        vec![instr_of(&konst("x", 1)), instr_of(&konst("y", 2))]
    );
    let edges = get_cfg_edges(&blocks);
    assert!(edges.is_empty());
}

#[test]
fn adjacent_labels_make_an_empty_block() {
    let f = func("main", vec![label("a"), label("b"), konst("z", 3)]);
    let blocks = get_blocks(&f);
    assert_eq!(labels_of(&blocks), vec!["b0", "a", "b"]);
    assert!(blocks[0].instrs.is_empty());
    assert!(blocks[1].instrs.is_empty());
    assert_eq!(blocks[2].instrs, vec![instr_of(&konst("z", 3))]);
    // The empty block `a` contributes no edges, so nothing reaches `b`.
    let edges = get_cfg_edges(&blocks);
    assert!(edges.iter().all(|e| e.from != "a"));
    assert!(edges.is_empty());
}

#[test]
fn effect_without_labels_falls_through() {
    let f = func(
        "main",
        vec![konst("x", 1), effect("print", &[]), label("next"), konst("y", 2)],
    );
    let blocks = get_blocks(&f);
    assert_eq!(labels_of(&blocks), vec!["b0", "b1", "next"]);
    let edges = get_cfg_edges(&blocks);
    // b0 ends in a label-less Effect, so it falls through; the empty block
    // b1 contributes nothing.
    assert_eq!(edges, vec![edge("b0", "b1")]);
}

#[test]
fn branch_emits_one_edge_per_label_in_order() {
    let f = func(
        "main",
        vec![
            konst("c", 0),
            effect("br", &["then_side", "else_side"]),
            label("then_side"),
            konst("a", 1),
            label("else_side"),
            konst("b", 2),
        ],
    );
    let blocks = get_blocks(&f);
    assert_eq!(labels_of(&blocks), vec!["b0", "b1", "then_side", "else_side"]);
    let edges = get_cfg_edges(&blocks);
    // Explicit transfers are exhaustive: both branch edges, no fallthrough
    // from b0, then the fallthroughs of the straight-line blocks.
    assert_eq!(
        edges,
        vec![
            edge("b0", "then_side"),
            edge("b0", "else_side"),
            edge("then_side", "else_side"),
        ]
    );
    assert!(edges.iter().filter(|e| e.from == "b0").count() == 2);
}

#[test]
fn synthesized_ordinal_tracks_block_count() {
    let f = func(
        "main",
        vec![konst("x", 1), label("mid"), effect("jmp", &["mid"]), konst("y", 2)],
    );
    let blocks = get_blocks(&f);
    // After `mid` closes, two blocks exist, so the next synthesized name is b2.
    assert_eq!(labels_of(&blocks), vec!["b0", "mid", "b2"]);
    let edges = get_cfg_edges(&blocks);
    assert_eq!(edges, vec![edge("b0", "mid"), edge("mid", "mid")]);
}

#[test]
fn self_loop_edge_may_dangle_backwards() {
    let f = func("main", vec![label("a"), effect("jmp", &["a"])]);
    let blocks = get_blocks(&f);
    assert_eq!(labels_of(&blocks), vec!["b0", "a"]);
    let edges = get_cfg_edges(&blocks);
    assert_eq!(edges, vec![edge("a", "a")]);
}

#[test]
fn empty_function_has_no_blocks() {
    let f = func("main", vec![]);
    let blocks = get_blocks(&f);
    assert!(blocks.is_empty());
    let edges = get_cfg_edges(&blocks);
    assert!(edges.is_empty());
}

#[test]
fn trailing_label_without_instructions_is_dropped() {
    let f = func("main", vec![effect("ret", &[]), label("tail")]);
    let blocks = get_blocks(&f);
    // The buffer is empty after the scan, so `tail` never becomes a block;
    // the label item itself still closed the empty synthesized block b1.
    assert_eq!(labels_of(&blocks), vec!["b0", "b1"]);
    let edges = get_cfg_edges(&blocks);
    assert_eq!(edges, vec![edge("b0", "b1")]);
}

#[test]
fn reconstruction_on_a_mixed_stream() {
    let stream = vec![
        label("entry"),
        konst("x", 1),
        effect("jmp", &["end"]),
        label("end"),
        konst("y", 2),
        effect("print", &[]),
        konst("z", 3),
    ];
    let expected: Vec<Instruction> = stream
        .iter()
        .filter(|c| matches!(c, Code::Instruction { .. }))
        .map(instr_of)
        .collect();
    let f = func("main", stream);
    let blocks = get_blocks(&f);
    let flattened: Vec<Instruction> =
        blocks.iter().flat_map(|b| b.instrs.iter().cloned()).collect();
    assert_eq!(flattened, expected);
}

#[test]
fn labels_are_unique_across_blocks() {
    let f = func(
        "main",
        vec![
            konst("x", 1),
            effect("jmp", &["loop_head"]),
            label("loop_head"),
            konst("y", 2),
            effect("br", &["loop_head", "done"]),
            label("done"),
            effect("ret", &[]),
        ],
    );
    let blocks = get_blocks(&f);
    let mut labels = labels_of(&blocks);
    let before = labels.len();
    labels.sort();
    labels.dedup();
    assert_eq!(labels.len(), before);
}

#[test]
fn last_block_has_no_fallthrough_edge() {
    let f = func(
        "main",
        vec![label("start"), konst("x", 1), effect("jmp", &["start"]), label("tail"), konst("y", 2)],
    );
    let blocks = get_blocks(&f);
    let last = blocks.last().unwrap().label.clone();
    assert_eq!(last, "tail");
    let edges = get_cfg_edges(&blocks);
    assert!(edges.iter().all(|e| e.from != last));
}

#[test]
fn value_instructions_do_not_close_blocks_or_branch() {
    let f = func(
        "main",
        vec![
            konst("a", 1),
            value("c", "add", &["a", "a"], &[]),
            // A label list on a Value never branches: only an Effect's
            // labels carry control flow.
            value("d", "phi", &["c"], &["somewhere"]),
            label("next"),
            konst("y", 2),
        ],
    );
    let blocks = get_blocks(&f);
    assert_eq!(labels_of(&blocks), vec!["b0", "next"]);
    assert_eq!(blocks[0].instrs.len(), 3);
    let edges = get_cfg_edges(&blocks);
    assert_eq!(edges, vec![edge("b0", "next")]);
}

#[test]
fn synthesized_names_count_in_decimal() {
    assert_eq!(synth_name(0), "b0");
    assert_eq!(synth_name(7), "b7");
    assert_eq!(synth_name(10), "b10");
    assert_eq!(synth_name(907), "b907");
}
