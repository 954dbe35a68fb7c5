use bril_cfg::build_cfg;
use bril_cfg::dot::to_dot;
use bril_cfg::ir::Code;
use bril_cfg::ir::Function;
use bril_cfg::ir::Instruction;

fn konst(dest: &str, value: i64) -> Code {
    Code::Instruction {
        instr: Instruction::Constant { dest: dest.to_string(), value },
    }
}

fn effect(op: &str, labels: &[&str]) -> Code {
    Code::Instruction {
        instr: Instruction::Effect {
            op: op.to_string(),
            args: Vec::new(),
            funcs: Vec::new(),
            labels: labels.iter().map(|l| l.to_string()).collect(),
        },
    }
}

fn label(name: &str) -> Code {
    Code::Label { label: name.to_string() }
}

#[test]
fn renders_nodes_then_edges() {
    let f = Function {
        name: "main".to_string(),
        instrs: vec![
            label("entry"),
            konst("x", 1),
            effect("jmp", &["end"]),
            label("end"),
            konst("y", 2),
        ],
    };
    let cfg = build_cfg(&f);
    let dot = to_dot(&cfg, &f.name);
    assert_eq!(
        dot,
        "digraph main {\n\tb0;\n\tentry;\n\tb2;\n\tend;\n\tentry -> end;\n}"
    );
}

#[test]
fn renders_an_empty_function_as_a_bare_graph() {
    let f = Function { name: "noop".to_string(), instrs: vec![] };
    let cfg = build_cfg(&f);
    let dot = to_dot(&cfg, &f.name);
    assert_eq!(dot, "digraph noop {\n}");
}

#[test]
fn renders_branch_edges_in_label_order() {
    let f = Function {
        name: "cond".to_string(),
        instrs: vec![
            effect("br", &["yes", "no"]),
            label("yes"),
            konst("a", 1),
            label("no"),
            konst("b", 2),
        ],
    };
    let cfg = build_cfg(&f);
    let dot = to_dot(&cfg, &f.name);
    assert_eq!(
        dot,
        "digraph cond {\n\tb0;\n\tb1;\n\tyes;\n\tno;\n\tb0 -> yes;\n\tb0 -> no;\n\tyes -> no;\n}"
    );
}
