//! The block partitioner: cuts a function's flat code stream into maximal
//! basic blocks.
//!
//! The partition is modelled as a fold over the code stream. The fold's state
//! holds the blocks emitted so far, the instructions accumulated for the
//! block being built, and that block's label. A block closes when an `Effect`
//! instruction is appended to it (the synthesized-name counter then advances
//! to the new block count) or when a `Label` item starts a new one; a final
//! non-empty buffer closes the last block after the scan.

use vstd::prelude::*;

use crate::ir::Block;
use crate::ir::Code;
use crate::ir::Function;
use crate::ir::Instruction;
use crate::ir::SpecBlock;
use crate::ir::SpecCode;
use crate::ir::SpecInstr;

verus! {

/// The character for one decimal digit.
pub open spec fn digit_char(d: nat) -> char {
    if d == 0 {
        '0'
    } else if d == 1 {
        '1'
    } else if d == 2 {
        '2'
    } else if d == 3 {
        '3'
    } else if d == 4 {
        '4'
    } else if d == 5 {
        '5'
    } else if d == 6 {
        '6'
    } else if d == 7 {
        '7'
    } else if d == 8 {
        '8'
    } else {
        '9'
    }
}

/// The decimal digits of `n`, most significant first.
pub open spec fn dec_digits(n: nat) -> Seq<char>
    decreases n,
{
    if n < 10 {
        seq![digit_char(n)]
    } else {
        dec_digits(n / 10).push(digit_char(n % 10))
    }
}

/// The synthesized name `b<n>` given to a block that begins without an
/// explicit label.
pub open spec fn synth_label(n: nat) -> Seq<char> {
    seq!['b'] + dec_digits(n)
}

/// The number a digit character stands for.
spec fn digit_val(c: char) -> nat {
    if c == '0' {
        0
    } else if c == '1' {
        1
    } else if c == '2' {
        2
    } else if c == '3' {
        3
    } else if c == '4' {
        4
    } else if c == '5' {
        5
    } else if c == '6' {
        6
    } else if c == '7' {
        7
    } else if c == '8' {
        8
    } else {
        9
    }
}

/// The number a digit sequence stands for.
spec fn dec_val(s: Seq<char>) -> nat
    decreases s.len(),
{
    if s.len() == 0 {
        0
    } else {
        dec_val(s.drop_last()) * 10 + digit_val(s.last())
    }
}

/// Reading the digits of `n` back gives `n`.
proof fn lemma_dec_val_of_digits(n: nat)
    ensures
        dec_val(dec_digits(n)) == n,
    decreases n,
{
    if n < 10 {
        assert(seq![digit_char(n)].drop_last() =~= Seq::<char>::empty());
        assert(dec_val(Seq::<char>::empty()) == 0);
        assert(digit_val(digit_char(n)) == n);
    } else {
        lemma_dec_val_of_digits(n / 10);
        assert(dec_digits(n / 10).push(digit_char(n % 10)).drop_last() =~= dec_digits(n / 10));
        assert(digit_val(digit_char(n % 10)) == n % 10);
    }
}

/// Distinct ordinals get distinct synthesized names.
pub proof fn lemma_synth_label_injective(a: nat, b: nat)
    ensures
        synth_label(a) == synth_label(b) ==> a == b,
{
    if synth_label(a) == synth_label(b) {
        assert(seq!['b'] + dec_digits(a) == seq!['b'] + dec_digits(b));
        assert((seq!['b'] + dec_digits(a)).len() == 1 + dec_digits(a).len());
        assert((seq!['b'] + dec_digits(b)).len() == 1 + dec_digits(b).len());
        assert(dec_digits(a).len() == dec_digits(b).len());
        assert forall|i: int| 0 <= i < dec_digits(a).len() implies dec_digits(a)[i] == dec_digits(
            b,
        )[i] by {
            assert(dec_digits(a)[i] == (seq!['b'] + dec_digits(a))[i + 1]);
            assert(dec_digits(b)[i] == (seq!['b'] + dec_digits(b))[i + 1]);
        }
        assert(dec_digits(a) =~= dec_digits(b));
        lemma_dec_val_of_digits(a);
        lemma_dec_val_of_digits(b);
    }
}

/// The character for one decimal digit.
fn digit_str(d: usize) -> (s: &'static str)
    requires
        d < 10,
    ensures
        s@ == seq![digit_char(d as nat)],
{
    let s: &'static str = if d == 0 {
        "0"
    } else if d == 1 {
        "1"
    } else if d == 2 {
        "2"
    } else if d == 3 {
        "3"
    } else if d == 4 {
        "4"
    } else if d == 5 {
        "5"
    } else if d == 6 {
        "6"
    } else if d == 7 {
        "7"
    } else if d == 8 {
        "8"
    } else {
        "9"
    };
    proof {
        reveal_strlit("0");
        reveal_strlit("1");
        reveal_strlit("2");
        reveal_strlit("3");
        reveal_strlit("4");
        reveal_strlit("5");
        reveal_strlit("6");
        reveal_strlit("7");
        reveal_strlit("8");
        reveal_strlit("9");
    }
    assert(s@ =~= seq![digit_char(d as nat)]);
    s
}

/// The decimal digits of `n`, as a string.
fn dec_string(n: usize) -> (s: String)
    ensures
        s@ == dec_digits(n as nat),
    decreases n,
{
    if n < 10 {
        digit_str(n).to_owned()
    } else {
        let mut s = dec_string(n / 10);
        s.append(digit_str(n % 10));
        assert(s@ =~= dec_digits(n as nat));
        s
    }
}

/// The synthesized name `b<n>`, as a string.
pub fn synth_name(n: usize) -> (s: String)
    ensures
        s@ == synth_label(n as nat),
{
    let mut s: String = "b".to_owned();
    proof {
        reveal_strlit("b");
    }
    s.append(dec_string(n).as_str());
    assert(s@ =~= synth_label(n as nat));
    s
}

/// The partition fold's state: the blocks already emitted, the instructions
/// accumulated for the open block, and the open block's label.
#[verifier::ext_equal]
pub struct PartitionState {
    pub blocks: Seq<SpecBlock>,
    pub buffer: Seq<SpecInstr>,
    pub label: Seq<char>,
}

/// The state before any code is seen: no blocks, an empty buffer, and the
/// synthesized name for ordinal zero.
pub open spec fn initial_state() -> PartitionState {
    PartitionState { blocks: Seq::empty(), buffer: Seq::empty(), label: synth_label(0) }
}

/// One step of the partition fold.
///
/// A `Label` closes the open block (even when empty) and names the next one.
/// An `Effect` instruction joins the open block and closes it; the next block
/// gets the synthesized name for the new block count. Any other instruction
/// joins the open block.
pub open spec fn partition_step(st: PartitionState, item: SpecCode) -> PartitionState {
    match item {
        SpecCode::Label { label } => PartitionState {
            blocks: st.blocks.push(SpecBlock { label: st.label, instrs: st.buffer }),
            buffer: Seq::empty(),
            label: label,
        },
        SpecCode::Instruction { instr } => if instr is Effect {
            let blocks = st.blocks.push(
                SpecBlock { label: st.label, instrs: st.buffer.push(instr) },
            );
            PartitionState {
                blocks: blocks,
                buffer: Seq::empty(),
                label: synth_label(blocks.len()),
            }
        } else {
            PartitionState {
                blocks: st.blocks,
                buffer: st.buffer.push(instr),
                label: st.label,
            }
        },
    }
}

/// The partition fold over a whole code stream.
pub open spec fn partition_code(st: PartitionState, code: Seq<SpecCode>) -> PartitionState
    decreases code.len(),
{
    if code.len() == 0 {
        st
    } else {
        partition_step(partition_code(st, code.drop_last()), code.last())
    }
}

/// After the scan, a non-empty buffer closes one final block; an empty one is
/// dropped.
pub open spec fn finish_partition(st: PartitionState) -> Seq<SpecBlock> {
    if st.buffer.len() > 0 {
        st.blocks.push(SpecBlock { label: st.label, instrs: st.buffer })
    } else {
        st.blocks
    }
}

/// The basic blocks of a code stream.
pub open spec fn blocks_of(code: Seq<SpecCode>) -> Seq<SpecBlock> {
    finish_partition(partition_code(initial_state(), code))
}

/// The instructions of a block sequence, concatenated in block order.
pub open spec fn concat_block_instrs(blocks: Seq<SpecBlock>) -> Seq<SpecInstr>
    decreases blocks.len(),
{
    if blocks.len() == 0 {
        Seq::empty()
    } else {
        concat_block_instrs(blocks.drop_last()) + blocks.last().instrs
    }
}

/// The instructions of a code stream in order, labels left out.
pub open spec fn code_instrs(code: Seq<SpecCode>) -> Seq<SpecInstr>
    decreases code.len(),
{
    if code.len() == 0 {
        Seq::empty()
    } else {
        code_instrs(code.drop_last()) + (match code.last() {
            SpecCode::Instruction { instr } => seq![instr],
            SpecCode::Label { .. } => Seq::empty(),
        })
    }
}

/// Through the whole fold, the instructions already placed in blocks followed
/// by the buffered ones are the starting state's followed by the code's.
proof fn lemma_partition_concat(st: PartitionState, code: Seq<SpecCode>)
    ensures
        concat_block_instrs(partition_code(st, code).blocks) + partition_code(st, code).buffer
            =~= concat_block_instrs(st.blocks) + st.buffer + code_instrs(code),
    decreases code.len(),
{
    if code.len() == 0 {
        assert(code_instrs(code) =~= Seq::<SpecInstr>::empty());
    } else {
        lemma_partition_concat(st, code.drop_last());
        let prev = partition_code(st, code.drop_last());
        let cur = partition_code(st, code);
        assert(cur == partition_step(prev, code.last()));
        match code.last() {
            SpecCode::Label { label } => {
                assert(cur.blocks.drop_last() =~= prev.blocks);
                assert(cur.blocks.last().instrs == prev.buffer);
                assert(concat_block_instrs(cur.blocks) + cur.buffer =~= concat_block_instrs(
                    prev.blocks,
                ) + prev.buffer);
            },
            SpecCode::Instruction { instr } => {
                if instr is Effect {
                    assert(cur.blocks.drop_last() =~= prev.blocks);
                    assert(cur.blocks.last().instrs == prev.buffer.push(instr));
                    assert(concat_block_instrs(cur.blocks) + cur.buffer
                        =~= concat_block_instrs(prev.blocks) + prev.buffer + seq![instr]);
                } else {
                    assert(concat_block_instrs(cur.blocks) + cur.buffer
                        =~= concat_block_instrs(prev.blocks) + prev.buffer + seq![instr]);
                }
            },
        }
    }
}

/// Reconstruction: concatenating the partition's blocks' instructions, in
/// block order, gives back exactly the code stream's instructions in their
/// original order; the labels are consumed as boundaries.
pub proof fn lemma_reconstruction(code: Seq<SpecCode>)
    ensures
        concat_block_instrs(blocks_of(code)) == code_instrs(code),
{
    lemma_partition_concat(initial_state(), code);
    let st = partition_code(initial_state(), code);
    assert(concat_block_instrs(initial_state().blocks) =~= Seq::<SpecInstr>::empty());
    if st.buffer.len() > 0 {
        assert(blocks_of(code).drop_last() =~= st.blocks);
        assert(concat_block_instrs(blocks_of(code)) =~= code_instrs(code));
    } else {
        assert(concat_block_instrs(st.blocks) + st.buffer =~= concat_block_instrs(st.blocks));
        assert(concat_block_instrs(blocks_of(code)) =~= code_instrs(code));
    }
}

/// The name a `Label` item carries; instructions carry none.
pub open spec fn label_name(c: SpecCode) -> Seq<char> {
    match c {
        SpecCode::Label { label } => label,
        SpecCode::Instruction { .. } => Seq::empty(),
    }
}

/// Whether a label has the shape of a synthesized name.
pub open spec fn is_synth(l: Seq<char>) -> bool {
    exists|n: nat| l == synth_label(n)
}

/// The explicit labels of a code stream are pairwise distinct.
pub open spec fn distinct_explicit_labels(code: Seq<SpecCode>) -> bool {
    forall|i: int, j: int|
        0 <= i < j < code.len() && code[i] is Label && code[j] is Label ==> label_name(#[trigger] code[i])
            != label_name(#[trigger] code[j])
}

/// No explicit label of a code stream has the shape of a synthesized name.
pub open spec fn no_synthetic_explicit_labels(code: Seq<SpecCode>) -> bool {
    forall|i: int|
        0 <= i < code.len() && #[trigger] code[i] is Label ==> !is_synth(label_name(code[i]))
}

/// What holds of the fold's state after `m` items of `code`: the emitted
/// labels are distinct and the open block's label is fresh; a synthesized
/// label's ordinal never exceeds its block's position, nor the open one's the
/// block count; and every label seen is synthesized or came from a `Label`
/// item already consumed.
spec fn partition_inv(st: PartitionState, code: Seq<SpecCode>, m: int) -> bool {
    &&& forall|i: int, j: int|
        0 <= i < j < st.blocks.len() ==> (#[trigger] st.blocks[i]).label != (
        #[trigger] st.blocks[j]).label
    &&& forall|i: int| 0 <= i < st.blocks.len() ==> (#[trigger] st.blocks[i]).label != st.label
    &&& forall|i: int, n: nat|
        0 <= i < st.blocks.len() && (#[trigger] st.blocks[i]).label == #[trigger] synth_label(n)
            ==> n <= i
    &&& forall|n: nat| st.label == #[trigger] synth_label(n) ==> n <= st.blocks.len()
    &&& forall|i: int|
        0 <= i < st.blocks.len() ==> is_synth((#[trigger] st.blocks[i]).label) || exists|j: int|
            0 <= j < m && code[j] is Label && label_name(#[trigger] code[j]) == st.blocks[i].label
    &&& is_synth(st.label) || exists|j: int|
        0 <= j < m && code[j] is Label && label_name(#[trigger] code[j]) == st.label
}

/// The fold keeps `partition_inv` through every prefix of the code.
proof fn lemma_partition_inv(code: Seq<SpecCode>, m: int)
    requires
        distinct_explicit_labels(code),
        no_synthetic_explicit_labels(code),
        0 <= m <= code.len(),
    ensures
        partition_inv(partition_code(initial_state(), code.take(m)), code, m),
    decreases m,
{
    if m == 0 {
        assert(code.take(0).len() == 0);
        let st = partition_code(initial_state(), code.take(0));
        assert(st == initial_state());
        assert forall|n: nat| st.label == synth_label(n) implies n <= st.blocks.len() by {
            lemma_synth_label_injective(0, n);
        }
        assert(is_synth(st.label)) by {
            assert(st.label == synth_label(0));
        }
    } else {
        lemma_partition_inv(code, m - 1);
        let st = partition_code(initial_state(), code.take(m - 1));
        assert(code.take(m).drop_last() =~= code.take(m - 1));
        assert(code.take(m).last() == code[m - 1]);
        let cur = partition_code(initial_state(), code.take(m));
        assert(cur == partition_step(st, code[m - 1]));
        let len = st.blocks.len();
        match code[m - 1] {
            SpecCode::Label { label } => {
                // The new explicit label is fresh: it is neither a label
                // already emitted nor the open block's.
                assert forall|i: int| 0 <= i < len implies st.blocks[i].label != label by {
                    if st.blocks[i].label == label {
                        if is_synth(st.blocks[i].label) {
                            assert(!is_synth(label_name(code[m - 1])));
                        } else {
                            let j = choose|j: int|
                                0 <= j < m - 1 && code[j] is Label && label_name(
                                    #[trigger] code[j],
                                ) == st.blocks[i].label;
                            assert(label_name(code[j]) != label_name(code[m - 1]));
                        }
                    }
                }
                if st.label == label {
                    if is_synth(st.label) {
                        assert(!is_synth(label_name(code[m - 1])));
                        assert(false);
                    } else {
                        let j = choose|j: int|
                            0 <= j < m - 1 && code[j] is Label && label_name(#[trigger] code[j])
                                == st.label;
                        assert(label_name(code[j]) != label_name(code[m - 1]));
                        assert(false);
                    }
                }
                assert forall|n: nat| cur.label == synth_label(n) implies n <= cur.blocks.len() by {
                    assert(!is_synth(label_name(code[m - 1])));
                }
                assert(cur.blocks.len() == len + 1);
                assert(cur.blocks[len as int].label == st.label);
                assert(forall|i: int| 0 <= i < len ==> cur.blocks[i] == st.blocks[i]);
                assert(code.take(m)[m - 1] == code[m - 1]);
                assert(is_synth(cur.label) || exists|j: int|
                    0 <= j < m && code[j] is Label && label_name(#[trigger] code[j]) == cur.label)
                    by {
                    assert(code[m - 1] is Label && label_name(code[m - 1]) == cur.label);
                }
            },
            SpecCode::Instruction { instr } => {
                if instr is Effect {
                    assert(cur.blocks.len() == len + 1);
                    assert(cur.blocks[len as int].label == st.label);
                    assert(forall|i: int| 0 <= i < len ==> cur.blocks[i] == st.blocks[i]);
                    assert(cur.label == synth_label((len + 1) as nat));
                    // The next synthesized name is fresh: every emitted
                    // synthesized label has a smaller ordinal.
                    assert forall|i: int|
                        0 <= i < cur.blocks.len() implies cur.blocks[i].label != cur.label by {
                        if cur.blocks[i].label == synth_label((len + 1) as nat) {
                            assert(len + 1 <= i);
                        }
                    }
                    assert forall|n: nat| cur.label == synth_label(n) implies n
                        <= cur.blocks.len() by {
                        lemma_synth_label_injective((len + 1) as nat, n);
                    }
                    assert(is_synth(cur.label)) by {
                        assert(cur.label == synth_label((len + 1) as nat));
                    }
                } else {
                    assert(cur.blocks == st.blocks);
                    assert(cur.label == st.label);
                }
            },
        }
    }
}

/// Label uniqueness: no two blocks of the partition share a label, provided
/// the code's explicit labels are pairwise distinct and none of them has the
/// shape of a synthesized name `b<n>`.
pub proof fn lemma_label_uniqueness(code: Seq<SpecCode>)
    requires
        distinct_explicit_labels(code),
        no_synthetic_explicit_labels(code),
    ensures
        forall|i: int, j: int|
            0 <= i < j < blocks_of(code).len() ==> (#[trigger] blocks_of(code)[i]).label != (
            #[trigger] blocks_of(code)[j]).label,
{
    lemma_partition_inv(code, code.len() as int);
    assert(code.take(code.len() as int) =~= code);
    let st = partition_code(initial_state(), code);
    let out = blocks_of(code);
    if st.buffer.len() > 0 {
        assert(out.len() == st.blocks.len() + 1);
        assert(out[st.blocks.len() as int].label == st.label);
        assert(forall|i: int| 0 <= i < st.blocks.len() ==> out[i] == st.blocks[i]);
    } else {
        assert(out == st.blocks);
    }
}

/// Partitions a function's code stream into its basic blocks.
pub fn get_blocks(function: &Function) -> (blocks: Vec<Block>)
    ensures
        blocks.deep_view() == blocks_of(function.instrs.deep_view()),
{
    let ghost code: Seq<SpecCode> = function.instrs.deep_view();
    let mut blocks: Vec<Block> = Vec::new();
    let mut instructions: Vec<Instruction> = Vec::new();
    let mut block_label: String = synth_name(0);
    let n = function.instrs.len();
    assert(code.take(0) =~= Seq::<SpecCode>::empty());
    for i in 0..n
        invariant
            n == function.instrs.len(),
            code == function.instrs.deep_view(),
            partition_code(initial_state(), code.take(i as int)) == (PartitionState {
                blocks: blocks.deep_view(),
                buffer: instructions.deep_view(),
                label: block_label@,
            }),
    {
        let ghost pre = PartitionState {
            blocks: blocks.deep_view(),
            buffer: instructions.deep_view(),
            label: block_label@,
        };
        proof {
            assert(blocks.deep_view().len() == blocks@.len());
            assert(instructions.deep_view().len() == instructions@.len());
            assert(code.take(i + 1).drop_last() =~= code.take(i as int));
            assert(code.take(i + 1).last() == code[i as int]);
        }
        match &function.instrs[i] {
            Code::Label { label } => {
                let finished = Block { label: block_label, instrs: instructions };
                blocks.push(finished);
                block_label = label.clone();
                instructions = Vec::new();
                assert(blocks.deep_view() =~= pre.blocks.push(
                    SpecBlock { label: pre.label, instrs: pre.buffer },
                ));
                assert(instructions.deep_view() =~= Seq::<SpecInstr>::empty());
            },
            Code::Instruction { instr } => {
                let is_effect = match instr {
                    Instruction::Effect { .. } => true,
                    _ => false,
                };
                if is_effect {
                    instructions.push(instr.clone());
                    assert(instructions.deep_view() =~= pre.buffer.push(instr@));
                    let finished = Block { label: block_label, instrs: instructions };
                    blocks.push(finished);
                    block_label = synth_name(blocks.len());
                    instructions = Vec::new();
                    assert(blocks.deep_view() =~= pre.blocks.push(
                        SpecBlock { label: pre.label, instrs: pre.buffer.push(instr@) },
                    ));
                    assert(instructions.deep_view() =~= Seq::<SpecInstr>::empty());
                } else {
                    instructions.push(instr.clone());
                    assert(instructions.deep_view() =~= pre.buffer.push(instr@));
                }
            },
        }
        assert(partition_code(initial_state(), code.take(i + 1)) == (PartitionState {
            blocks: blocks.deep_view(),
            buffer: instructions.deep_view(),
            label: block_label@,
        }));
    }
    proof {
        assert(code.take(n as int) =~= code);
    }
    if instructions.len() > 0 {
        assert(instructions.deep_view().len() == instructions@.len());
        let finished = Block { label: block_label, instrs: instructions };
        blocks.push(finished);
        assert(blocks.deep_view() =~= blocks_of(code));
    } else {
        assert(instructions.deep_view().len() == instructions@.len());
        assert(blocks.deep_view() == blocks_of(code));
    }
    blocks
}

} // verus!
