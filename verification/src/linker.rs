//! Label addresses: the pass that assigns every label its address, and the
//! resolution of a reference to a label into operand bytes.

use crate::ast::{addressing_mode_of, args_view, get_addresing_mode, nodes_view, Ast, AstView};
use crate::error::{AsmError, AsmErrorView};
use crate::instruction::{Instruction, InstructionSet, Mode};
use vstd::hash_map::StringHashMap;
use vstd::prelude::*;
use vstd::string::StringExecFns;

verus! {

/// The state of the indexing pass: the labels declared so far with their
/// addresses, and the address of the next byte.
pub struct LinkerView {
    pub labels: Map<Seq<char>, u16>,
    pub counter: u16,
}

/// The address `len` bytes after `counter`. Addresses have sixteen bits and
/// wrap around.
pub open spec fn advance_counter(counter: u16, len: u8) -> u16 {
    ((counter + len) % 0x1_0000) as u16
}

/// The instruction that the set holds for a mnemonic and the mode that its
/// operand asks for.
pub open spec fn lookup(
    table: Map<(Seq<char>, Mode), Instruction>,
    mnemonic: Seq<char>,
    args: Option<Box<AstView>>,
) -> Result<Instruction, AsmErrorView> {
    match addressing_mode_of(args) {
        None => Err(AsmErrorView::InvalidOperand),
        Some(mode) => if table.contains_key((mnemonic, mode)) {
            Ok(table[(mnemonic, mode)])
        } else {
            Err(AsmErrorView::UnknownInstruction { mnemonic, mode })
        },
    }
}

/// Indexing one node: a label is bound to the address of the next byte, an
/// instruction moves that address on by its length, a sequence is indexed
/// from left to right, and anything else is passed over. A label declared
/// again is bound anew.
pub open spec fn index_node(
    node: AstView,
    state: LinkerView,
    table: Map<(Seq<char>, Mode), Instruction>,
) -> Result<LinkerView, AsmErrorView>
    decreases node,
{
    match node {
        AstView::Statements(nodes) => index_nodes(nodes, state, table),
        AstView::Label(name) => Ok(
            LinkerView { labels: state.labels.insert(name, state.counter), counter: state.counter },
        ),
        AstView::Instruction { instruction, args } => match lookup(table, instruction, args) {
            Ok(found) => Ok(
                LinkerView {
                    labels: state.labels,
                    counter: advance_counter(state.counter, found.len),
                },
            ),
            Err(e) => Err(e),
        },
        _ => Ok(state),
    }
}

/// Indexing a sequence of nodes from left to right, up to the first error.
pub open spec fn index_nodes(
    nodes: Seq<AstView>,
    state: LinkerView,
    table: Map<(Seq<char>, Mode), Instruction>,
) -> Result<LinkerView, AsmErrorView>
    decreases nodes,
{
    if nodes.len() == 0 {
        Ok(state)
    } else {
        match index_node(nodes.first(), state, table) {
            Ok(next) => index_nodes(nodes.drop_first(), next, table),
            Err(e) => Err(e),
        }
    }
}

/// The two bytes of an address, low byte first.
pub open spec fn little_endian(address: u16) -> Seq<u8> {
    seq![(address % 256) as u8, (address / 256) as u8]
}

/// The distance from the byte that follows an instruction of `len` bytes at
/// address `at` to `target`, in eight bits: distances of -128 to 127 are in
/// two's complement, longer ones wrap around.
pub open spec fn displacement(target: u16, at: u16, len: u8) -> u8 {
    ((target - (at + len)) % 256) as u8
}

/// The operand bytes for a reference to `label` under `instruction`, which
/// stands at address `at`: a distance where the instruction encodes its
/// operand as `Relative`, the label's address where as `Absolute`.
pub open spec fn link_bytes(
    labels: Map<Seq<char>, u16>,
    label: Seq<char>,
    instruction: Instruction,
    at: u16,
) -> Result<Seq<u8>, AsmErrorView> {
    if !labels.contains_key(label) {
        Err(AsmErrorView::UndefinedLabel(label))
    } else {
        match instruction.mode {
            Mode::Relative => Ok(seq![displacement(labels[label], at, instruction.len)]),
            Mode::Absolute => Ok(little_endian(labels[label])),
            mode => Err(AsmErrorView::UnexpectedMode(mode)),
        }
    }
}

/// The model of each node of a vector is the node of the vector's model at
/// the same place.
pub proof fn lemma_nodes_view(nodes: Seq<Ast>)
    ensures
        nodes_view(nodes).len() == nodes.len(),
        forall|i: int| 0 <= i < nodes.len() ==> (#[trigger] nodes_view(nodes)[i]) == nodes[i]@,
    decreases nodes.len(),
{
    if nodes.len() > 0 {
        lemma_nodes_view(nodes.drop_last());
    }
}

/// The instruction for a mnemonic and an operand, or why there is none.
pub fn find_instruction(
    instructions: &InstructionSet,
    mnemonic: &String,
    args: &Option<Box<Ast>>,
) -> (found: Result<Instruction, AsmError>)
    ensures
        match lookup(instructions@, mnemonic@, args_view(*args)) {
            Ok(instruction) => found == Ok::<Instruction, AsmError>(instruction),
            Err(e) => found is Err && found->Err_0@ == e,
        },
{
    match get_addresing_mode(args) {
        None => Err(AsmError::InvalidOperand),
        Some(mode) => match instructions.get_instruction(mnemonic, mode) {
            Some(instruction) => Ok(instruction),
            None => Err(AsmError::UnknownInstruction { mnemonic: mnemonic.clone(), mode }),
        },
    }
}

/// The table of labels and the location counter of the indexing pass.
pub struct Linker {
    labels_indexes: StringHashMap<u16>,
    program_counter: u16,
}

impl View for Linker {
    type V = LinkerView;

    closed spec fn view(&self) -> LinkerView {
        LinkerView { labels: self.labels_indexes@, counter: self.program_counter }
    }
}

impl Linker {
    /// A linker without labels, for a program that starts at `origin`.
    pub fn new(origin: u16) -> (linker: Self)
        ensures
            linker@ == (LinkerView { labels: Map::empty(), counter: origin }),
    {
        Self { labels_indexes: StringHashMap::new(), program_counter: origin }
    }

    /// Indexes `ast`: binds each label in it to its address and moves the
    /// location counter past each instruction. Fails on the first
    /// instruction that the set does not hold; the state is then of no use.
    pub fn index(&mut self, ast: &Ast, instructions: &InstructionSet) -> (done: Result<
        (),
        AsmError,
    >)
        ensures
            match index_node(ast@, old(self)@, instructions@) {
                Ok(state) => done is Ok && final(self)@ == state,
                Err(e) => done is Err && done->Err_0@ == e,
            },
        decreases ast,
    {
        match ast {
            Ast::Statements(statements) => {
                let ghost nodes = nodes_view(statements@);
                proof {
                    lemma_nodes_view(statements@);
                    assert(nodes.skip(0) == nodes);
                }
                let mut i: usize = 0;
                while i < statements.len()
                    invariant
                        i <= statements.len(),
                        *ast == Ast::Statements(*statements),
                        ast@ == AstView::Statements(nodes),
                        nodes == nodes_view(statements@),
                        nodes.len() == statements.len(),
                        forall|i: int|
                            0 <= i < nodes.len() ==> (#[trigger] nodes[i]) == statements[i]@,
                        index_nodes(nodes.skip(i as int), self@, instructions@) == index_nodes(
                            nodes,
                            old(self)@,
                            instructions@,
                        ),
                    decreases statements.len() - i,
                {
                    proof {
                        assert(nodes.skip(i as int).first() == statements[i as int]@);
                        assert(nodes.skip(i as int).drop_first() == nodes.skip(i + 1));
                    }
                    self.index(&statements[i], instructions)?;
                    i += 1;
                }
                Ok(())
            },
            Ast::Label(label) => {
                self.labels_indexes.insert(label.clone(), self.program_counter);
                Ok(())
            },
            Ast::Instruction { instruction, args } => {
                let found = find_instruction(instructions, instruction, args)?;
                self.program_counter = self.program_counter.wrapping_add(found.len as u16);
                Ok(())
            },
            _ => Ok(()),
        }
    }

    /// The address of a label, if it was declared.
    fn get(&self, label: &str) -> (address: Option<u16>)
        ensures
            address == if self@.labels.contains_key(label@) {
                Some(self@.labels[label@])
            } else {
                None
            },
    {
        match self.labels_indexes.get(label) {
            Some(address) => Some(*address),
            None => None,
        }
    }

    /// The operand bytes for a reference to `label` as the operand of
    /// `instruction`, whose opcode stands at `asm_program_counter`.
    pub fn link(&self, label: &str, instruction: &Instruction, asm_program_counter: u16) -> (bytes:
        Result<Vec<u8>, AsmError>)
        ensures
            match link_bytes(self@.labels, label@, *instruction, asm_program_counter) {
                Ok(model) => bytes is Ok && bytes->Ok_0@ == model,
                Err(e) => bytes is Err && bytes->Err_0@ == e,
            },
    {
        let label_index = match self.get(label) {
            Some(address) => address,
            None => {
                return Err(AsmError::UndefinedLabel(String::from_str(label)));
            },
        };
        let mut bytes: Vec<u8> = Vec::new();
        match instruction.mode {
            Mode::Relative => {
                let distance: u32 = label_index as u32 + 0x1_0100 - (asm_program_counter as u32
                    + instruction.len as u32);
                bytes.push((distance % 256) as u8);
                assert(bytes@ == seq![
                    displacement(label_index, asm_program_counter, instruction.len),
                ]);
            },
            Mode::Absolute => {
                bytes.push((label_index % 256) as u8);
                bytes.push((label_index / 256) as u8);
                assert(bytes@ == little_endian(label_index));
            },
            mode => {
                return Err(AsmError::UnexpectedMode(mode));
            },
        }
        Ok(bytes)
    }
}

} // verus!
