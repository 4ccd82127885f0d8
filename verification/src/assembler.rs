//! Code generation: the walk over the syntax tree that emits, for each
//! instruction, its opcode and the bytes of its operand.

use crate::ast::{args_view, nodes_view, Ast, AstView};
use crate::error::{AsmError, AsmErrorView};
use crate::instruction::{Instruction, InstructionSet, Mode};
use crate::linker::{
    advance_counter, find_instruction, index_node, lemma_nodes_view, link_bytes, little_endian,
    lookup, Linker, LinkerView,
};
use crate::parser::{load, parse_from, Parser, ParserView};
use vstd::prelude::*;

verus! {

/// The state of code generation: the bytes emitted so far and the address
/// of the next one.
pub struct CodeView {
    pub program: Seq<u8>,
    pub counter: u16,
}

/// The bytes that encode an operand under `instruction`, whose opcode stands
/// at address `at`: one byte for a value or an address of eight bits, two
/// for an address of sixteen, low byte first, none for the accumulator and
/// for no operand. A label is resolved against `labels`.
pub open spec fn operand_bytes(
    args: Option<Box<AstView>>,
    instruction: Instruction,
    labels: Map<Seq<char>, u16>,
    at: u16,
) -> Result<Seq<u8>, AsmErrorView> {
    match args {
        None => Ok(Seq::empty()),
        Some(node) => match *node {
            AstView::Absolute(address) => Ok(little_endian(address)),
            AstView::AbsoluteIndirect(address) => Ok(little_endian(address)),
            AstView::AsoluteIndexed(address, _) => Ok(little_endian(address)),
            AstView::ZeroPage(address) => Ok(seq![address]),
            AstView::ZeroPageIndexed(address, _) => Ok(seq![address]),
            AstView::IndirectX(address) => Ok(seq![address]),
            AstView::IndirectY(address) => Ok(seq![address]),
            AstView::Number8(number) => Ok(seq![number]),
            AstView::Accumulator => Ok(Seq::empty()),
            AstView::Label(label) => link_bytes(labels, label, instruction, at),
            AstView::Statements(_) => Err(AsmErrorView::InvalidOperand),
            AstView::Instruction { .. } => Err(AsmErrorView::InvalidOperand),
        },
    }
}

/// Generating the code of one node: an instruction emits its opcode and the
/// bytes of its operand and moves the address on by its length, a label
/// emits nothing, a sequence is generated from left to right.
pub open spec fn emit_node(
    node: AstView,
    state: CodeView,
    labels: Map<Seq<char>, u16>,
    table: Map<(Seq<char>, Mode), Instruction>,
) -> Result<CodeView, AsmErrorView>
    decreases node,
{
    match node {
        AstView::Statements(nodes) => emit_nodes(nodes, state, labels, table),
        AstView::Instruction { instruction, args } => match lookup(table, instruction, args) {
            Ok(found) => match operand_bytes(args, found, labels, state.counter) {
                Ok(bytes) => Ok(
                    CodeView {
                        program: state.program.push(found.opcode) + bytes,
                        counter: advance_counter(state.counter, found.len),
                    },
                ),
                Err(e) => Err(e),
            },
            Err(e) => Err(e),
        },
        AstView::Label(_) => Ok(state),
        _ => Err(AsmErrorView::UnexpectedNode),
    }
}

/// Generating the code of a sequence of nodes from left to right, up to the
/// first error.
pub open spec fn emit_nodes(
    nodes: Seq<AstView>,
    state: CodeView,
    labels: Map<Seq<char>, u16>,
    table: Map<(Seq<char>, Mode), Instruction>,
) -> Result<CodeView, AsmErrorView>
    decreases nodes,
{
    if nodes.len() == 0 {
        Ok(state)
    } else {
        match emit_node(nodes.first(), state, labels, table) {
            Ok(next) => emit_nodes(nodes.drop_first(), next, labels, table),
            Err(e) => Err(e),
        }
    }
}

/// The state of an assembler.
pub struct AsmView {
    pub parser: ParserView,
    pub linker: LinkerView,
    pub code: CodeView,
    pub instructions: Map<(Seq<char>, Mode), Instruction>,
}

/// The assembler for `text` at `origin`, before anything was done.
pub open spec fn initial(
    text: Seq<char>,
    origin: u16,
    instructions: Map<(Seq<char>, Mode), Instruction>,
) -> AsmView {
    AsmView {
        parser: load(text, 0),
        linker: LinkerView { labels: Map::empty(), counter: origin },
        code: CodeView { program: Seq::empty(), counter: origin },
        instructions,
    }
}

/// Assembling a tree: the whole tree is indexed, and only then is its code
/// generated, so that a label may be used before it is declared. The first
/// error ends it.
pub open spec fn assemble_tree(ast: AstView, state: AsmView) -> Result<AsmView, AsmErrorView> {
    match index_node(ast, state.linker, state.instructions) {
        Err(e) => Err(e),
        Ok(linker) => match emit_node(ast, state.code, linker.labels, state.instructions) {
            Err(e) => Err(e),
            Ok(code) => Ok(AsmView { linker, code, ..state }),
        },
    }
}

/// Assembling from a state: the rest of the text is parsed, and the program
/// it denotes is assembled.
pub open spec fn assemble_from(state: AsmView) -> Result<AsmView, AsmErrorView> {
    match parse_from(state.parser) {
        Err(e) => Err(AsmErrorView::Syntax(e)),
        Ok((ast, parser)) => assemble_tree(ast, AsmView { parser, ..state }),
    }
}

/// The bytes of the program that `text` denotes, placed at `origin`.
pub open spec fn assemble(
    text: Seq<char>,
    origin: u16,
    instructions: Map<(Seq<char>, Mode), Instruction>,
) -> Result<Seq<u8>, AsmErrorView> {
    match assemble_from(initial(text, origin, instructions)) {
        Ok(state) => Ok(state.code.program),
        Err(e) => Err(e),
    }
}

/// Whether the outcome of assembling is the one that `model` says: the same
/// bytes or the same error.
pub open spec fn assembled(
    outcome: Result<Vec<u8>, AsmError>,
    model: Result<Seq<u8>, AsmErrorView>,
) -> bool {
    match model {
        Ok(program) => outcome is Ok && outcome->Ok_0@ == program,
        Err(e) => outcome is Err && outcome->Err_0@ == e,
    }
}

/// An assembler for one source text.
pub struct Asm {
    parser: Parser,
    program: Vec<u8>,
    linker: Linker,
    program_counter: u16,
    instructions: InstructionSet,
}

impl View for Asm {
    type V = AsmView;

    closed spec fn view(&self) -> AsmView {
        AsmView {
            parser: self.parser@,
            linker: self.linker@,
            code: CodeView { program: self.program@, counter: self.program_counter },
            instructions: self.instructions@,
        }
    }
}

impl Asm {
    /// An assembler for `text`, whose program is to stand at `origin`, with
    /// the instructions of `instructions`.
    pub fn new(text: String, origin: u16, instructions: InstructionSet) -> (assembler: Self)
        ensures
            assembler@ == initial(text@, origin, instructions@),
    {
        Self {
            parser: Parser::new(text),
            linker: Linker::new(origin),
            program_counter: origin,
            program: Vec::new(),
            instructions,
        }
    }

    /// Assembles the text: `Ok` with the bytes of the program or the first
    /// error. After an error the assembler is of no further use.
    pub fn compile(&mut self) -> (program: Result<Vec<u8>, AsmError>)
        ensures
            match assemble_from(old(self)@) {
                Ok(state) => program is Ok && program->Ok_0@ == state.code.program && final(self)@
                    == state,
                Err(e) => program is Err && program->Err_0@ == e,
            },
    {
        let ast = match self.parser.parse() {
            Ok(ast) => ast,
            Err(e) => {
                return Err(AsmError::Syntax(e));
            },
        };
        self.assemble(&ast)
    }

    /// Assembles a syntax tree after what was assembled before: `Ok` with
    /// the bytes of the program so far or the first error. After an error
    /// the assembler is of no further use.
    pub fn assemble(&mut self, ast: &Ast) -> (program: Result<Vec<u8>, AsmError>)
        ensures
            match assemble_tree(ast@, old(self)@) {
                Ok(state) => program is Ok && program->Ok_0@ == state.code.program && final(self)@
                    == state,
                Err(e) => program is Err && program->Err_0@ == e,
            },
    {
        self.linker.index(ast, &self.instructions)?;
        self.visit(ast)?;
        Ok(self.program.clone())
    }

    /// Generates the code of `ast` after what was generated before.
    fn visit(&mut self, ast: &Ast) -> (done: Result<(), AsmError>)
        ensures
            match emit_node(
                ast@,
                old(self)@.code,
                old(self)@.linker.labels,
                old(self)@.instructions,
            ) {
                Ok(code) => done is Ok && final(self)@ == (AsmView { code, ..old(self)@ }),
                Err(e) => done is Err && done->Err_0@ == e,
            },
        decreases ast,
    {
        match ast {
            Ast::Statements(statements) => {
                let ghost nodes = nodes_view(statements@);
                proof {
                    lemma_nodes_view(statements@);
                    assert(nodes.skip(0) == nodes);
                }
                let mut i: usize = 0;
                while i < statements.len()
                    invariant
                        i <= statements.len(),
                        *ast == Ast::Statements(*statements),
                        ast@ == AstView::Statements(nodes),
                        nodes.len() == statements.len(),
                        forall|i: int|
                            0 <= i < nodes.len() ==> (#[trigger] nodes[i]) == statements[i]@,
                        self@ == (AsmView { code: self@.code, ..old(self)@ }),
                        emit_nodes(
                            nodes.skip(i as int),
                            self@.code,
                            self@.linker.labels,
                            self@.instructions,
                        ) == emit_nodes(
                            nodes,
                            old(self)@.code,
                            old(self)@.linker.labels,
                            old(self)@.instructions,
                        ),
                    decreases statements.len() - i,
                {
                    proof {
                        assert(nodes.skip(i as int).first() == statements[i as int]@);
                        assert(nodes.skip(i as int).drop_first() == nodes.skip(i + 1));
                    }
                    self.visit(&statements[i])?;
                    i += 1;
                }
                Ok(())
            },
            Ast::Instruction { instruction: i, args: a } => {
                let instruction = find_instruction(&self.instructions, i, a)?;
                let mut arg = self.get_args_bytes(a, &instruction)?;
                self.program.push(instruction.opcode);
                self.program.append(&mut arg);
                self.program_counter = self.program_counter.wrapping_add(instruction.len as u16);
                Ok(())
            },
            Ast::Label(_) => Ok(()),
            _ => Err(AsmError::UnexpectedNode),
        }
    }

    /// The bytes that encode the operand of `instruction`, which is about to
    /// be emitted.
    fn get_args_bytes(&self, args: &Option<Box<Ast>>, instruction: &Instruction) -> (bytes: Result<
        Vec<u8>,
        AsmError,
    >)
        ensures
            assembled(
                bytes,
                operand_bytes(
                    args_view(*args),
                    *instruction,
                    self@.linker.labels,
                    self@.code.counter,
                ),
            ),
    {
        let mut bytes: Vec<u8> = Vec::new();
        if let Some(args) = args {
            match &**args {
                Ast::Absolute(address16) => {
                    bytes.push((*address16 % 256) as u8);
                    bytes.push((*address16 / 256) as u8);
                },
                Ast::ZeroPage(address8) => {
                    bytes.push(*address8);
                },
                Ast::AbsoluteIndirect(address16) => {
                    bytes.push((*address16 % 256) as u8);
                    bytes.push((*address16 / 256) as u8);
                },
                Ast::AsoluteIndexed(address16, _) => {
                    bytes.push((*address16 % 256) as u8);
                    bytes.push((*address16 / 256) as u8);
                },
                Ast::ZeroPageIndexed(address8, _) => {
                    bytes.push(*address8);
                },
                Ast::IndirectX(address8) => {
                    bytes.push(*address8);
                },
                Ast::IndirectY(address8) => {
                    bytes.push(*address8);
                },
                Ast::Label(label) => {
                    return self.linker.link(label.as_str(), instruction, self.program_counter);
                },
                Ast::Number8(number) => {
                    bytes.push(*number);
                },
                Ast::Accumulator => {},
                Ast::Statements(_) => {
                    return Err(AsmError::InvalidOperand);
                },
                Ast::Instruction { .. } => {
                    return Err(AsmError::InvalidOperand);
                },
            }
        }
        assert(bytes@ =~= operand_bytes(
            args_view(*args),
            *instruction,
            self@.linker.labels,
            self@.code.counter,
        )->Ok_0);
        Ok(bytes)
    }
}

/// Assembles `text` for a program that stands at `origin`: `Ok` with its
/// bytes, or the first error.
pub fn compile(text: String, origin: u16, instructions: InstructionSet) -> (program: Result<
    Vec<u8>,
    AsmError,
>)
    ensures
        assembled(program, assemble(text@, origin, instructions@)),
{
    let mut assembler = Asm::new(text, origin, instructions);
    assembler.compile()
}

} // verus!
