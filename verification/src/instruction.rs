//! The instruction set as the assembler sees it: a table from a mnemonic and
//! the addressing mode of its operand to an opcode and an encoded length.

use vstd::prelude::*;

verus! {

/// The shapes that the encoding of an operand can take.
#[derive(Debug, PartialEq, Eq, Clone, Copy, Hash, Structural)]
pub enum Mode {
    Implicit,
    Accumulator,
    Immediate,
    ZeroPage,
    ZeroPageX,
    ZeroPageY,
    Absolute,
    AbsoluteX,
    AbsoluteY,
    Indirect,
    IndirectX,
    IndirectY,
    Relative,
}

/// What the instruction set says of one mnemonic with one kind of operand.
#[derive(Debug, PartialEq, Eq, Clone, Copy, Structural)]
pub struct Instruction {
    /// The first byte of the encoding.
    pub opcode: u8,
    /// The mode in which the operand is encoded. For an operand that is a
    /// bare label this decides between a branch distance and an address.
    pub mode: Mode,
    /// The number of bytes of the encoding, opcode included.
    pub len: u8,
}

/// The number of operand bytes that code generation emits for an operand
/// that asks for `requested`, under an instruction whose own mode is
/// `resolved`. Only a bare label, which asks for `Relative`, depends on the
/// latter, and is encoded in no other mode than `Relative` and `Absolute`.
pub open spec fn operand_width(requested: Mode, resolved: Mode) -> Option<nat> {
    match requested {
        Mode::Implicit | Mode::Accumulator => Some(0),
        Mode::Immediate
        | Mode::ZeroPage
        | Mode::ZeroPageX
        | Mode::ZeroPageY
        | Mode::IndirectX
        | Mode::IndirectY => Some(1),
        Mode::Absolute | Mode::AbsoluteX | Mode::AbsoluteY | Mode::Indirect => Some(2),
        Mode::Relative => match resolved {
            Mode::Relative => Some(1),
            Mode::Absolute => Some(2),
            _ => None,
        },
    }
}

/// Whether an instruction's length is that of an opcode and the operand
/// bytes that follow it, for an operand that asks for `requested`.
pub open spec fn consistent(requested: Mode, instruction: Instruction) -> bool {
    &&& 1 <= instruction.len <= 3
    &&& match operand_width(requested, instruction.mode) {
        Some(width) => instruction.len == 1 + width,
        None => true,
    }
}

/// Whether every instruction of a table has the length of its encoding.
pub open spec fn table_consistent(table: Map<(Seq<char>, Mode), Instruction>) -> bool {
    forall|name: Seq<char>, mode: Mode| #[trigger]
        table.contains_key((name, mode)) ==> consistent(mode, table[(name, mode)])
}

/// One line of the table.
#[derive(Debug)]
struct Entry {
    name: String,
    mode: Mode,
    instruction: Instruction,
}

/// The table as a map, later lines taking precedence. Only lines whose
/// length is that of their encoding count.
spec fn table_of(entries: Seq<Entry>) -> Map<(Seq<char>, Mode), Instruction>
    decreases entries.len(),
{
    if entries.len() == 0 {
        Map::empty()
    } else {
        let last = entries.last();
        if consistent(last.mode, last.instruction) {
            table_of(entries.drop_last()).insert((last.name@, last.mode), last.instruction)
        } else {
            table_of(entries.drop_last())
        }
    }
}

proof fn lemma_table_consistent(entries: Seq<Entry>)
    ensures
        table_consistent(table_of(entries)),
    decreases entries.len(),
{
    if entries.len() > 0 {
        lemma_table_consistent(entries.drop_last());
    }
}

/// Whether `instruction` has the length of its encoding.
fn fits(requested: Mode, instruction: &Instruction) -> (b: bool)
    ensures
        b == consistent(requested, *instruction),
{
    instruction.len >= 1 && instruction.len <= 3 && match requested {
        Mode::Implicit | Mode::Accumulator => instruction.len == 1,
        Mode::Immediate
        | Mode::ZeroPage
        | Mode::ZeroPageX
        | Mode::ZeroPageY
        | Mode::IndirectX
        | Mode::IndirectY => instruction.len == 2,
        Mode::Absolute | Mode::AbsoluteX | Mode::AbsoluteY | Mode::Indirect => instruction.len == 3,
        Mode::Relative => match instruction.mode {
            Mode::Relative => instruction.len == 2,
            Mode::Absolute => instruction.len == 3,
            _ => true,
        },
    }
}

/// An instruction set: for a mnemonic and the addressing mode that an
/// operand asks for, the opcode, the mode of the encoding and its length.
/// Every length in it is the number of bytes that the encoding takes.
#[derive(Debug)]
pub struct InstructionSet {
    entries: Vec<Entry>,
}

impl View for InstructionSet {
    type V = Map<(Seq<char>, Mode), Instruction>;

    closed spec fn view(&self) -> Map<(Seq<char>, Mode), Instruction> {
        table_of(self.entries@)
    }
}

impl InstructionSet {
    /// An instruction set without instructions.
    pub fn new() -> (set: Self)
        ensures
            set@ == Map::<(Seq<char>, Mode), Instruction>::empty(),
    {
        Self { entries: Vec::new() }
    }

    /// Adds an instruction for `name` with an operand that asks for `mode`,
    /// in place of an earlier one for the same pair. An instruction whose
    /// length is not that of its encoding is refused.
    pub fn define(&mut self, name: String, mode: Mode, instruction: Instruction) -> (done: bool)
        ensures
            done == consistent(mode, instruction),
            done ==> final(self)@ == old(self)@.insert((name@, mode), instruction),
            !done ==> final(self)@ == old(self)@,
    {
        let done = fits(mode, &instruction);
        if done {
            let ghost before = self.entries@;
            self.entries.push(Entry { name, mode, instruction });
            assert(self.entries@.drop_last() == before);
        }
        done
    }

    /// The instruction for `name` with an operand that asks for `mode`, if
    /// the set has one.
    pub fn get_instruction(&self, name: &String, mode: Mode) -> (found: Option<Instruction>)
        ensures
            found == if self@.contains_key((name@, mode)) {
                Some(self@[(name@, mode)])
            } else {
                None
            },
            table_consistent(self@),
    {
        proof {
            lemma_table_consistent(self.entries@);
            assert(self.entries@.take(self.entries.len() as int) == self.entries@);
        }
        let mut i: usize = self.entries.len();
        while i > 0
            invariant
                i <= self.entries.len(),
                table_consistent(self@),
                self@.contains_key((name@, mode)) == table_of(
                    self.entries@.take(i as int),
                ).contains_key((name@, mode)),
                self@.contains_key((name@, mode)) ==> self@[(name@, mode)] == table_of(
                    self.entries@.take(i as int),
                )[(name@, mode)],
            decreases i,
        {
            i -= 1;
            let entry = &self.entries[i];
            assert(self.entries@.take(i + 1).drop_last() == self.entries@.take(i as int));
            if entry.mode == mode && entry.name == *name && fits(entry.mode, &entry.instruction) {
                return Some(entry.instruction);
            }
        }
        None
    }

    /// Every instruction of the set has the length of its encoding.
    pub proof fn lemma_consistent(&self)
        ensures
            table_consistent(self@),
    {
        lemma_table_consistent(self.entries@);
    }
}

} // verus!
