//! The errors of assembling. All of them are fatal: no output is produced.

use crate::instruction::Mode;
use crate::parser::{ParseError, ParseErrorView};
use vstd::prelude::*;

verus! {

/// Why a program cannot be assembled.
#[derive(Debug, PartialEq, Clone)]
pub enum AsmError {
    /// The source text is no program.
    Syntax(ParseError),
    /// A node stands as a statement that is neither a sequence of
    /// statements, a label nor an instruction.
    UnexpectedNode,
    /// An instruction's operand is no operand, or is indexed by a register
    /// other than X and Y.
    InvalidOperand,
    /// The instruction set has no such instruction with such an operand.
    UnknownInstruction { mnemonic: String, mode: Mode },
    /// A label is referred to and declared nowhere.
    UndefinedLabel(String),
    /// A label is the operand of an instruction that encodes its operand
    /// neither as a branch distance nor as an address.
    UnexpectedMode(Mode),
}

/// What an `AsmError` stands for in contracts.
pub enum AsmErrorView {
    Syntax(ParseErrorView),
    UnexpectedNode,
    InvalidOperand,
    UnknownInstruction { mnemonic: Seq<char>, mode: Mode },
    UndefinedLabel(Seq<char>),
    UnexpectedMode(Mode),
}

impl View for AsmError {
    type V = AsmErrorView;

    open spec fn view(&self) -> AsmErrorView {
        match self {
            AsmError::Syntax(e) => AsmErrorView::Syntax(e@),
            AsmError::UnexpectedNode => AsmErrorView::UnexpectedNode,
            AsmError::InvalidOperand => AsmErrorView::InvalidOperand,
            AsmError::UnknownInstruction { mnemonic, mode } => AsmErrorView::UnknownInstruction {
                mnemonic: mnemonic@,
                mode: *mode,
            },
            AsmError::UndefinedLabel(name) => AsmErrorView::UndefinedLabel(name@),
            AsmError::UnexpectedMode(mode) => AsmErrorView::UnexpectedMode(*mode),
        }
    }
}

} // verus!
