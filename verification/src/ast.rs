//! The syntax tree that parsing produces and that label indexing and code
//! generation read.

use crate::instruction::Mode;
use vstd::prelude::*;

verus! {

/// A node of the syntax tree: a sequence of statements, a statement (a label
/// declaration or an instruction) or an operand of an instruction.
#[derive(Debug, PartialEq)]
pub enum Ast {
    Statements(Vec<Ast>),
    Instruction { instruction: String, args: Option<Box<Ast>> },
    /// As a statement, the declaration of a label; as an operand, a
    /// reference to one.
    Label(String),
    /// The accumulator register as an operand.
    Accumulator,
    Number8(u8),
    Absolute(u16),
    ZeroPage(u8),
    AbsoluteIndirect(u16),
    AsoluteIndexed(u16, char),
    ZeroPageIndexed(u8, char),
    IndirectX(u8),
    IndirectY(u8),
}

/// What an `Ast` stands for in contracts: the same tree over sequences.
pub enum AstView {
    Statements(Seq<AstView>),
    Instruction { instruction: Seq<char>, args: Option<Box<AstView>> },
    Label(Seq<char>),
    Accumulator,
    Number8(u8),
    Absolute(u16),
    ZeroPage(u8),
    AbsoluteIndirect(u16),
    AsoluteIndexed(u16, char),
    ZeroPageIndexed(u8, char),
    IndirectX(u8),
    IndirectY(u8),
}

/// The model of an optional operand.
pub open spec fn args_view(args: Option<Box<Ast>>) -> Option<Box<AstView>>
    decreases args,
{
    match args {
        Some(a) => Some(Box::new(node_view(*a))),
        None => None,
    }
}

/// The models of a sequence of nodes.
pub open spec fn nodes_view(nodes: Seq<Ast>) -> Seq<AstView>
    decreases nodes,
{
    if nodes.len() == 0 {
        Seq::empty()
    } else {
        nodes_view(nodes.drop_last()).push(node_view(nodes.last()))
    }
}

/// The model of one node.
pub open spec fn node_view(node: Ast) -> AstView
    decreases node,
{
    match node {
        Ast::Statements(nodes) => AstView::Statements(nodes_view(nodes@)),
        Ast::Instruction { instruction, args } => AstView::Instruction {
            instruction: instruction@,
            args: args_view(args),
        },
        Ast::Label(name) => AstView::Label(name@),
        Ast::Accumulator => AstView::Accumulator,
        Ast::Number8(n) => AstView::Number8(n),
        Ast::Absolute(a) => AstView::Absolute(a),
        Ast::ZeroPage(a) => AstView::ZeroPage(a),
        Ast::AbsoluteIndirect(a) => AstView::AbsoluteIndirect(a),
        Ast::AsoluteIndexed(a, r) => AstView::AsoluteIndexed(a, r),
        Ast::ZeroPageIndexed(a, r) => AstView::ZeroPageIndexed(a, r),
        Ast::IndirectX(a) => AstView::IndirectX(a),
        Ast::IndirectY(a) => AstView::IndirectY(a),
    }
}

impl View for Ast {
    type V = AstView;

    open spec fn view(&self) -> AstView {
        node_view(*self)
    }
}

/// The addressing mode that an operand's shape asks for, or `None` where the
/// node is no operand or names a register other than X and Y.
pub open spec fn addressing_mode_of(args: Option<Box<AstView>>) -> Option<Mode> {
    match args {
        None => Some(Mode::Implicit),
        Some(node) => match *node {
            AstView::Accumulator => Some(Mode::Accumulator),
            AstView::Number8(_) => Some(Mode::Immediate),
            AstView::Absolute(_) => Some(Mode::Absolute),
            AstView::ZeroPage(_) => Some(Mode::ZeroPage),
            AstView::AbsoluteIndirect(_) => Some(Mode::Indirect),
            AstView::IndirectX(_) => Some(Mode::IndirectX),
            AstView::IndirectY(_) => Some(Mode::IndirectY),
            AstView::AsoluteIndexed(_, r) => if r == 'x' || r == 'X' {
                Some(Mode::AbsoluteX)
            } else if r == 'y' || r == 'Y' {
                Some(Mode::AbsoluteY)
            } else {
                None
            },
            AstView::ZeroPageIndexed(_, r) => if r == 'x' || r == 'X' {
                Some(Mode::ZeroPageX)
            } else if r == 'y' || r == 'Y' {
                Some(Mode::ZeroPageY)
            } else {
                None
            },
            AstView::Label(_) => Some(Mode::Relative),
            AstView::Statements(_) => None,
            AstView::Instruction { .. } => None,
        },
    }
}

/// The addressing mode that an operand's shape asks for: a function of the
/// operand's variant alone, `Implicit` where there is no operand. A bare
/// label asks for `Relative`; which mode it is encoded in is for the
/// instruction set to say. `None` where the node is no operand, or names a
/// register other than X and Y.
pub fn get_addresing_mode(ast: &Option<Box<Ast>>) -> (mode: Option<Mode>)
    ensures
        mode == addressing_mode_of(args_view(*ast)),
{
    match ast {
        None => Some(Mode::Implicit),
        Some(node) => match &**node {
            Ast::Accumulator => Some(Mode::Accumulator),
            Ast::Number8(_) => Some(Mode::Immediate),
            Ast::Absolute(_) => Some(Mode::Absolute),
            Ast::ZeroPage(_) => Some(Mode::ZeroPage),
            Ast::AbsoluteIndirect(_) => Some(Mode::Indirect),
            Ast::IndirectX(_) => Some(Mode::IndirectX),
            Ast::IndirectY(_) => Some(Mode::IndirectY),
            Ast::AsoluteIndexed(_, r) => if *r == 'x' || *r == 'X' {
                Some(Mode::AbsoluteX)
            } else if *r == 'y' || *r == 'Y' {
                Some(Mode::AbsoluteY)
            } else {
                None
            },
            Ast::ZeroPageIndexed(_, r) => if *r == 'x' || *r == 'X' {
                Some(Mode::ZeroPageX)
            } else if *r == 'y' || *r == 'Y' {
                Some(Mode::ZeroPageY)
            } else {
                None
            },
            Ast::Label(_) => Some(Mode::Relative),
            Ast::Statements(_) => None,
            Ast::Instruction { .. } => None,
        },
    }
}

} // verus!
