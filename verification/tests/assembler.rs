use asm_6502::assembler::{compile, Asm};
use asm_6502::ast::Ast;
use asm_6502::error::AsmError;
use asm_6502::instruction::{Instruction, InstructionSet, Mode};
use asm_6502::lexer::LexError;
use asm_6502::parser::ParseError;

fn define(set: &mut InstructionSet, name: &str, operand: Mode, opcode: u8, mode: Mode, len: u8) {
    assert!(set.define(String::from(name), operand, Instruction { opcode, mode, len }));
}

fn instructions() -> InstructionSet {
    let mut set = InstructionSet::new();
    define(&mut set, "NOP", Mode::Implicit, 0xEA, Mode::Implicit, 1);
    define(&mut set, "INX", Mode::Implicit, 0xE8, Mode::Implicit, 1);
    define(&mut set, "ASL", Mode::Accumulator, 0x0A, Mode::Accumulator, 1);
    define(&mut set, "LDA", Mode::Immediate, 0xA9, Mode::Immediate, 2);
    define(&mut set, "LDA", Mode::ZeroPage, 0xA5, Mode::ZeroPage, 2);
    define(&mut set, "LDA", Mode::ZeroPageX, 0xB5, Mode::ZeroPageX, 2);
    define(&mut set, "LDX", Mode::ZeroPageY, 0xB6, Mode::ZeroPageY, 2);
    define(&mut set, "LDA", Mode::Absolute, 0xAD, Mode::Absolute, 3);
    define(&mut set, "LDA", Mode::AbsoluteX, 0xBD, Mode::AbsoluteX, 3);
    define(&mut set, "LDA", Mode::AbsoluteY, 0xB9, Mode::AbsoluteY, 3);
    define(&mut set, "LDA", Mode::IndirectX, 0xA1, Mode::IndirectX, 2);
    define(&mut set, "LDA", Mode::IndirectY, 0xB1, Mode::IndirectY, 2);
    define(&mut set, "STA", Mode::Absolute, 0x8D, Mode::Absolute, 3);
    define(&mut set, "JMP", Mode::Absolute, 0x4C, Mode::Absolute, 3);
    define(&mut set, "JMP", Mode::Indirect, 0x6C, Mode::Indirect, 3);
    define(&mut set, "JMP", Mode::Relative, 0x4C, Mode::Absolute, 3);
    define(&mut set, "JSR", Mode::Relative, 0x20, Mode::Absolute, 3);
    define(&mut set, "BNE", Mode::Relative, 0xD0, Mode::Relative, 2);
    define(&mut set, "BEQ", Mode::Relative, 0xF0, Mode::Relative, 2);
    define(&mut set, "BRK", Mode::Relative, 0x00, Mode::Implicit, 1);
    set
}

fn assemble(text: &str, origin: u16) -> Result<Vec<u8>, AsmError> {
    compile(String::from(text), origin, instructions())
}

#[test]
fn jump_to_a_label_at_the_origin() {
    assert_eq!(
        assemble("myLabel:\nNOP\nJMP myLabel", 0x0600),
        Ok(vec![0xEA, 0x4C, 0x00, 0x06])
    );
    assert_eq!(
        assemble("myLabel:\nNOP\nJMP myLabel", 0xC123),
        Ok(vec![0xEA, 0x4C, 0x23, 0xC1])
    );
}

#[test]
fn indirect_x_emits_its_zero_page_address() {
    assert_eq!(assemble("LDA ($FF,X)", 0x0600), Ok(vec![0xA1, 0xFF]));
}

#[test]
fn store_absolute_is_little_endian() {
    assert_eq!(assemble("STA $0200", 0x0600), Ok(vec![0x8D, 0x00, 0x02]));
    assert_eq!(assemble("STA $AABB", 0x0600), Ok(vec![0x8D, 0xBB, 0xAA]));
}

#[test]
fn a_hexadecimal_literal_of_five_digits_fails() {
    assert_eq!(
        assemble("LDA $12345", 0x0600),
        Err(AsmError::Syntax(ParseError::Lexical(LexError::HexaSize)))
    );
}

#[test]
fn an_undeclared_label_fails() {
    assert_eq!(
        assemble("NOP\nJMP nowhere", 0x0600),
        Err(AsmError::UndefinedLabel(String::from("nowhere")))
    );
    assert_eq!(
        assemble("BNE nowhere\nNOP", 0x0600),
        Err(AsmError::UndefinedLabel(String::from("nowhere")))
    );
}

#[test]
fn every_operand_shape_is_encoded() {
    assert_eq!(
        assemble(
            "NOP\nASL A\nLDA #10\nLDA $10\nLDA $11,X\nLDX $12,Y\nLDA $1234\nLDA $1235,X\nLDA $1236,y\nJMP ($1237)\nLDA ($13,x)\nLDA ($14),Y",
            0
        ),
        Ok(vec![
            0xEA, 0x0A, 0xA9, 10, 0xA5, 0x10, 0xB5, 0x11, 0xB6, 0x12, 0xAD, 0x34, 0x12, 0xBD,
            0x35, 0x12, 0xB9, 0x36, 0x12, 0x6C, 0x37, 0x12, 0xA1, 0x13, 0xB1, 0x14,
        ])
    );
}

#[test]
fn an_empty_program_is_no_bytes() {
    assert_eq!(assemble("", 0x0600), Ok(vec![]));
    assert_eq!(assemble("; nothing\n\nonly:", 0x0600), Ok(vec![]));
}

#[test]
fn assembling_twice_gives_the_same_bytes() {
    let text = "LDA #1\nSTA $0200\nLDA ($10),Y\nINX\nNOP";
    let first = assemble(text, 0x0600);
    let second = assemble(text, 0x0600);
    assert_eq!(first, Ok(vec![0xA9, 1, 0x8D, 0x00, 0x02, 0xB1, 0x10, 0xE8, 0xEA]));
    assert_eq!(first, second);
    assert_eq!(assemble(text, 0x8000), first);
}

#[test]
fn compiling_again_gives_the_same_program() {
    let mut assembler = Asm::new(String::from("start: INX\nJMP start"), 0x0600, instructions());
    assert_eq!(assembler.compile(), Ok(vec![0xE8, 0x4C, 0x00, 0x06]));
    assert_eq!(assembler.compile(), Ok(vec![0xE8, 0x4C, 0x00, 0x06]));
}

#[test]
fn a_backward_branch() {
    // loop is at 0x0600, the branch at 0x0601, the byte after it at 0x0603.
    assert_eq!(assemble("loop: INX\nBNE loop", 0x0600), Ok(vec![0xE8, 0xD0, 0xFD]));
    assert_eq!(assemble("loop: BNE loop", 0x0600), Ok(vec![0xD0, 0xFE]));
}

#[test]
fn a_forward_branch() {
    assert_eq!(
        assemble("BEQ done\nINX\nINX\ndone: NOP", 0x0600),
        Ok(vec![0xF0, 0x02, 0xE8, 0xE8, 0xEA])
    );
    assert_eq!(assemble("BEQ next\nnext:", 0x0600), Ok(vec![0xF0, 0x00]));
}

#[test]
fn a_label_is_found_before_and_after_its_declaration() {
    assert_eq!(
        assemble("JMP target\nNOP\ntarget: NOP\nJMP target", 0x0600),
        Ok(vec![0x4C, 0x04, 0x06, 0xEA, 0xEA, 0x4C, 0x04, 0x06])
    );
    assert_eq!(
        assemble("NOP\ntarget: NOP\nJMP target", 0x0603),
        Ok(vec![0xEA, 0xEA, 0x4C, 0x04, 0x06])
    );
    assert_eq!(
        assemble("JSR target\ntarget: NOP", 0x0601),
        Ok(vec![0x20, 0x04, 0x06, 0xEA])
    );
}

#[test]
fn both_counters_stay_in_step() {
    // Every label is the origin plus the number of bytes emitted before it.
    let text = "one: LDA #1\ntwo: STA $0200\nthree: JMP ($1234)\nfour: INX\nfive: JMP one\nJMP two\nJMP three\nJMP four\nJMP five";
    assert_eq!(
        assemble(text, 0x1000),
        Ok(vec![
            0xA9, 0x01, 0x8D, 0x00, 0x02, 0x6C, 0x34, 0x12, 0xE8, 0x4C, 0x00, 0x10, 0x4C, 0x02,
            0x10, 0x4C, 0x05, 0x10, 0x4C, 0x08, 0x10, 0x4C, 0x09, 0x10,
        ])
    );
}

#[test]
fn a_branch_too_far_wraps() {
    let mut text = String::from("BNE far\n");
    for _ in 0..200 {
        text.push_str("NOP\n");
    }
    text.push_str("far: NOP");
    let program = assemble(&text, 0x0600).unwrap();
    assert_eq!(program.len(), 203);
    assert_eq!(program[1], 200);
    let mut text = String::from("far: NOP\n");
    for _ in 0..200 {
        text.push_str("NOP\n");
    }
    text.push_str("BNE far");
    let program = assemble(&text, 0x0600).unwrap();
    // -203 modulo 256
    assert_eq!(program[202], 53);
}

#[test]
fn the_last_declaration_of_a_label_wins() {
    assert_eq!(
        assemble("here: NOP\nhere: NOP\nJMP here", 0x0600),
        Ok(vec![0xEA, 0xEA, 0x4C, 0x01, 0x06])
    );
    assert_eq!(
        assemble("JMP here\nhere: NOP\nhere: NOP", 0x0600),
        Ok(vec![0x4C, 0x04, 0x06, 0xEA, 0xEA])
    );
}

#[test]
fn labels_are_case_sensitive() {
    assert_eq!(
        assemble("Here: NOP\nJMP here", 0x0600),
        Err(AsmError::UndefinedLabel(String::from("here")))
    );
}

#[test]
fn addresses_wrap_around() {
    assert_eq!(
        assemble("NOP\nNOP\nover: JMP over", 0xFFFF),
        Ok(vec![0xEA, 0xEA, 0x4C, 0x01, 0x00])
    );
}

#[test]
fn an_unknown_instruction_fails() {
    assert_eq!(
        assemble("XYZ", 0x0600),
        Err(AsmError::UnknownInstruction { mnemonic: String::from("XYZ"), mode: Mode::Implicit })
    );
    assert_eq!(
        assemble("NOP #1", 0x0600),
        Err(AsmError::UnknownInstruction { mnemonic: String::from("NOP"), mode: Mode::Immediate })
    );
    assert_eq!(
        assemble("nop", 0x0600),
        Err(AsmError::UnknownInstruction { mnemonic: String::from("nop"), mode: Mode::Implicit })
    );
    assert_eq!(
        assemble("LDA somewhere", 0x0600),
        Err(AsmError::UnknownInstruction { mnemonic: String::from("LDA"), mode: Mode::Relative })
    );
}

#[test]
fn a_label_under_an_instruction_without_address_fails() {
    assert_eq!(
        assemble("here: BRK here", 0x0600),
        Err(AsmError::UnexpectedMode(Mode::Implicit))
    );
}

#[test]
fn the_accumulator_is_no_label() {
    assert_eq!(assemble("a: ASL a\nA: ASL A", 0x0600), Ok(vec![0x0A, 0x0A]));
    assert_eq!(
        assemble("a: JMP a", 0x0600),
        Err(AsmError::UnknownInstruction { mnemonic: String::from("JMP"), mode: Mode::Accumulator })
    );
}

#[test]
fn a_syntax_error_fails() {
    assert!(matches!(assemble("LDA #", 0x0600), Err(AsmError::Syntax(_))));
}

fn instruction(name: &str, args: Option<Ast>) -> Ast {
    Ast::Instruction { instruction: String::from(name), args: args.map(Box::new) }
}

fn assemble_tree(ast: &Ast, origin: u16) -> Result<Vec<u8>, AsmError> {
    Asm::new(String::new(), origin, instructions()).assemble(ast)
}

#[test]
fn a_tree_is_assembled_like_its_text() {
    let tree = Ast::Statements(vec![
        Ast::Label(String::from("myLabel")),
        instruction("NOP", None),
        instruction("JMP", Some(Ast::Label(String::from("myLabel")))),
    ]);
    assert_eq!(assemble_tree(&tree, 0x0600), Ok(vec![0xEA, 0x4C, 0x00, 0x06]));
    assert_eq!(assemble_tree(&instruction("NOP", None), 0x0600), Ok(vec![0xEA]));
    assert_eq!(assemble_tree(&Ast::Label(String::from("alone")), 0x0600), Ok(vec![]));
}

#[test]
fn nested_sequences_are_walked_in_order() {
    let tree = Ast::Statements(vec![
        instruction("BEQ", Some(Ast::Label(String::from("inner")))),
        Ast::Statements(vec![
            instruction("INX", None),
            Ast::Statements(vec![]),
            Ast::Label(String::from("inner")),
            instruction("LDA", Some(Ast::Number8(7))),
        ]),
        instruction("JMP", Some(Ast::Label(String::from("inner")))),
    ]);
    assert_eq!(
        assemble_tree(&tree, 0x0600),
        Ok(vec![0xF0, 0x01, 0xE8, 0xA9, 0x07, 0x4C, 0x03, 0x06])
    );
}

#[test]
fn trees_are_assembled_one_after_the_other() {
    let mut assembler = Asm::new(String::new(), 0x0600, instructions());
    assert_eq!(
        assembler.assemble(&Ast::Statements(vec![
            Ast::Label(String::from("first")),
            instruction("NOP", None),
        ])),
        Ok(vec![0xEA])
    );
    assert_eq!(
        assembler.assemble(&Ast::Statements(vec![
            instruction("JMP", Some(Ast::Label(String::from("first")))),
            Ast::Label(String::from("second")),
            instruction("JMP", Some(Ast::Label(String::from("second")))),
        ])),
        Ok(vec![0xEA, 0x4C, 0x00, 0x06, 0x4C, 0x04, 0x06])
    );
}

#[test]
fn an_operand_is_no_statement() {
    assert_eq!(assemble_tree(&Ast::Number8(1), 0), Err(AsmError::UnexpectedNode));
    assert_eq!(assemble_tree(&Ast::Accumulator, 0), Err(AsmError::UnexpectedNode));
    assert_eq!(
        assemble_tree(
            &Ast::Statements(vec![instruction("NOP", None), Ast::Absolute(0x1234)]),
            0
        ),
        Err(AsmError::UnexpectedNode)
    );
}

#[test]
fn a_statement_is_no_operand() {
    assert_eq!(
        assemble_tree(&instruction("LDA", Some(instruction("NOP", None))), 0),
        Err(AsmError::InvalidOperand)
    );
    assert_eq!(
        assemble_tree(&instruction("LDA", Some(Ast::Statements(vec![]))), 0),
        Err(AsmError::InvalidOperand)
    );
    assert_eq!(
        assemble_tree(&instruction("LDA", Some(Ast::ZeroPageIndexed(0x10, 'A'))), 0),
        Err(AsmError::InvalidOperand)
    );
}
