use asm_6502::ast::Ast;
use asm_6502::lexer::{LexError, Symbol, Token, TokenType};
use asm_6502::parser::{Expected, ParseError, Parser};

fn parse(text: &str) -> Result<Ast, ParseError> {
    Parser::new(String::from(text)).parse()
}

fn instruction(name: &str, args: Option<Ast>) -> Ast {
    Ast::Instruction {
        instruction: String::from(name),
        args: args.map(Box::new),
    }
}

fn label(name: &str) -> Ast {
    Ast::Label(String::from(name))
}

fn unexpected(expected: Expected, found: Token) -> Result<Ast, ParseError> {
    Err(ParseError::Unexpected { expected, found })
}

#[test]
fn parse_instructions() {
    let txt = r#"       STA ($AA,X) ; this is a comment
                    label:  ADC ($BBAA)
                            STC ($AB),Y ; other comment
                            BNE label   ; still comment
                    other:  INX
                            ORA $F4F5,X ; commenting again
                            BEQ other"#;
    let mut parser = Parser::new(String::from(txt));
    let ast = parser.parse();
    assert_eq!(
        ast,
        Ok(Ast::Statements(vec![
            instruction("STA", Some(Ast::IndirectX(0xAA))),
            label("label"),
            instruction("ADC", Some(Ast::AbsoluteIndirect(0xBBAA))),
            instruction("STC", Some(Ast::IndirectY(0xAB))),
            instruction("BNE", Some(label("label"))),
            label("other"),
            instruction("INX", None),
            instruction("ORA", Some(Ast::AsoluteIndexed(0xF4F5, 'X'))),
            instruction("BEQ", Some(label("other"))),
        ]))
    );
}

#[test]
fn empty_text_is_an_empty_program() {
    assert_eq!(parse(""), Ok(Ast::Statements(vec![])));
    assert_eq!(parse("  \t"), Ok(Ast::Statements(vec![])));
}

#[test]
fn empty_lines_and_comments_give_no_statement() {
    assert_eq!(parse("\n\n"), Ok(Ast::Statements(vec![])));
    assert_eq!(parse("; only a comment"), Ok(Ast::Statements(vec![])));
    assert_eq!(
        parse("\n; first\n\nNOP\n\n; last\n"),
        Ok(Ast::Statements(vec![instruction("NOP", None)]))
    );
}

#[test]
fn parsing_again_gives_an_empty_program() {
    let mut parser = Parser::new(String::from("NOP"));
    assert_eq!(parser.parse(), Ok(Ast::Statements(vec![instruction("NOP", None)])));
    assert_eq!(parser.parse(), Ok(Ast::Statements(vec![])));
}

#[test]
fn every_operand_shape() {
    assert_eq!(
        parse("LDA #10\nLDA #$1F\nLDA #%101\nLDA $10\nLDA $10,X\nLDX $10,y\nLDA $1234\nLDA $1234,x\nLDA $1234,Y\nJMP ($1234)\nLDA ($10,x)\nLDA ($10),y\nASL A\nASL a\nJMP somewhere"),
        Ok(Ast::Statements(vec![
            instruction("LDA", Some(Ast::Number8(10))),
            instruction("LDA", Some(Ast::Number8(0x1F))),
            instruction("LDA", Some(Ast::Number8(5))),
            instruction("LDA", Some(Ast::ZeroPage(0x10))),
            instruction("LDA", Some(Ast::ZeroPageIndexed(0x10, 'X'))),
            instruction("LDX", Some(Ast::ZeroPageIndexed(0x10, 'y'))),
            instruction("LDA", Some(Ast::Absolute(0x1234))),
            instruction("LDA", Some(Ast::AsoluteIndexed(0x1234, 'x'))),
            instruction("LDA", Some(Ast::AsoluteIndexed(0x1234, 'Y'))),
            instruction("JMP", Some(Ast::AbsoluteIndirect(0x1234))),
            instruction("LDA", Some(Ast::IndirectX(0x10))),
            instruction("LDA", Some(Ast::IndirectY(0x10))),
            instruction("ASL", Some(Ast::Accumulator)),
            instruction("ASL", Some(Ast::Accumulator)),
            instruction("JMP", Some(label("somewhere"))),
        ]))
    );
}

#[test]
fn indirect_x_over_zero_page() {
    assert_eq!(
        parse("LDA ($FF,X)"),
        Ok(Ast::Statements(vec![instruction("LDA", Some(Ast::IndirectX(0xFF)))]))
    );
}

#[test]
fn names_are_taken_as_written() {
    assert_eq!(
        parse("Loop: lda #1\nloop:"),
        Ok(Ast::Statements(vec![
            label("Loop"),
            instruction("lda", Some(Ast::Number8(1))),
            label("loop"),
        ]))
    );
}

#[test]
fn a_label_and_an_instruction_share_a_line() {
    assert_eq!(
        parse("start: NOP ; go\nend:"),
        Ok(Ast::Statements(vec![label("start"), instruction("NOP", None), label("end")]))
    );
}

#[test]
fn the_end_of_input_ends_a_statement() {
    assert_eq!(
        parse("BNE"),
        Ok(Ast::Statements(vec![instruction("BNE", None)]))
    );
}

#[test]
fn a_statement_starts_with_a_name() {
    assert_eq!(parse("10"), unexpected(Expected::Type(TokenType::Text), Token::Decimal(10)));
    assert_eq!(
        parse("NOP\n$10"),
        unexpected(Expected::Type(TokenType::Text), Token::Hexa8(0x10))
    );
    assert_eq!(
        parse(": NOP"),
        unexpected(Expected::Type(TokenType::Text), Token::Symbol(Symbol::Colon))
    );
    assert_eq!(
        parse("LDA $10 $20"),
        unexpected(Expected::Type(TokenType::Text), Token::Hexa8(0x20))
    );
}

#[test]
fn a_bare_number_is_no_operand() {
    assert_eq!(parse("LDA 10"), unexpected(Expected::Operand, Token::Decimal(10)));
    assert_eq!(parse("LDA %1"), unexpected(Expected::Operand, Token::Binary(1)));
}

#[test]
fn an_immediate_is_a_number_of_eight_bits() {
    assert_eq!(parse("LDA #$1234"), unexpected(Expected::Number, Token::Hexa16(0x1234)));
    assert_eq!(parse("LDA #"), unexpected(Expected::Number, Token::Eof));
    assert_eq!(
        parse("LDA #X"),
        unexpected(Expected::Number, Token::Text(String::from("X")))
    );
}

#[test]
fn index_registers_are_x_and_y() {
    assert_eq!(
        parse("LDA $10,Z"),
        unexpected(Expected::IndexRegister, Token::Text(String::from("Z")))
    );
    assert_eq!(
        parse("LDA $1234,XY"),
        unexpected(Expected::IndexRegister, Token::Text(String::from("XY")))
    );
    assert_eq!(parse("LDA $1234,"), unexpected(Expected::IndexRegister, Token::Eof));
    assert_eq!(
        parse("LDA ($10,Y)"),
        unexpected(Expected::RegisterX, Token::Text(String::from("Y")))
    );
    assert_eq!(
        parse("LDA ($10),X"),
        unexpected(Expected::RegisterY, Token::Text(String::from("X")))
    );
}

#[test]
fn parentheses_hold_an_address() {
    assert_eq!(parse("JMP (#1)"), unexpected(Expected::Address, Token::Symbol(Symbol::HashTag)));
    assert_eq!(
        parse("JMP (label)"),
        unexpected(Expected::Address, Token::Text(String::from("label")))
    );
    assert_eq!(parse("JMP ($1234"), unexpected(Expected::Symbol(Symbol::RPar), Token::Eof));
    assert_eq!(
        parse("JMP ($1234,X)"),
        unexpected(Expected::Symbol(Symbol::RPar), Token::Symbol(Symbol::Coma))
    );
    assert_eq!(parse("LDA ($10"), unexpected(Expected::Separator, Token::Eof));
    assert_eq!(
        parse("LDA ($10)"),
        unexpected(Expected::Symbol(Symbol::Coma), Token::Eof)
    );
    assert_eq!(
        parse("LDA ($10,X"),
        unexpected(Expected::Symbol(Symbol::RPar), Token::Eof)
    );
}

#[test]
fn lexical_errors_end_parsing() {
    assert_eq!(parse("$12345"), Err(ParseError::Lexical(LexError::HexaSize)));
    assert_eq!(parse("LDA #300"), Err(ParseError::Lexical(LexError::DecimalOverflow)));
    assert_eq!(parse("NOP\nLDA %"), Err(ParseError::Lexical(LexError::BinarySize)));
    assert_eq!(parse("NOP @"), Err(ParseError::Lexical(LexError::UnknownChar('@'))));
}
