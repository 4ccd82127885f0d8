use asm_6502::lexer::{get_token_type, LexError, Lexer, Symbol, Token, TokenType};

fn tokens(text: &str) -> Vec<Result<Token, LexError>> {
    let mut lexer = Lexer::new(String::from(text));
    let mut found = Vec::new();
    loop {
        let token = lexer.get_next_token();
        let stop = matches!(token, Ok(Token::Eof) | Err(_));
        found.push(token);
        if stop {
            return found;
        }
    }
}

#[test]
fn read_text() {
    let str = String::from("myLabel");
    let mut lexer = Lexer::new(str);
    assert_eq!(
        lexer.get_next_token(),
        Ok(Token::Text(String::from("myLabel")))
    )
}

#[test]
fn read_decimal() {
    let str = String::from("123");
    let mut lexer = Lexer::new(str);
    assert_eq!(lexer.get_next_token(), Ok(Token::Decimal(123)))
}

#[test]
fn read_hexa8() {
    let str = String::from("$A0");
    let mut lexer = Lexer::new(str);
    assert_eq!(lexer.get_next_token(), Ok(Token::Hexa8(0xA0)))
}

#[test]
fn read_hexa16() {
    let str = String::from("$0BF1");
    let mut lexer = Lexer::new(str);
    assert_eq!(lexer.get_next_token(), Ok(Token::Hexa16(0x0BF1)))
}

#[test]
fn read_hexa_err() {
    let str = String::from("$0B5F1");
    let mut lexer = Lexer::new(str);
    assert!(lexer.get_next_token().is_err())
}

#[test]
fn read_bin() {
    let str = String::from("%101101");
    let mut lexer = Lexer::new(str);
    assert_eq!(lexer.get_next_token(), Ok(Token::Binary(0b101101)))
}

#[test]
fn skip_comment_single() {
    let str = String::from(";a comment");
    let mut lexer = Lexer::new(str);
    assert_eq!(lexer.get_next_token(), Ok(Token::Symbol(Symbol::SemiColon)));
    assert_eq!(lexer.get_next_token(), Ok(Token::Eof));
}

#[test]
fn skip_comment_multiple() {
    let str = String::from(";a comment\n; other comment");
    let mut lexer = Lexer::new(str);
    assert_eq!(lexer.get_next_token(), Ok(Token::Symbol(Symbol::SemiColon)));
    assert_eq!(lexer.get_next_token(), Ok(Token::Symbol(Symbol::NewLine)));
    assert_eq!(lexer.get_next_token(), Ok(Token::Symbol(Symbol::SemiColon)));
    assert_eq!(lexer.get_next_token(), Ok(Token::Eof));
}

#[test]
fn read_mutliple_lines() {
    let str = String::from(
        r#"myLabel
            otherLine"#,
    );
    let mut lexer = Lexer::new(str);
    assert_eq!(
        lexer.get_next_token(),
        Ok(Token::Text(String::from("myLabel")))
    );
    assert_eq!(lexer.get_next_token(), Ok(Token::Symbol(Symbol::NewLine)));
    assert_eq!(
        lexer.get_next_token(),
        Ok(Token::Text(String::from("otherLine")))
    );
    assert_eq!(lexer.get_next_token(), Ok(Token::Eof));
}

#[test]
fn read_complete_instruction() {
    let str = String::from("JMP ($AABB) ; this is a comment");
    let mut lexer = Lexer::new(str);
    println!("0");
    assert_eq!(lexer.get_next_token(), Ok(Token::Text(String::from("JMP"))));
    println!("1");
    assert_eq!(lexer.get_next_token(), Ok(Token::Symbol(Symbol::LPar)));
    println!("2");
    assert_eq!(lexer.get_next_token(), Ok(Token::Hexa16(0xAABB)));
    println!("3");
    assert_eq!(lexer.get_next_token(), Ok(Token::Symbol(Symbol::RPar)));
    println!("4");
    assert_eq!(lexer.get_next_token(), Ok(Token::Symbol(Symbol::SemiColon)));
    println!("5");
    assert_eq!(lexer.get_next_token(), Ok(Token::Eof));
}

#[test]
fn read_mutiple_complete_instruction() {
    let str = String::from(
        r###"myLabel: JMP ($AABB) ; this is a comment
        ADC ($FF, X) ; other comment"###,
    );
    let mut lexer = Lexer::new(str);
    assert_eq!(
        lexer.get_next_token(),
        Ok(Token::Text(String::from("myLabel")))
    );
    assert_eq!(lexer.get_next_token(), Ok(Token::Symbol(Symbol::Colon)));
    assert_eq!(lexer.get_next_token(), Ok(Token::Text(String::from("JMP"))));
    assert_eq!(lexer.get_next_token(), Ok(Token::Symbol(Symbol::LPar)));
    assert_eq!(lexer.get_next_token(), Ok(Token::Hexa16(0xAABB)));
    assert_eq!(lexer.get_next_token(), Ok(Token::Symbol(Symbol::RPar)));
    assert_eq!(lexer.get_next_token(), Ok(Token::Symbol(Symbol::SemiColon)));
    assert_eq!(lexer.get_next_token(), Ok(Token::Symbol(Symbol::NewLine)));
    assert_eq!(lexer.get_next_token(), Ok(Token::Text(String::from("ADC"))));
    assert_eq!(lexer.get_next_token(), Ok(Token::Symbol(Symbol::LPar)));
    assert_eq!(lexer.get_next_token(), Ok(Token::Hexa8(0xFF)));
    assert_eq!(lexer.get_next_token(), Ok(Token::Symbol(Symbol::Coma)));
    assert_eq!(lexer.get_next_token(), Ok(Token::Text(String::from("X"))));
    assert_eq!(lexer.get_next_token(), Ok(Token::Symbol(Symbol::RPar)));
    assert_eq!(lexer.get_next_token(), Ok(Token::Symbol(Symbol::SemiColon)));
    assert_eq!(lexer.get_next_token(), Ok(Token::Eof));
}

#[test]
fn empty_text_is_the_end_of_input() {
    assert_eq!(tokens(""), vec![Ok(Token::Eof)]);
    let mut lexer = Lexer::new(String::new());
    assert_eq!(lexer.get_next_token(), Ok(Token::Eof));
    assert_eq!(lexer.get_next_token(), Ok(Token::Eof));
}

#[test]
fn blanks_are_skipped_everywhere() {
    assert_eq!(tokens(" \t "), vec![Ok(Token::Eof)]);
    assert_eq!(
        tokens("\t NOP \t"),
        vec![Ok(Token::Text(String::from("NOP"))), Ok(Token::Eof)]
    );
}

#[test]
fn every_symbol_is_one_character() {
    assert_eq!(
        tokens("():,#\n"),
        vec![
            Ok(Token::Symbol(Symbol::LPar)),
            Ok(Token::Symbol(Symbol::RPar)),
            Ok(Token::Symbol(Symbol::Colon)),
            Ok(Token::Symbol(Symbol::Coma)),
            Ok(Token::Symbol(Symbol::HashTag)),
            Ok(Token::Symbol(Symbol::NewLine)),
            Ok(Token::Eof),
        ]
    );
}

#[test]
fn a_symbol_at_the_end_of_the_text_is_read() {
    assert_eq!(
        tokens("JMP ($AABB)"),
        vec![
            Ok(Token::Text(String::from("JMP"))),
            Ok(Token::Symbol(Symbol::LPar)),
            Ok(Token::Hexa16(0xAABB)),
            Ok(Token::Symbol(Symbol::RPar)),
            Ok(Token::Eof),
        ]
    );
}

#[test]
fn a_comment_ends_before_the_newline() {
    assert_eq!(
        tokens("; $12345 @ anything\nINX"),
        vec![
            Ok(Token::Symbol(Symbol::SemiColon)),
            Ok(Token::Symbol(Symbol::NewLine)),
            Ok(Token::Text(String::from("INX"))),
            Ok(Token::Eof),
        ]
    );
    assert_eq!(
        tokens(";"),
        vec![Ok(Token::Symbol(Symbol::SemiColon)), Ok(Token::Eof)]
    );
}

#[test]
fn atoms_are_letters_only() {
    assert_eq!(
        tokens("ab1"),
        vec![
            Ok(Token::Text(String::from("ab"))),
            Ok(Token::Decimal(1)),
            Ok(Token::Eof)
        ]
    );
    assert_eq!(
        tokens("my_label"),
        vec![
            Ok(Token::Text(String::from("my"))),
            Err(LexError::UnknownChar('_'))
        ]
    );
}

#[test]
fn atoms_go_on_with_letters_of_any_alphabet() {
    assert_eq!(
        tokens("caf\u{e9}:"),
        vec![
            Ok(Token::Text(String::from("caf\u{e9}"))),
            Ok(Token::Symbol(Symbol::Colon)),
            Ok(Token::Eof)
        ]
    );
    assert_eq!(tokens("\u{e9}"), vec![Err(LexError::UnknownChar('\u{e9}'))]);
}

#[test]
fn decimal_literals_fit_in_eight_bits() {
    assert_eq!(tokens("0"), vec![Ok(Token::Decimal(0)), Ok(Token::Eof)]);
    assert_eq!(tokens("255"), vec![Ok(Token::Decimal(255)), Ok(Token::Eof)]);
    assert_eq!(tokens("0255"), vec![Ok(Token::Decimal(255)), Ok(Token::Eof)]);
    assert_eq!(tokens("256"), vec![Err(LexError::DecimalOverflow)]);
    assert_eq!(tokens("99999999999999999999999"), vec![Err(LexError::DecimalOverflow)]);
}

#[test]
fn a_decimal_literal_takes_every_numeric_character() {
    assert_eq!(tokens("1\u{b2}"), vec![Err(LexError::DecimalOverflow)]);
    assert_eq!(
        tokens("1a"),
        vec![
            Ok(Token::Decimal(1)),
            Ok(Token::Text(String::from("a"))),
            Ok(Token::Eof)
        ]
    );
}

#[test]
fn hexadecimal_width_follows_the_digit_count() {
    assert_eq!(tokens("$f"), vec![Ok(Token::Hexa8(0x0F)), Ok(Token::Eof)]);
    assert_eq!(tokens("$fF"), vec![Ok(Token::Hexa8(0xFF)), Ok(Token::Eof)]);
    assert_eq!(tokens("$0ff"), vec![Ok(Token::Hexa16(0x00FF)), Ok(Token::Eof)]);
    assert_eq!(tokens("$abCD"), vec![Ok(Token::Hexa16(0xABCD)), Ok(Token::Eof)]);
    assert_eq!(tokens("$"), vec![Err(LexError::HexaSize)]);
    assert_eq!(tokens("$G"), vec![Err(LexError::HexaSize)]);
    assert_eq!(tokens("$12345"), vec![Err(LexError::HexaSize)]);
}

#[test]
fn binary_literals_have_one_to_eight_digits() {
    assert_eq!(tokens("%0"), vec![Ok(Token::Binary(0)), Ok(Token::Eof)]);
    assert_eq!(tokens("%11111111"), vec![Ok(Token::Binary(255)), Ok(Token::Eof)]);
    assert_eq!(tokens("%10000000"), vec![Ok(Token::Binary(128)), Ok(Token::Eof)]);
    assert_eq!(tokens("%"), vec![Err(LexError::BinarySize)]);
    assert_eq!(tokens("%2"), vec![Err(LexError::BinarySize)]);
    assert_eq!(tokens("%111111111"), vec![Err(LexError::BinarySize)]);
}

#[test]
fn unknown_characters_are_errors() {
    assert_eq!(tokens("@"), vec![Err(LexError::UnknownChar('@'))]);
    assert_eq!(tokens(".org"), vec![Err(LexError::UnknownChar('.'))]);
    assert_eq!(tokens("="), vec![Err(LexError::UnknownChar('='))]);
    assert_eq!(tokens("\r"), vec![Err(LexError::UnknownChar('\r'))]);
}

#[test]
fn token_types() {
    assert_eq!(get_token_type(&Token::Symbol(Symbol::Coma)), TokenType::Symbol);
    assert_eq!(get_token_type(&Token::Text(String::from("X"))), TokenType::Text);
    assert_eq!(get_token_type(&Token::Decimal(1)), TokenType::Decimal);
    assert_eq!(get_token_type(&Token::Hexa8(1)), TokenType::Hexa8);
    assert_eq!(get_token_type(&Token::Hexa16(1)), TokenType::Hexa16);
    assert_eq!(get_token_type(&Token::Binary(1)), TokenType::Binary);
    assert_eq!(get_token_type(&Token::Eof), TokenType::Eof);
}

#[test]
fn decimal_literals_round_trip() {
    for value in 0..=255u8 {
        let text = format!("{}", value);
        assert_eq!(tokens(&text), vec![Ok(Token::Decimal(value)), Ok(Token::Eof)]);
    }
}

#[test]
fn hexa8_literals_round_trip() {
    for value in 0..=255u8 {
        let text = format!("${:02X}", value);
        assert_eq!(tokens(&text), vec![Ok(Token::Hexa8(value)), Ok(Token::Eof)]);
    }
}

#[test]
fn hexa16_literals_round_trip() {
    for value in 0..=0xFFFFu16 {
        let text = format!("${:04X}", value);
        assert_eq!(tokens(&text), vec![Ok(Token::Hexa16(value)), Ok(Token::Eof)]);
    }
}

#[test]
fn binary_literals_round_trip() {
    for value in 0..=255u8 {
        let text = format!("%{:08b}", value);
        assert_eq!(tokens(&text), vec![Ok(Token::Binary(value)), Ok(Token::Eof)]);
    }
}
