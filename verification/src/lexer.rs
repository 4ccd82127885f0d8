//! Lexical analysis: source characters to tokens, one token per call.

use crate::chars::{alphabetic, is_alphabetic, is_numeric, numeric, to_chars, to_string};
use vstd::arithmetic::power2::{lemma2_to64, lemma_pow2_adds, lemma_pow2_strictly_increases, pow2};
use vstd::prelude::*;

verus! {

/// The structural symbols of the language.
#[derive(Debug, PartialEq, Eq, Clone, Copy, Structural)]
pub enum Symbol {
    LPar,
    RPar,
    NewLine,
    SemiColon,
    Coma,
    Colon,
    HashTag,
}

/// One lexical unit.
#[derive(Debug, PartialEq, Clone)]
pub enum Token {
    Symbol(Symbol),
    /// A run of letters: a mnemonic, a label or a register name.
    Text(String),
    Decimal(u8),
    Hexa8(u8),
    Hexa16(u16),
    Binary(u8),
    Eof,
}

/// What a `Token` stands for in contracts: the same variants, with the text
/// of an atom as a sequence of characters.
pub enum TokenView {
    Symbol(Symbol),
    Text(Seq<char>),
    Decimal(u8),
    Hexa8(u8),
    Hexa16(u16),
    Binary(u8),
    Eof,
}

impl View for Token {
    type V = TokenView;

    open spec fn view(&self) -> TokenView {
        match self {
            Token::Symbol(s) => TokenView::Symbol(*s),
            Token::Text(t) => TokenView::Text(t@),
            Token::Decimal(d) => TokenView::Decimal(*d),
            Token::Hexa8(h) => TokenView::Hexa8(*h),
            Token::Hexa16(h) => TokenView::Hexa16(*h),
            Token::Binary(b) => TokenView::Binary(*b),
            Token::Eof => TokenView::Eof,
        }
    }
}

/// The class of a token, without its payload.
#[derive(Debug, PartialEq, Eq, Clone, Copy, Structural)]
pub enum TokenType {
    Symbol,
    Text,
    Decimal,
    Hexa8,
    Hexa16,
    Binary,
    Eof,
}

/// The class of a token in the model.
pub open spec fn token_type_of(token: TokenView) -> TokenType {
    match token {
        TokenView::Symbol(_) => TokenType::Symbol,
        TokenView::Text(_) => TokenType::Text,
        TokenView::Decimal(_) => TokenType::Decimal,
        TokenView::Hexa8(_) => TokenType::Hexa8,
        TokenView::Hexa16(_) => TokenType::Hexa16,
        TokenView::Binary(_) => TokenType::Binary,
        TokenView::Eof => TokenType::Eof,
    }
}

/// The class of a token.
pub fn get_token_type(token: &Token) -> (kind: TokenType)
    ensures
        kind == token_type_of(token@),
{
    match token {
        Token::Symbol(_) => TokenType::Symbol,
        Token::Text(_) => TokenType::Text,
        Token::Decimal(_) => TokenType::Decimal,
        Token::Hexa8(_) => TokenType::Hexa8,
        Token::Hexa16(_) => TokenType::Hexa16,
        Token::Binary(_) => TokenType::Binary,
        Token::Eof => TokenType::Eof,
    }
}

/// Why a piece of source text is not a token.
#[derive(Debug, PartialEq, Eq, Clone, Copy, Structural)]
pub enum LexError {
    /// A character that starts no token.
    UnknownChar(char),
    /// A decimal literal that is not a number below 256.
    DecimalOverflow,
    /// A `$` followed by no hexadecimal digit or by more than four.
    HexaSize,
    /// A `%` followed by no binary digit or by more than eight.
    BinarySize,
}

/// The sets of characters that the lexer consumes as maximal runs.
#[derive(Debug, PartialEq, Eq, Clone, Copy, Structural)]
pub enum CharClass {
    /// Space and tab.
    Blank,
    /// Everything up to the end of the line.
    Comment,
    /// The letters of an atom: those of ASCII, and beyond ASCII what Unicode
    /// calls alphabetic.
    Letter,
    /// The characters of a decimal literal: the digits of ASCII, and beyond
    /// ASCII what Unicode calls numeric. Only the former make a number.
    Digit,
    /// The digits of a hexadecimal literal.
    Hexa,
    /// The digits of a binary literal.
    Binary,
}

/// Whether `c` is one of the 128 characters of ASCII.
pub open spec fn is_ascii(c: char) -> bool {
    c <= '\x7f'
}

/// Whether `c` is one of the letters `a` to `z` and `A` to `Z`.
pub open spec fn is_ascii_letter(c: char) -> bool {
    'a' <= c <= 'z' || 'A' <= c <= 'Z'
}

/// Whether `c` is one of the digits `0` to `9`.
pub open spec fn is_ascii_digit(c: char) -> bool {
    '0' <= c <= '9'
}

/// Whether `c` is a digit of base sixteen, in either case.
pub open spec fn is_hexa_digit(c: char) -> bool {
    '0' <= c <= '9' || 'a' <= c <= 'f' || 'A' <= c <= 'F'
}

impl CharClass {
    /// Whether `c` belongs to the class.
    pub open spec fn holds(self, c: char) -> bool {
        match self {
            CharClass::Blank => c == ' ' || c == '\t',
            CharClass::Comment => c != '\n',
            CharClass::Letter => is_ascii_letter(c) || (!is_ascii(c) && alphabetic(c)),
            CharClass::Digit => is_ascii_digit(c) || (!is_ascii(c) && numeric(c)),
            CharClass::Hexa => is_hexa_digit(c),
            CharClass::Binary => c == '0' || c == '1',
        }
    }

    /// Whether `c` belongs to the class.
    pub fn test(self, c: char) -> (b: bool)
        ensures
            b == self.holds(c),
    {
        match self {
            CharClass::Blank => c == ' ' || c == '\t',
            CharClass::Comment => c != '\n',
            CharClass::Letter => (c >= 'a' && c <= 'z') || (c >= 'A' && c <= 'Z') || (c > '\x7f'
                && is_alphabetic(c)),
            CharClass::Digit => (c >= '0' && c <= '9') || (c > '\x7f' && is_numeric(c)),
            CharClass::Hexa => (c >= '0' && c <= '9') || (c >= 'a' && c <= 'f') || (c >= 'A' && c
                <= 'F'),
            CharClass::Binary => c == '0' || c == '1',
        }
    }
}

/// The end of the longest run of characters of `class` that starts at
/// `from`: the index of the first character at or after `from` that is not
/// in the class, or the length of the text.
pub open spec fn run_end(text: Seq<char>, from: int, class: CharClass) -> int
    decreases text.len() - from,
{
    if 0 <= from < text.len() && class.holds(text[from]) {
        run_end(text, from + 1, class)
    } else {
        from
    }
}

/// The value of one digit in any base up to sixteen.
pub open spec fn digit_value(c: char) -> nat {
    if '0' <= c <= '9' {
        (c as u32 - '0' as u32) as nat
    } else if 'a' <= c <= 'f' {
        (c as u32 - 'a' as u32 + 10) as nat
    } else if 'A' <= c <= 'F' {
        (c as u32 - 'A' as u32 + 10) as nat
    } else {
        0
    }
}

/// The number that `digits` denotes in `base`, most significant digit first.
pub open spec fn number_value(digits: Seq<char>, base: nat) -> nat
    decreases digits.len(),
{
    if digits.len() == 0 {
        0
    } else {
        number_value(digits.drop_last(), base) * base + digit_value(digits.last())
    }
}

/// The token of a decimal literal.
pub open spec fn decimal_token(digits: Seq<char>) -> Result<TokenView, LexError> {
    if (forall|i: int| 0 <= i < digits.len() ==> is_ascii_digit(#[trigger] digits[i]))
        && number_value(digits, 10) <= 255 {
        Ok(TokenView::Decimal(number_value(digits, 10) as u8))
    } else {
        Err(LexError::DecimalOverflow)
    }
}

/// The token of a hexadecimal literal: its width follows from the number of
/// digits.
pub open spec fn hexa_token(digits: Seq<char>) -> Result<TokenView, LexError> {
    if 1 <= digits.len() <= 2 {
        Ok(TokenView::Hexa8(number_value(digits, 16) as u8))
    } else if 3 <= digits.len() <= 4 {
        Ok(TokenView::Hexa16(number_value(digits, 16) as u16))
    } else {
        Err(LexError::HexaSize)
    }
}

/// The token of a binary literal.
pub open spec fn binary_token(digits: Seq<char>) -> Result<TokenView, LexError> {
    if 1 <= digits.len() <= 8 {
        Ok(TokenView::Binary(number_value(digits, 2) as u8))
    } else {
        Err(LexError::BinarySize)
    }
}

/// One step of the lexer: the token found and the position after it.
pub struct Scan {
    pub token: Result<TokenView, LexError>,
    pub next: int,
}

/// The symbol that a single character denotes, if any.
pub open spec fn symbol_of(c: char) -> Option<Symbol> {
    if c == '(' {
        Some(Symbol::LPar)
    } else if c == ')' {
        Some(Symbol::RPar)
    } else if c == '\n' {
        Some(Symbol::NewLine)
    } else if c == ';' {
        Some(Symbol::SemiColon)
    } else if c == ':' {
        Some(Symbol::Colon)
    } else if c == ',' {
        Some(Symbol::Coma)
    } else if c == '#' {
        Some(Symbol::HashTag)
    } else {
        None
    }
}

/// The token that starts at or after `position` in `text`, blanks skipped,
/// and where the next one is to be looked for.
///
/// A semicolon takes the rest of its line with it. An atom is an ASCII
/// letter and the letters that follow. A literal is the longest run of its
/// digits, and is an error as a whole where it is too long or too large.
pub open spec fn scan(text: Seq<char>, position: int) -> Scan {
    let start = run_end(text, position, CharClass::Blank);
    if !(0 <= start < text.len()) {
        Scan { token: Ok(TokenView::Eof), next: start }
    } else {
        let c = text[start];
        if c == ';' {
            Scan {
                token: Ok(TokenView::Symbol(Symbol::SemiColon)),
                next: run_end(text, start + 1, CharClass::Comment),
            }
        } else if symbol_of(c) is Some {
            Scan { token: Ok(TokenView::Symbol(symbol_of(c)->0)), next: start + 1 }
        } else if is_ascii_letter(c) {
            let end = run_end(text, start + 1, CharClass::Letter);
            Scan { token: Ok(TokenView::Text(text.subrange(start, end))), next: end }
        } else if is_ascii_digit(c) {
            let end = run_end(text, start + 1, CharClass::Digit);
            Scan { token: decimal_token(text.subrange(start, end)), next: end }
        } else if c == '$' {
            let end = run_end(text, start + 1, CharClass::Hexa);
            Scan { token: hexa_token(text.subrange(start + 1, end)), next: end }
        } else if c == '%' {
            let end = run_end(text, start + 1, CharClass::Binary);
            Scan { token: binary_token(text.subrange(start + 1, end)), next: end }
        } else {
            Scan { token: Err(LexError::UnknownChar(c)), next: start + 1 }
        }
    }
}

/// A run ends between its start and the end of the text, holds only
/// characters of its class, and cannot be extended.
pub proof fn lemma_run_end(text: Seq<char>, from: int, class: CharClass)
    requires
        0 <= from <= text.len(),
    ensures
        from <= run_end(text, from, class) <= text.len(),
        forall|i: int| from <= i < run_end(text, from, class) ==> class.holds(#[trigger] text[i]),
        run_end(text, from, class) < text.len() ==> !class.holds(
            text[run_end(text, from, class)],
        ),
    decreases text.len() - from,
{
    if from < text.len() && class.holds(text[from]) {
        lemma_run_end(text, from + 1, class);
    }
}

/// Every step ends inside the text, and every token but the end of input
/// takes at least one character.
pub proof fn lemma_scan_advances(text: Seq<char>, position: int)
    requires
        0 <= position <= text.len(),
    ensures
        position <= scan(text, position).next <= text.len(),
        scan(text, position).token != Ok::<TokenView, LexError>(TokenView::Eof) ==> position
            < scan(text, position).next,
{
    let start = run_end(text, position, CharClass::Blank);
    lemma_run_end(text, position, CharClass::Blank);
    if start < text.len() {
        lemma_run_end(text, start + 1, CharClass::Comment);
        lemma_run_end(text, start + 1, CharClass::Letter);
        lemma_run_end(text, start + 1, CharClass::Digit);
        lemma_run_end(text, start + 1, CharClass::Hexa);
        lemma_run_end(text, start + 1, CharClass::Binary);
    }
}

/// The value of a prefix of a literal grows with one more digit as positional
/// notation says.
pub proof fn lemma_number_value_step(digits: Seq<char>, n: int, base: nat)
    requires
        0 <= n < digits.len(),
    ensures
        number_value(digits.take(n + 1), base) == number_value(digits.take(n), base) * base
            + digit_value(digits[n]),
{
    assert(digits.take(n + 1).drop_last() == digits.take(n));
}

/// A literal that is too large stays too large with more digits.
pub proof fn lemma_number_value_grows(digits: Seq<char>, n: int, base: nat)
    requires
        0 <= n <= digits.len(),
        base >= 1,
    ensures
        number_value(digits.take(n), base) <= number_value(digits, base),
    decreases digits.len() - n,
{
    if n < digits.len() {
        lemma_number_value_step(digits, n, base);
        lemma_number_value_grows(digits, n + 1, base);
        assert(number_value(digits.take(n), base) <= number_value(digits.take(n), base) * base)
            by (nonlinear_arith)
            requires
                base >= 1,
        ;
    } else {
        assert(digits.take(n) == digits);
    }
}

/// A lexer over one source text: the characters and a cursor into them.
#[derive(Debug)]
pub struct Lexer {
    text: Vec<char>,
    position: usize,
}

impl Lexer {
    #[verifier::type_invariant]
    spec fn wf(&self) -> bool {
        self.position <= self.text.len()
    }

    /// The source text.
    pub closed spec fn source(&self) -> Seq<char> {
        self.text@
    }

    /// The index of the next character to be read.
    pub closed spec fn cursor(&self) -> int {
        if self.position <= self.text.len() {
            self.position as int
        } else {
            self.text.len() as int
        }
    }

    /// The cursor never leaves the text.
    pub proof fn lemma_cursor_in_source(&self)
        ensures
            0 <= self.cursor() <= self.source().len(),
    {
    }

    /// A lexer at the start of `t`.
    pub fn new(t: String) -> (lexer: Self)
        ensures
            lexer.source() == t@,
            lexer.cursor() == 0,
    {
        Self { text: to_chars(t.as_str()), position: 0 }
    }

    /// Reads the next token and moves the cursor past it. At the end of the
    /// text every call gives `Token::Eof`.
    pub fn get_next_token(&mut self) -> (token: Result<Token, LexError>)
        ensures
            final(self).source() == old(self).source(),
            final(self).cursor() == scan(old(self).source(), old(self).cursor()).next,
            match token {
                Ok(t) => scan(old(self).source(), old(self).cursor()).token == Ok::<
                    TokenView,
                    LexError,
                >(t@),
                Err(e) => scan(old(self).source(), old(self).cursor()).token == Err::<
                    TokenView,
                    LexError,
                >(e),
            },
    {
        proof {
            use_type_invariant(&*self);
        }
        self.parse_if(CharClass::Blank);
        proof {
            use_type_invariant(&*self);
        }
        if self.position >= self.text.len() {
            return Ok(Token::Eof);
        }
        let c = self.text[self.position];
        if c == ';' {
            self.skip_comment();
            Ok(Token::Symbol(Symbol::SemiColon))
        } else if c == '(' {
            self.position += 1;
            Ok(Token::Symbol(Symbol::LPar))
        } else if c == ')' {
            self.position += 1;
            Ok(Token::Symbol(Symbol::RPar))
        } else if c == '\n' {
            self.position += 1;
            Ok(Token::Symbol(Symbol::NewLine))
        } else if c == ':' {
            self.position += 1;
            Ok(Token::Symbol(Symbol::Colon))
        } else if c == ',' {
            self.position += 1;
            Ok(Token::Symbol(Symbol::Coma))
        } else if c == '#' {
            self.position += 1;
            Ok(Token::Symbol(Symbol::HashTag))
        } else if (c >= 'a' && c <= 'z') || (c >= 'A' && c <= 'Z') {
            self.parse_text()
        } else if c >= '0' && c <= '9' {
            self.parse_decimal()
        } else if c == '$' {
            self.parse_hexa()
        } else if c == '%' {
            self.parse_binary()
        } else {
            self.position += 1;
            Err(LexError::UnknownChar(c))
        }
    }

    /// Moves past a semicolon and the rest of its line.
    fn skip_comment(&mut self)
        requires
            old(self).cursor() < old(self).source().len(),
        ensures
            final(self).source() == old(self).source(),
            final(self).cursor() == run_end(
                old(self).source(),
                old(self).cursor() + 1,
                CharClass::Comment,
            ),
    {
        assert(self.position < self.text.len());
        self.position += 1;
        self.parse_if(CharClass::Comment);
    }

    /// Reads an atom, whose first letter is under the cursor.
    fn parse_text(&mut self) -> (token: Result<Token, LexError>)
        requires
            old(self).cursor() < old(self).source().len(),
        ensures
            final(self).source() == old(self).source(),
            final(self).cursor() == run_end(
                old(self).source(),
                old(self).cursor() + 1,
                CharClass::Letter,
            ),
            token is Ok,
            token->Ok_0@ == TokenView::Text(
                old(self).source().subrange(old(self).cursor(), final(self).cursor()),
            ),
    {
        let start = self.position;
        assert(self.position < self.text.len());
        self.position += 1;
        self.parse_if(CharClass::Letter);
        proof {
            use_type_invariant(&*self);
            lemma_run_end(self.text@, start + 1, CharClass::Letter);
        }
        Ok(Token::Text(to_string(&self.text, start, self.position)))
    }

    /// Reads a decimal literal, whose first digit is under the cursor.
    fn parse_decimal(&mut self) -> (token: Result<Token, LexError>)
        requires
            old(self).cursor() < old(self).source().len(),
        ensures
            final(self).source() == old(self).source(),
            final(self).cursor() == run_end(
                old(self).source(),
                old(self).cursor() + 1,
                CharClass::Digit,
            ),
            match token {
                Ok(t) => decimal_token(
                    old(self).source().subrange(old(self).cursor(), final(self).cursor()),
                ) == Ok::<TokenView, LexError>(t@),
                Err(e) => decimal_token(
                    old(self).source().subrange(old(self).cursor(), final(self).cursor()),
                ) == Err::<TokenView, LexError>(e),
            },
    {
        let start = self.position;
        assert(self.position < self.text.len());
        self.position += 1;
        self.parse_if(CharClass::Digit);
        proof {
            use_type_invariant(&*self);
            lemma_run_end(self.text@, start + 1, CharClass::Digit);
        }
        let end = self.position;
        let ghost digits = self.text@.subrange(start as int, end as int);
        let mut value: u16 = 0;
        let mut fits = true;
        let mut i: usize = start;
        while i < end && fits
            invariant
                start <= i <= end <= self.text.len(),
                digits == self.text@.subrange(start as int, end as int),
                fits ==> value == number_value(digits.take(i - start), 10) <= 255,
                fits ==> forall|j: int| 0 <= j < i - start ==> is_ascii_digit(#[trigger] digits[j]),
                !fits ==> decimal_token(digits) is Err,
            decreases end - i + if fits { 1int } else { 0int },
        {
            let c = self.text[i];
            proof {
                lemma_number_value_step(digits, i - start, 10);
                assert(digits[i - start] == c);
            }
            if c >= '0' && c <= '9' {
                let d: u16 = (c as u32 - '0' as u32) as u16;
                value = value * 10 + d;
                if value > 255 {
                    fits = false;
                    proof {
                        lemma_number_value_grows(digits, i - start + 1, 10);
                    }
                }
            } else {
                fits = false;
            }
            i += 1;
        }
        if fits {
            assert(digits.take(end - start) == digits);
            Ok(Token::Decimal(value as u8))
        } else {
            Err(LexError::DecimalOverflow)
        }
    }

    /// The number that characters `from..to` of the text denote in `base`.
    fn number(&self, from: usize, to: usize, base: u16) -> (value: u16)
        requires
            from <= to <= self.source().len(),
            base == 16 && to - from <= 4 || base == 2 && to - from <= 8,
            forall|i: int| from <= i < to ==> digit_value(#[trigger] self.source()[i]) < base,
        ensures
            value == number_value(self.source().subrange(from as int, to as int), base as nat),
            base == 2 || to - from <= 2 ==> value <= 255,
    {
        let ghost digits = self.text@.subrange(from as int, to as int);
        let ghost bits: nat = if base == 16 { 4 } else { 1 };
        let mut value: u16 = 0;
        let mut i: usize = from;
        proof {
            lemma2_to64();
        }
        while i < to
            invariant
                from <= i <= to <= self.text.len(),
                bits == 4 || bits == 1,
                bits * (to - from) <= 16,
                base == pow2(bits),
                digits == self.text@.subrange(from as int, to as int),
                forall|i: int| from <= i < to ==> digit_value(#[trigger] self.text@[i]) < base,
                value == number_value(digits.take(i - from), base as nat),
                value < pow2(bits * ((i - from) as nat)),
            decreases to - i,
        {
            let c = self.text[i];
            let d: u16 = if c >= '0' && c <= '9' {
                (c as u32 - '0' as u32) as u16
            } else if c >= 'a' && c <= 'f' {
                (c as u32 - 'a' as u32 + 10) as u16
            } else if c >= 'A' && c <= 'F' {
                (c as u32 - 'A' as u32 + 10) as u16
            } else {
                0
            };
            proof {
                let k: nat = bits * ((i - from) as nat);
                let k1: nat = bits * ((i + 1 - from) as nat);
                lemma_number_value_step(digits, i - from, base as nat);
                assert(digits[i - from] == c);
                assert(d == digit_value(c));
                assert(k1 == k + bits && k1 <= 16) by (nonlinear_arith)
                    requires
                        k == bits * ((i - from) as nat),
                        k1 == bits * ((i + 1 - from) as nat),
                        from <= i < to,
                        bits * (to - from) <= 16,
                ;
                lemma_pow2_adds(k, bits);
                assert(value * base + d < pow2(k) * base) by (nonlinear_arith)
                    requires
                        value < pow2(k),
                        d < base,
                ;
                if k1 < 16 {
                    lemma_pow2_strictly_increases(k1, 16);
                }
                lemma2_to64();
                assert(value * base + d < pow2(k1) <= 0x10000);
                assert(0 <= value * base <= value * base + d);
            }
            value = value * base + d;
            i += 1;
        }
        proof {
            assert(digits.take(to - from) == digits);
            let k: nat = bits * ((to - from) as nat);
            lemma2_to64();
            if base == 2 || to - from <= 2 {
                if k < 8 {
                    lemma_pow2_strictly_increases(k, 8);
                }
            }
        }
        value
    }

    /// Reads a hexadecimal literal, whose `$` is under the cursor.
    fn parse_hexa(&mut self) -> (token: Result<Token, LexError>)
        requires
            old(self).cursor() < old(self).source().len(),
        ensures
            final(self).source() == old(self).source(),
            final(self).cursor() == run_end(
                old(self).source(),
                old(self).cursor() + 1,
                CharClass::Hexa,
            ),
            match token {
                Ok(t) => hexa_token(
                    old(self).source().subrange(old(self).cursor() + 1, final(self).cursor()),
                ) == Ok::<TokenView, LexError>(t@),
                Err(e) => hexa_token(
                    old(self).source().subrange(old(self).cursor() + 1, final(self).cursor()),
                ) == Err::<TokenView, LexError>(e),
            },
    {
        assert(self.position < self.text.len());
        self.position += 1;
        let start = self.position;
        self.parse_if(CharClass::Hexa);
        proof {
            use_type_invariant(&*self);
            lemma_run_end(self.text@, start as int, CharClass::Hexa);
        }
        let end = self.position;
        let size = end - start;
        if 1 <= size && size <= 2 {
            Ok(Token::Hexa8(self.number(start, end, 16) as u8))
        } else if 3 <= size && size <= 4 {
            Ok(Token::Hexa16(self.number(start, end, 16)))
        } else {
            Err(LexError::HexaSize)
        }
    }

    /// Reads a binary literal, whose `%` is under the cursor.
    fn parse_binary(&mut self) -> (token: Result<Token, LexError>)
        requires
            old(self).cursor() < old(self).source().len(),
        ensures
            final(self).source() == old(self).source(),
            final(self).cursor() == run_end(
                old(self).source(),
                old(self).cursor() + 1,
                CharClass::Binary,
            ),
            match token {
                Ok(t) => binary_token(
                    old(self).source().subrange(old(self).cursor() + 1, final(self).cursor()),
                ) == Ok::<TokenView, LexError>(t@),
                Err(e) => binary_token(
                    old(self).source().subrange(old(self).cursor() + 1, final(self).cursor()),
                ) == Err::<TokenView, LexError>(e),
            },
    {
        assert(self.position < self.text.len());
        self.position += 1;
        let start = self.position;
        self.parse_if(CharClass::Binary);
        proof {
            use_type_invariant(&*self);
            lemma_run_end(self.text@, start as int, CharClass::Binary);
        }
        let end = self.position;
        let size = end - start;
        if 1 <= size && size <= 8 {
            Ok(Token::Binary(self.number(start, end, 2) as u8))
        } else {
            Err(LexError::BinarySize)
        }
    }

    /// Moves the cursor to the end of the run of `class` that starts under
    /// it.
    fn parse_if(&mut self, class: CharClass)
        ensures
            final(self).source() == old(self).source(),
            final(self).cursor() == run_end(old(self).source(), old(self).cursor(), class),
    {
        proof {
            use_type_invariant(&*self);
        }
        while self.position < self.text.len() && class.test(self.text[self.position])
            invariant
                self.text@ == old(self).text@,
                self.position <= self.text.len(),
                run_end(self.text@, self.position as int, class) == run_end(
                    old(self).text@,
                    old(self).position as int,
                    class,
                ),
            decreases self.text.len() - self.position,
        {
            self.position += 1;
        }
    }
}

} // verus!
