//! Recursive-descent parsing with one token of lookahead.
//!
//! The grammar, a line per statement:
//!
//! ```text
//! program    = statement (NEWLINE? statement)* EOF
//! statement  = (TEXT (COLON | operand?))? comment?
//! comment    = SEMICOLON
//! operand    = absolute | zero_page | '(' indirect | '#' number | TEXT
//! indirect   = hex16 ')' | hex8 (',' 'X' ')' | ')' ',' 'Y')
//! absolute   = hex16 (',' ('X'|'Y'))?
//! zero_page  = hex8  (',' ('X'|'Y'))?
//! number     = decimal | hex8 | binary
//! ```
//!
//! The functions of the first half of this file are the grammar as a
//! mathematical function of the source text; the parser of the second half
//! is proved to compute it.

use crate::ast::{nodes_view, Ast, AstView};
use crate::lexer::{
    get_token_type, lemma_scan_advances, scan, token_type_of, LexError, Lexer, Symbol, Token,
    TokenType, TokenView,
};
use vstd::prelude::*;

verus! {

/// What the parser was looking for when it met a token it could not use.
#[derive(Debug, PartialEq, Eq, Clone, Copy, Structural)]
pub enum Expected {
    /// This symbol.
    Symbol(Symbol),
    /// A token of this class.
    Type(TokenType),
    /// The start of an operand.
    Operand,
    /// A number of eight bits: decimal, binary or two hexadecimal digits.
    Number,
    /// An address after an opening parenthesis.
    Address,
    /// One of the registers X and Y.
    IndexRegister,
    /// The register X.
    RegisterX,
    /// The register Y.
    RegisterY,
    /// A closing parenthesis or a comma.
    Separator,
}

/// Why a source text is no program.
#[derive(Debug, PartialEq, Clone)]
pub enum ParseError {
    /// The text holds something that is no token.
    Lexical(LexError),
    /// A token stands where the grammar has no place for it.
    Unexpected { expected: Expected, found: Token },
}

/// What a `ParseError` stands for in contracts.
pub enum ParseErrorView {
    Lexical(LexError),
    Unexpected { expected: Expected, found: TokenView },
}

impl View for ParseError {
    type V = ParseErrorView;

    open spec fn view(&self) -> ParseErrorView {
        match self {
            ParseError::Lexical(e) => ParseErrorView::Lexical(*e),
            ParseError::Unexpected { expected, found } => ParseErrorView::Unexpected {
                expected: *expected,
                found: found@,
            },
        }
    }
}

/// The state of a parser: the source text, the position from which the next
/// token will be read, and the token of lookahead, already read.
pub struct ParserView {
    pub text: Seq<char>,
    pub position: int,
    pub current: Result<TokenView, LexError>,
}

/// The state after the lookahead was read from `position`.
pub open spec fn load(text: Seq<char>, position: int) -> ParserView {
    ParserView { text, position: scan(text, position).next, current: scan(text, position).token }
}

/// The state after the token of lookahead was consumed.
pub open spec fn advance(p: ParserView) -> ParserView {
    load(p.text, p.position)
}

/// The error for a lookahead that the grammar cannot use.
pub open spec fn unexpected(p: ParserView, expected: Expected) -> ParseErrorView {
    match p.current {
        Ok(found) => ParseErrorView::Unexpected { expected, found },
        Err(e) => ParseErrorView::Lexical(e),
    }
}

/// Whether the lookahead is the symbol `symbol`.
pub open spec fn at_symbol(p: ParserView, symbol: Symbol) -> bool {
    p.current == Ok::<TokenView, LexError>(TokenView::Symbol(symbol))
}

/// Consumes the symbol `symbol`.
pub open spec fn eat_symbol(p: ParserView, symbol: Symbol) -> Result<ParserView, ParseErrorView> {
    if at_symbol(p, symbol) {
        Ok(advance(p))
    } else {
        Err(unexpected(p, Expected::Symbol(symbol)))
    }
}

/// Whether an atom names the register whose letter is `upper` in upper case
/// and `lower` in lower case.
pub open spec fn names_register(text: Seq<char>, upper: char, lower: char) -> bool {
    text.len() == 1 && (text[0] == upper || text[0] == lower)
}

/// Consumes the name of the register given by its two letters.
pub open spec fn eat_register(
    p: ParserView,
    upper: char,
    lower: char,
    expected: Expected,
) -> Result<ParserView, ParseErrorView> {
    match p.current {
        Ok(TokenView::Text(t)) if names_register(t, upper, lower) => Ok(advance(p)),
        _ => Err(unexpected(p, expected)),
    }
}

/// Consumes `, X` or `, Y` if a comma follows, and gives the register's
/// letter as it was written.
pub open spec fn parse_index(p: ParserView) -> Result<(Option<char>, ParserView), ParseErrorView> {
    if at_symbol(p, Symbol::Coma) {
        let s1 = advance(p);
        match s1.current {
            Ok(TokenView::Text(t)) if names_register(t, 'X', 'x') || names_register(t, 'Y', 'y') => {
                Ok((Some(t[0]), advance(s1)))
            },
            _ => Err(unexpected(s1, Expected::IndexRegister)),
        }
    } else {
        Ok((None, p))
    }
}

/// `hex16 (',' ('X'|'Y'))?`, the lookahead being the address.
pub open spec fn parse_absolute(p: ParserView) -> Result<(AstView, ParserView), ParseErrorView> {
    match p.current {
        Ok(TokenView::Hexa16(address)) => match parse_index(advance(p)) {
            Ok((Some(register), s1)) => Ok((AstView::AsoluteIndexed(address, register), s1)),
            Ok((None, s1)) => Ok((AstView::Absolute(address), s1)),
            Err(e) => Err(e),
        },
        _ => Err(unexpected(p, Expected::Type(TokenType::Hexa16))),
    }
}

/// `hex8 (',' ('X'|'Y'))?`, the lookahead being the address.
pub open spec fn parse_zero_page(p: ParserView) -> Result<(AstView, ParserView), ParseErrorView> {
    match p.current {
        Ok(TokenView::Hexa8(address)) => match parse_index(advance(p)) {
            Ok((Some(register), s1)) => Ok((AstView::ZeroPageIndexed(address, register), s1)),
            Ok((None, s1)) => Ok((AstView::ZeroPage(address), s1)),
            Err(e) => Err(e),
        },
        _ => Err(unexpected(p, Expected::Type(TokenType::Hexa8))),
    }
}

/// `hex16 ')'`, the lookahead being the address.
pub open spec fn parse_absolute_indirect(p: ParserView) -> Result<
    (AstView, ParserView),
    ParseErrorView,
> {
    match p.current {
        Ok(TokenView::Hexa16(address)) => match eat_symbol(advance(p), Symbol::RPar) {
            Ok(s1) => Ok((AstView::AbsoluteIndirect(address), s1)),
            Err(e) => Err(e),
        },
        _ => Err(unexpected(p, Expected::Type(TokenType::Hexa16))),
    }
}

/// `hex8 (',' 'X' ')' | ')' ',' 'Y')`, the lookahead being the address.
pub open spec fn parse_zero_page_indirect(p: ParserView) -> Result<
    (AstView, ParserView),
    ParseErrorView,
> {
    match p.current {
        Ok(TokenView::Hexa8(address)) => {
            let s1 = advance(p);
            if at_symbol(s1, Symbol::RPar) {
                match eat_symbol(advance(s1), Symbol::Coma) {
                    Ok(s2) => match eat_register(s2, 'Y', 'y', Expected::RegisterY) {
                        Ok(s3) => Ok((AstView::IndirectY(address), s3)),
                        Err(e) => Err(e),
                    },
                    Err(e) => Err(e),
                }
            } else if at_symbol(s1, Symbol::Coma) {
                match eat_register(advance(s1), 'X', 'x', Expected::RegisterX) {
                    Ok(s2) => match eat_symbol(s2, Symbol::RPar) {
                        Ok(s3) => Ok((AstView::IndirectX(address), s3)),
                        Err(e) => Err(e),
                    },
                    Err(e) => Err(e),
                }
            } else {
                Err(unexpected(s1, Expected::Separator))
            }
        },
        _ => Err(unexpected(p, Expected::Type(TokenType::Hexa8))),
    }
}

/// `'(' (hex16 ')' | hex8 ...)`, the lookahead being the parenthesis.
pub open spec fn parse_indirect(p: ParserView) -> Result<(AstView, ParserView), ParseErrorView> {
    match eat_symbol(p, Symbol::LPar) {
        Ok(s1) => match s1.current {
            Ok(TokenView::Hexa16(_)) => parse_absolute_indirect(s1),
            Ok(TokenView::Hexa8(_)) => parse_zero_page_indirect(s1),
            _ => Err(unexpected(s1, Expected::Address)),
        },
        Err(e) => Err(e),
    }
}

/// `decimal | hex8 | binary`: a value of eight bits.
pub open spec fn parse_number(p: ParserView) -> Result<(AstView, ParserView), ParseErrorView> {
    match p.current {
        Ok(TokenView::Decimal(n)) => Ok((AstView::Number8(n), advance(p))),
        Ok(TokenView::Binary(n)) => Ok((AstView::Number8(n), advance(p))),
        Ok(TokenView::Hexa8(n)) => Ok((AstView::Number8(n), advance(p))),
        _ => Err(unexpected(p, Expected::Number)),
    }
}

/// `'#' number`, the lookahead being the hash.
pub open spec fn parse_immediate(p: ParserView) -> Result<(AstView, ParserView), ParseErrorView> {
    match eat_symbol(p, Symbol::HashTag) {
        Ok(s1) => parse_number(s1),
        Err(e) => Err(e),
    }
}

/// An atom as an operand: the accumulator where it is `A` or `a`, a
/// reference to a label otherwise.
pub open spec fn parse_label(p: ParserView) -> Result<(AstView, ParserView), ParseErrorView> {
    match p.current {
        Ok(TokenView::Text(t)) => if names_register(t, 'A', 'a') {
            Ok((AstView::Accumulator, advance(p)))
        } else {
            Ok((AstView::Label(t), advance(p)))
        },
        _ => Err(unexpected(p, Expected::Type(TokenType::Text))),
    }
}

/// An operand, chosen by the lookahead.
pub open spec fn parse_operand(p: ParserView) -> Result<(AstView, ParserView), ParseErrorView> {
    match p.current {
        Ok(TokenView::Hexa16(_)) => parse_absolute(p),
        Ok(TokenView::Hexa8(_)) => parse_zero_page(p),
        Ok(TokenView::Symbol(Symbol::LPar)) => parse_indirect(p),
        Ok(TokenView::Symbol(Symbol::HashTag)) => parse_immediate(p),
        Ok(TokenView::Text(_)) => parse_label(p),
        _ => Err(unexpected(p, Expected::Operand)),
    }
}

/// Whether an instruction's mnemonic is followed by an operand: by anything
/// but a symbol that starts none, or the end of the input.
pub open spec fn operand_follows(p: ParserView) -> bool {
    match p.current {
        Ok(TokenView::Binary(_))
        | Ok(TokenView::Decimal(_))
        | Ok(TokenView::Hexa16(_))
        | Ok(TokenView::Hexa8(_))
        | Ok(TokenView::Symbol(Symbol::LPar))
        | Ok(TokenView::Symbol(Symbol::HashTag))
        | Ok(TokenView::Text(_)) => true,
        _ => false,
    }
}

/// Consumes the comment that may end a statement.
pub open spec fn skip_comment(p: ParserView) -> ParserView {
    if at_symbol(p, Symbol::SemiColon) {
        advance(p)
    } else {
        p
    }
}

/// One statement: nothing (an empty line or the end of the input), a
/// comment, a label declaration, or an instruction with its operand; the
/// last two may be followed by a comment. A line without label or
/// instruction gives no node.
pub open spec fn parse_statement(p: ParserView) -> Result<
    (Option<AstView>, ParserView),
    ParseErrorView,
> {
    match p.current {
        Ok(TokenView::Symbol(Symbol::SemiColon)) => Ok((None, advance(p))),
        Ok(TokenView::Symbol(Symbol::NewLine)) => Ok((None, p)),
        Ok(TokenView::Eof) => Ok((None, p)),
        Ok(TokenView::Text(name)) => {
            let s1 = advance(p);
            if at_symbol(s1, Symbol::Colon) {
                Ok((Some(AstView::Label(name)), skip_comment(advance(s1))))
            } else if operand_follows(s1) {
                match parse_operand(s1) {
                    Ok((operand, s2)) => Ok(
                        (
                            Some(
                                AstView::Instruction {
                                    instruction: name,
                                    args: Some(Box::new(operand)),
                                },
                            ),
                            skip_comment(s2),
                        ),
                    ),
                    Err(e) => Err(e),
                }
            } else {
                Ok(
                    (
                        Some(AstView::Instruction { instruction: name, args: None }),
                        skip_comment(s1),
                    ),
                )
            }
        },
        _ => Err(unexpected(p, Expected::Type(TokenType::Text))),
    }
}

/// How much of the text a parser in state `p` still has before it: the
/// characters not yet read, and the lookahead unless it is the end of the
/// input.
pub open spec fn remaining(p: ParserView) -> int {
    p.text.len() - p.position + if p.current == Ok::<TokenView, LexError>(TokenView::Eof) {
        0int
    } else {
        1int
    }
}

/// Whether the position of `p` lies in its text.
pub open spec fn in_text(p: ParserView) -> bool {
    0 <= p.position <= p.text.len()
}

/// The statements from `p` to the end of the input, after those of `done`,
/// and the state at the end. A newline between two statements is consumed;
/// the end of the input ends the sequence.
pub open spec fn parse_statements(p: ParserView, done: Seq<AstView>) -> Result<
    (Seq<AstView>, ParserView),
    ParseErrorView,
>
    decreases remaining(p),
    when in_text(p)
    via parse_statements_decreases
{
    match parse_statement(p) {
        Ok((node, s1)) => {
            let nodes = match node {
                Some(node) => done.push(node),
                None => done,
            };
            if at_symbol(s1, Symbol::NewLine) {
                parse_statements(advance(s1), nodes)
            } else if s1.current == Ok::<TokenView, LexError>(TokenView::Eof) {
                Ok((nodes, s1))
            } else {
                parse_statements(s1, nodes)
            }
        },
        Err(e) => Err(e),
    }
}

#[via_fn]
proof fn parse_statements_decreases(p: ParserView, done: Seq<AstView>) {
    lemma_statement_progress(p);
    match parse_statement(p) {
        Ok((node, s1)) => {
            lemma_advance_progress(s1);
        },
        Err(e) => {},
    }
}

/// The program that the text before a parser in state `p` denotes: the
/// sequence of its statements, with the state at the end of the input, or
/// the first error met.
pub open spec fn parse_from(p: ParserView) -> Result<(AstView, ParserView), ParseErrorView> {
    match parse_statements(p, Seq::empty()) {
        Ok((nodes, end)) => Ok((AstView::Statements(nodes), end)),
        Err(e) => Err(e),
    }
}

/// The program that a source text denotes.
pub open spec fn parse_program(text: Seq<char>) -> Result<AstView, ParseErrorView> {
    match parse_from(load(text, 0)) {
        Ok((ast, _)) => Ok(ast),
        Err(e) => Err(e),
    }
}

/// Consuming the lookahead never leaves the text, and takes at least one
/// character unless the input has ended.
pub proof fn lemma_advance_progress(p: ParserView)
    requires
        in_text(p),
    ensures
        in_text(advance(p)),
        advance(p).text == p.text,
        remaining(advance(p)) <= p.text.len() - p.position,
{
    lemma_scan_advances(p.text, p.position);
}

/// An index suffix consumes tokens or leaves the state as it was.
pub proof fn lemma_index_progress(p: ParserView)
    requires
        in_text(p),
    ensures
        parse_index(p) matches Ok((_, s1)) ==> in_text(s1) && s1.text == p.text && remaining(s1)
            <= remaining(p),
{
    lemma_advance_progress(p);
    lemma_advance_progress(advance(p));
}

/// An operand consumes at least its first token.
pub proof fn lemma_operand_progress(p: ParserView)
    requires
        in_text(p),
    ensures
        parse_operand(p) matches Ok((_, s1)) ==> in_text(s1) && s1.text == p.text && remaining(s1)
            < remaining(p),
{
    let s1 = advance(p);
    let s2 = advance(s1);
    let s3 = advance(s2);
    let s4 = advance(s3);
    lemma_advance_progress(p);
    lemma_advance_progress(s1);
    lemma_advance_progress(s2);
    lemma_advance_progress(s3);
    lemma_advance_progress(s4);
    lemma_index_progress(s1);
}

/// A statement never leaves the text, and consumes at least one token
/// unless it stands before a newline or the end of the input.
pub proof fn lemma_statement_progress(p: ParserView)
    requires
        in_text(p),
    ensures
        parse_statement(p) matches Ok((_, s1)) ==> {
            &&& in_text(s1)
            &&& s1.text == p.text
            &&& remaining(s1) <= remaining(p)
            &&& !at_symbol(p, Symbol::NewLine) && p.current != Ok::<TokenView, LexError>(
                TokenView::Eof,
            ) ==> remaining(s1) < remaining(p)
        },
{
    let s1 = advance(p);
    lemma_advance_progress(p);
    lemma_advance_progress(s1);
    lemma_advance_progress(advance(s1));
    lemma_operand_progress(s1);
    match parse_operand(s1) {
        Ok((_, s2)) => {
            lemma_advance_progress(s2);
        },
        Err(_) => {},
    }
}

/// The model of a token of lookahead.
pub open spec fn lookahead_view(token: Result<Token, LexError>) -> Result<TokenView, LexError> {
    match token {
        Ok(t) => Ok(t@),
        Err(e) => Err(e),
    }
}

/// Whether a parsing function that gave `result` and left the parser in
/// state `after` did what the grammar function's value `model` says: the
/// same node and the same state, or the same error.
pub open spec fn node_parsed(
    result: Result<Ast, ParseError>,
    after: ParserView,
    model: Result<(AstView, ParserView), ParseErrorView>,
) -> bool {
    match model {
        Ok((node, p)) => result is Ok && result->Ok_0@ == node && after == p,
        Err(e) => result is Err && result->Err_0@ == e,
    }
}

/// As `node_parsed`, for a function that only consumes tokens.
pub open spec fn tokens_eaten(
    result: Result<(), ParseError>,
    after: ParserView,
    model: Result<ParserView, ParseErrorView>,
) -> bool {
    match model {
        Ok(p) => result is Ok && after == p,
        Err(e) => result is Err && result->Err_0@ == e,
    }
}

/// The letter of an atom of one letter.
fn single_letter(text: &String) -> (letter: Option<char>)
    ensures
        letter == if text@.len() == 1 {
            Some(text@[0])
        } else {
            None
        },
{
    let s = text.as_str();
    if s.unicode_len() == 1 {
        Some(s.get_char(0))
    } else {
        None
    }
}

/// A copy of a token.
fn clone_token(token: &Token) -> (copy: Token)
    ensures
        copy@ == token@,
{
    match token {
        Token::Symbol(s) => Token::Symbol(*s),
        Token::Text(t) => Token::Text(t.clone()),
        Token::Decimal(d) => Token::Decimal(*d),
        Token::Hexa8(h) => Token::Hexa8(*h),
        Token::Hexa16(h) => Token::Hexa16(*h),
        Token::Binary(b) => Token::Binary(*b),
        Token::Eof => Token::Eof,
    }
}

/// A parser over one source text.
pub struct Parser {
    lexer: Lexer,
    current_token: Result<Token, LexError>,
}

impl View for Parser {
    type V = ParserView;

    closed spec fn view(&self) -> ParserView {
        ParserView {
            text: self.lexer.source(),
            position: self.lexer.cursor(),
            current: lookahead_view(self.current_token),
        }
    }
}

impl Parser {
    /// A parser at the start of `text`, its first token read.
    pub fn new(text: String) -> (parser: Self)
        ensures
            parser@ == load(text@, 0),
    {
        let mut lexer = Lexer::new(text);
        let current_token = lexer.get_next_token();
        Self { lexer, current_token }
    }

    /// The position of a parser lies in its text.
    pub proof fn lemma_in_text(&self)
        ensures
            in_text(self@),
    {
        self.lexer.lemma_cursor_in_source();
    }

    /// Parses the rest of the text: `Ok` with the sequence of its
    /// statements where it follows the grammar, the parser then standing at
    /// the end of the input; the first error otherwise.
    pub fn parse(&mut self) -> (ast: Result<Ast, ParseError>)
        ensures
            node_parsed(ast, final(self)@, parse_from(old(self)@)),
    {
        self.statements()
    }

    /// The statements up to the end of the input.
    fn statements(&mut self) -> (ast: Result<Ast, ParseError>)
        ensures
            node_parsed(ast, final(self)@, parse_from(old(self)@)),
    {
        let mut statements: Vec<Ast> = Vec::new();
        assert(nodes_view(statements@) == Seq::<AstView>::empty());
        loop
            invariant
                parse_statements(self@, nodes_view(statements@)) == parse_statements(
                    old(self)@,
                    Seq::empty(),
                ),
            decreases remaining(self@),
        {
            proof {
                self.lemma_in_text();
                lemma_statement_progress(self@);
            }
            let ghost before = self@;
            let ghost done = nodes_view(statements@);
            let statement = match self.statement() {
                Ok(statement) => statement,
                Err(e) => {
                    return Err(e);
                },
            };
            if let Some(node) = statement {
                let ghost nodes = statements@;
                statements.push(node);
                assert(statements@.drop_last() == nodes);
            }
            proof {
                lemma_advance_progress(self@);
            }
            if self.current_token_is(Symbol::NewLine) {
                self.advance();
            } else if self.at_end() {
                return Ok(Ast::Statements(statements));
            }
        }
    }

    /// Whether the lookahead is the end of the input.
    fn at_end(&self) -> (b: bool)
        ensures
            b == (self@.current == Ok::<TokenView, LexError>(TokenView::Eof)),
    {
        match &self.current_token {
            Ok(Token::Eof) => true,
            _ => false,
        }
    }

    /// Reads the next token into the lookahead.
    fn advance(&mut self)
        ensures
            final(self)@ == advance(old(self)@),
    {
        self.current_token = self.lexer.get_next_token();
    }

    /// The error for the lookahead where `expected` was needed.
    fn unexpected(&self, expected: Expected) -> (e: ParseError)
        ensures
            e@ == unexpected(self@, expected),
    {
        match &self.current_token {
            Ok(found) => ParseError::Unexpected { expected, found: clone_token(found) },
            Err(e) => ParseError::Lexical(*e),
        }
    }

    /// One statement, or nothing on a line without one.
    fn statement(&mut self) -> (node: Result<Option<Ast>, ParseError>)
        ensures
            match parse_statement(old(self)@) {
                Ok((model, p)) => node is Ok && final(self)@ == p && match model {
                    Some(n) => node->Ok_0 is Some && node->Ok_0->0@ == n,
                    None => node->Ok_0 is None,
                },
                Err(e) => node is Err && node->Err_0@ == e,
            },
    {
        if self.current_token_is(Symbol::SemiColon) {
            self.advance();
            return Ok(None);
        }
        if self.current_token_is(Symbol::NewLine) || self.at_end() {
            return Ok(None);
        }
        let token = self.eat_type(TokenType::Text)?;
        let (is_label, arg) = if self.current_token_is(Symbol::Colon) {
            self.advance();
            (true, None)
        } else if self.operand_follows() {
            (false, Some(Box::new(self.arg()?)))
        } else {
            (false, None)
        };
        match token {
            Token::Text(t) => {
                let ast = if is_label {
                    Ast::Label(t)
                } else {
                    Ast::Instruction { instruction: t, args: arg }
                };
                self.comment();
                Ok(Some(ast))
            },
            _ => vstd::pervasive::unreached(),
        }
    }

    /// Whether the lookahead can start an operand.
    fn operand_follows(&self) -> (b: bool)
        ensures
            b == operand_follows(self@),
    {
        match &self.current_token {
            Ok(Token::Binary(_))
            | Ok(Token::Decimal(_))
            | Ok(Token::Hexa16(_))
            | Ok(Token::Hexa8(_))
            | Ok(Token::Symbol(Symbol::LPar))
            | Ok(Token::Symbol(Symbol::HashTag))
            | Ok(Token::Text(_)) => true,
            _ => false,
        }
    }

    /// Consumes the comment that may end a statement.
    fn comment(&mut self)
        ensures
            final(self)@ == skip_comment(old(self)@),
    {
        if self.current_token_is(Symbol::SemiColon) {
            self.advance();
        }
    }

    /// An operand, chosen by the lookahead.
    fn arg(&mut self) -> (node: Result<Ast, ParseError>)
        ensures
            node_parsed(node, final(self)@, parse_operand(old(self)@)),
    {
        match self.get_current_token_type() {
            Some(TokenType::Hexa16) => self.absolute(),
            Some(TokenType::Hexa8) => self.zero_page(),
            Some(TokenType::Symbol) => {
                if self.current_token_is(Symbol::LPar) {
                    self.indirect()
                } else if self.current_token_is(Symbol::HashTag) {
                    self.immediate()
                } else {
                    Err(self.unexpected(Expected::Operand))
                }
            },
            Some(TokenType::Text) => self.label(),
            _ => Err(self.unexpected(Expected::Operand)),
        }
    }

    /// `'#' number`.
    fn immediate(&mut self) -> (node: Result<Ast, ParseError>)
        ensures
            node_parsed(node, final(self)@, parse_immediate(old(self)@)),
    {
        self.eat(Symbol::HashTag)?;
        self.number()
    }

    /// `decimal | hex8 | binary`.
    fn number(&mut self) -> (node: Result<Ast, ParseError>)
        ensures
            node_parsed(node, final(self)@, parse_number(old(self)@)),
    {
        let ast = match self.get_current_token() {
            Some(Token::Decimal(d)) => Ast::Number8(*d),
            Some(Token::Binary(b)) => Ast::Number8(*b),
            Some(Token::Hexa8(h)) => Ast::Number8(*h),
            _ => {
                return Err(self.unexpected(Expected::Number));
            },
        };
        self.advance();
        Ok(ast)
    }

    /// An atom as an operand: the accumulator or a reference to a label.
    fn label(&mut self) -> (node: Result<Ast, ParseError>)
        ensures
            node_parsed(node, final(self)@, parse_label(old(self)@)),
    {
        match self.eat_type(TokenType::Text)? {
            Token::Text(t) => {
                let letter = single_letter(&t);
                if letter == Some('A') || letter == Some('a') {
                    Ok(Ast::Accumulator)
                } else {
                    Ok(Ast::Label(t))
                }
            },
            _ => vstd::pervasive::unreached(),
        }
    }

    /// Consumes `, X` or `, Y` if a comma follows.
    fn index(&mut self) -> (register: Result<Option<char>, ParseError>)
        ensures
            match parse_index(old(self)@) {
                Ok((letter, p)) => register is Ok && register->Ok_0 == letter && final(self)@ == p,
                Err(e) => register is Err && register->Err_0@ == e,
            },
    {
        if self.current_token_is(Symbol::Coma) {
            self.advance();
            let letter = match self.get_current_token() {
                Some(Token::Text(t)) => single_letter(t),
                _ => None,
            };
            match letter {
                Some(c) if c == 'x' || c == 'X' || c == 'y' || c == 'Y' => {
                    self.advance();
                    Ok(Some(c))
                },
                _ => Err(self.unexpected(Expected::IndexRegister)),
            }
        } else {
            Ok(None)
        }
    }

    /// Consumes the name of a register, given by its two letters.
    fn register(&mut self, upper: char, lower: char, expected: Expected) -> (done: Result<
        (),
        ParseError,
    >)
        ensures
            tokens_eaten(done, final(self)@, eat_register(old(self)@, upper, lower, expected)),
    {
        let letter = match self.get_current_token() {
            Some(Token::Text(t)) => single_letter(t),
            _ => None,
        };
        match letter {
            Some(c) if c == upper || c == lower => {
                self.advance();
                Ok(())
            },
            _ => Err(self.unexpected(expected)),
        }
    }

    /// `hex16 (',' ('X'|'Y'))?`.
    fn absolute(&mut self) -> (node: Result<Ast, ParseError>)
        ensures
            node_parsed(node, final(self)@, parse_absolute(old(self)@)),
    {
        match self.eat_type(TokenType::Hexa16)? {
            Token::Hexa16(h) => match self.index()? {
                Some(register) => Ok(Ast::AsoluteIndexed(h, register)),
                None => Ok(Ast::Absolute(h)),
            },
            _ => vstd::pervasive::unreached(),
        }
    }

    /// `hex8 (',' ('X'|'Y'))?`.
    fn zero_page(&mut self) -> (node: Result<Ast, ParseError>)
        ensures
            node_parsed(node, final(self)@, parse_zero_page(old(self)@)),
    {
        match self.eat_type(TokenType::Hexa8)? {
            Token::Hexa8(h) => match self.index()? {
                Some(register) => Ok(Ast::ZeroPageIndexed(h, register)),
                None => Ok(Ast::ZeroPage(h)),
            },
            _ => vstd::pervasive::unreached(),
        }
    }

    /// `'(' (hex16 ')' | hex8 ...)`.
    fn indirect(&mut self) -> (node: Result<Ast, ParseError>)
        ensures
            node_parsed(node, final(self)@, parse_indirect(old(self)@)),
    {
        self.eat(Symbol::LPar)?;
        match self.get_current_token_type() {
            Some(TokenType::Hexa16) => self.absolute_indirect(),
            Some(TokenType::Hexa8) => self.zero_page_indirect(),
            _ => Err(self.unexpected(Expected::Address)),
        }
    }

    /// `hex16 ')'`.
    fn absolute_indirect(&mut self) -> (node: Result<Ast, ParseError>)
        ensures
            node_parsed(node, final(self)@, parse_absolute_indirect(old(self)@)),
    {
        match self.eat_type(TokenType::Hexa16)? {
            Token::Hexa16(h) => {
                self.eat(Symbol::RPar)?;
                Ok(Ast::AbsoluteIndirect(h))
            },
            _ => vstd::pervasive::unreached(),
        }
    }

    /// `hex8 (',' 'X' ')' | ')' ',' 'Y')`.
    fn zero_page_indirect(&mut self) -> (node: Result<Ast, ParseError>)
        ensures
            node_parsed(node, final(self)@, parse_zero_page_indirect(old(self)@)),
    {
        match self.eat_type(TokenType::Hexa8)? {
            Token::Hexa8(h) => {
                if self.current_token_is(Symbol::RPar) {
                    self.advance();
                    self.eat(Symbol::Coma)?;
                    self.register('Y', 'y', Expected::RegisterY)?;
                    Ok(Ast::IndirectY(h))
                } else if self.current_token_is(Symbol::Coma) {
                    self.advance();
                    self.register('X', 'x', Expected::RegisterX)?;
                    self.eat(Symbol::RPar)?;
                    Ok(Ast::IndirectX(h))
                } else {
                    Err(self.unexpected(Expected::Separator))
                }
            },
            _ => vstd::pervasive::unreached(),
        }
    }

    /// Consumes the symbol `symbol`, which the lookahead has to be.
    fn eat(&mut self, symbol: Symbol) -> (done: Result<(), ParseError>)
        ensures
            tokens_eaten(done, final(self)@, eat_symbol(old(self)@, symbol)),
    {
        if self.current_token_is(symbol) {
            self.advance();
            Ok(())
        } else {
            Err(self.unexpected(Expected::Symbol(symbol)))
        }
    }

    /// Consumes the lookahead, which has to be of class `token_type`, and
    /// gives it.
    fn eat_type(&mut self, token_type: TokenType) -> (token: Result<Token, ParseError>)
        ensures
            match old(self)@.current {
                Ok(t) if token_type_of(t) == token_type => token is Ok && token->Ok_0@ == t
                    && final(self)@ == advance(old(self)@),
                _ => token is Err && token->Err_0@ == unexpected(
                    old(self)@,
                    Expected::Type(token_type),
                ),
            },
    {
        if self.get_current_token_type() == Some(token_type) {
            let mut token = self.lexer.get_next_token();
            core::mem::swap(&mut self.current_token, &mut token);
            match token {
                Ok(t) => Ok(t),
                Err(e) => Err(ParseError::Lexical(e)),
            }
        } else {
            Err(self.unexpected(Expected::Type(token_type)))
        }
    }

    /// Whether the lookahead is the symbol `symbol`.
    fn current_token_is(&self, symbol: Symbol) -> (b: bool)
        ensures
            b == at_symbol(self@, symbol),
    {
        match &self.current_token {
            Ok(Token::Symbol(s)) => *s == symbol,
            _ => false,
        }
    }

    /// The class of the lookahead, if it is a token.
    fn get_current_token_type(&self) -> (kind: Option<TokenType>)
        ensures
            kind == match self@.current {
                Ok(t) => Some(token_type_of(t)),
                Err(_) => None,
            },
    {
        match &self.current_token {
            Ok(t) => Some(get_token_type(t)),
            Err(_) => None,
        }
    }

    /// The lookahead, if it is a token.
    fn get_current_token(&self) -> (token: Option<&Token>)
        ensures
            match self@.current {
                Ok(t) => token is Some && token->0@ == t,
                Err(_) => token is None,
            },
    {
        match &self.current_token {
            Ok(t) => Some(t),
            Err(_) => None,
        }
    }
}

} // verus!
