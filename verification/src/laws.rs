//! What holds of the assembler as a whole: properties that relate several
//! of its stages, each proved from the models of the stages.

use crate::assembler::{
    assemble, assembled, emit_node, emit_nodes, initial, operand_bytes, CodeView,
};
use crate::ast::{addressing_mode_of, AstView};
use crate::error::{AsmError, AsmErrorView};
use crate::instruction::{consistent, table_consistent, Instruction, Mode};
use crate::linker::{
    advance_counter, index_node, index_nodes, link_bytes, little_endian, lookup,
    LinkerView,
};
use crate::lexer::{
    digit_value, is_ascii_digit, is_hexa_digit, lemma_scan_advances, number_value, run_end, scan,
    CharClass, LexError, Symbol, TokenView,
};
use crate::parser::{
    advance, at_symbol, in_text, lemma_advance_progress, lemma_statement_progress, load, parse_from,
    parse_operand, parse_program, parse_statement, parse_statements, remaining, ParserView,
};
use vstd::prelude::*;

verus! {

/// Assembling is a function of the source text, the origin and the
/// instruction set: two outcomes for the same three are the same bytes or
/// the same error.
pub proof fn lemma_assembling_is_deterministic(
    first: Result<Vec<u8>, AsmError>,
    second: Result<Vec<u8>, AsmError>,
    text: Seq<char>,
    origin: u16,
    instructions: Map<(Seq<char>, Mode), Instruction>,
)
    requires
        assembled(first, assemble(text, origin, instructions)),
        assembled(second, assemble(text, origin, instructions)),
    ensures
        match first {
            Ok(bytes) => second is Ok && second->Ok_0@ == bytes@,
            Err(e) => second is Err && second->Err_0@ == e@,
        },
{
}

/// Whether an instruction in `node` has a label for its operand.
pub open spec fn refers_to_label(node: AstView) -> bool
    decreases node,
{
    match node {
        AstView::Statements(nodes) => refers_to_label_among(nodes),
        AstView::Instruction { instruction, args: Some(operand) } => *operand is Label,
        _ => false,
    }
}

/// Whether an instruction among `nodes` has a label for its operand.
pub open spec fn refers_to_label_among(nodes: Seq<AstView>) -> bool
    decreases nodes,
{
    nodes.len() > 0 && (refers_to_label(nodes.first()) || refers_to_label_among(
        nodes.drop_first(),
    ))
}

/// Whether indexing succeeds, and with which error it fails, depends on
/// neither the labels nor the address it starts from; and the address it
/// ends at depends on the address it starts from, not on the labels.
pub proof fn lemma_index_outcome(
    node: AstView,
    first: LinkerView,
    second: LinkerView,
    table: Map<(Seq<char>, Mode), Instruction>,
)
    ensures
        match index_node(node, first, table) {
            Ok(end) => index_node(node, second, table) is Ok && (first.counter == second.counter
                ==> index_node(node, second, table)->Ok_0.counter == end.counter),
            Err(e) => index_node(node, second, table) == Err::<LinkerView, AsmErrorView>(e),
        },
    decreases node,
{
    match node {
        AstView::Statements(nodes) => {
            lemma_index_outcome_over(nodes, first, second, table);
        },
        _ => {},
    }
}

/// As `lemma_index_outcome`, for a sequence of nodes.
pub proof fn lemma_index_outcome_over(
    nodes: Seq<AstView>,
    first: LinkerView,
    second: LinkerView,
    table: Map<(Seq<char>, Mode), Instruction>,
)
    ensures
        match index_nodes(nodes, first, table) {
            Ok(end) => index_nodes(nodes, second, table) is Ok && (first.counter == second.counter
                ==> index_nodes(nodes, second, table)->Ok_0.counter == end.counter),
            Err(e) => index_nodes(nodes, second, table) == Err::<LinkerView, AsmErrorView>(e),
        },
    decreases nodes,
{
    if nodes.len() > 0 {
        lemma_index_outcome(nodes.first(), first, second, table);
        if index_node(nodes.first(), first, table) is Ok {
            lemma_index_outcome_over(
                nodes.drop_first(),
                index_node(nodes.first(), first, table)->Ok_0,
                index_node(nodes.first(), second, table)->Ok_0,
                table,
            );
        }
    }
}

/// The code of a node without references to labels depends on neither the
/// labels nor the address it is generated for.
pub proof fn lemma_emit_without_references(
    node: AstView,
    first: CodeView,
    second: CodeView,
    first_labels: Map<Seq<char>, u16>,
    second_labels: Map<Seq<char>, u16>,
    table: Map<(Seq<char>, Mode), Instruction>,
)
    requires
        !refers_to_label(node),
        first.program == second.program,
    ensures
        match emit_node(node, first, first_labels, table) {
            Ok(code) => emit_node(node, second, second_labels, table) is Ok && emit_node(
                node,
                second,
                second_labels,
                table,
            )->Ok_0.program == code.program,
            Err(e) => emit_node(node, second, second_labels, table) == Err::<
                CodeView,
                AsmErrorView,
            >(e),
        },
    decreases node,
{
    match node {
        AstView::Statements(nodes) => {
            lemma_emit_without_references_over(
                nodes,
                first,
                second,
                first_labels,
                second_labels,
                table,
            );
        },
        _ => {},
    }
}

/// As `lemma_emit_without_references`, for a sequence of nodes.
pub proof fn lemma_emit_without_references_over(
    nodes: Seq<AstView>,
    first: CodeView,
    second: CodeView,
    first_labels: Map<Seq<char>, u16>,
    second_labels: Map<Seq<char>, u16>,
    table: Map<(Seq<char>, Mode), Instruction>,
)
    requires
        !refers_to_label_among(nodes),
        first.program == second.program,
    ensures
        match emit_nodes(nodes, first, first_labels, table) {
            Ok(code) => emit_nodes(nodes, second, second_labels, table) is Ok && emit_nodes(
                nodes,
                second,
                second_labels,
                table,
            )->Ok_0.program == code.program,
            Err(e) => emit_nodes(nodes, second, second_labels, table) == Err::<
                CodeView,
                AsmErrorView,
            >(e),
        },
    decreases nodes,
{
    if nodes.len() > 0 {
        lemma_emit_without_references(
            nodes.first(),
            first,
            second,
            first_labels,
            second_labels,
            table,
        );
        if emit_node(nodes.first(), first, first_labels, table) is Ok {
            lemma_emit_without_references_over(
                nodes.drop_first(),
                emit_node(nodes.first(), first, first_labels, table)->Ok_0,
                emit_node(nodes.first(), second, second_labels, table)->Ok_0,
                first_labels,
                second_labels,
                table,
            );
        }
    }
}

/// A program without references to labels is assembled to the same bytes
/// wherever it is placed.
pub proof fn lemma_origin_is_irrelevant(
    text: Seq<char>,
    first: u16,
    second: u16,
    instructions: Map<(Seq<char>, Mode), Instruction>,
)
    requires
        parse_program(text) matches Ok(ast) ==> !refers_to_label(ast),
    ensures
        assemble(text, first, instructions) == assemble(text, second, instructions),
{
    match parse_from(load(text, 0)) {
        Ok((ast, _)) => {
            let one = initial(text, first, instructions);
            let two = initial(text, second, instructions);
            lemma_index_outcome(ast, one.linker, two.linker, instructions);
            if index_node(ast, one.linker, instructions) is Ok {
                lemma_emit_without_references(
                    ast,
                    one.code,
                    two.code,
                    index_node(ast, one.linker, instructions)->Ok_0.labels,
                    index_node(ast, two.linker, instructions)->Ok_0.labels,
                    instructions,
                );
            }
        },
        Err(_) => {},
    }
}

/// Indexing and code generation move their location counters alike over
/// any node: started at the same address, they end at the same address.
pub proof fn lemma_counters_agree(
    node: AstView,
    linker: LinkerView,
    code: CodeView,
    labels: Map<Seq<char>, u16>,
    table: Map<(Seq<char>, Mode), Instruction>,
)
    requires
        linker.counter == code.counter,
        index_node(node, linker, table) is Ok,
        emit_node(node, code, labels, table) is Ok,
    ensures
        index_node(node, linker, table)->Ok_0.counter == emit_node(
            node,
            code,
            labels,
            table,
        )->Ok_0.counter,
    decreases node,
{
    match node {
        AstView::Statements(nodes) => {
            lemma_counters_agree_over(nodes, linker, code, labels, table);
        },
        _ => {},
    }
}

/// Indexing and code generation move their location counters alike over
/// any sequence of nodes.
pub proof fn lemma_counters_agree_over(
    nodes: Seq<AstView>,
    linker: LinkerView,
    code: CodeView,
    labels: Map<Seq<char>, u16>,
    table: Map<(Seq<char>, Mode), Instruction>,
)
    requires
        linker.counter == code.counter,
        index_nodes(nodes, linker, table) is Ok,
        emit_nodes(nodes, code, labels, table) is Ok,
    ensures
        index_nodes(nodes, linker, table)->Ok_0.counter == emit_nodes(
            nodes,
            code,
            labels,
            table,
        )->Ok_0.counter,
    decreases nodes,
{
    if nodes.len() > 0 {
        lemma_counters_agree(nodes.first(), linker, code, labels, table);
        lemma_counters_agree_over(
            nodes.drop_first(),
            index_node(nodes.first(), linker, table)->Ok_0,
            emit_node(nodes.first(), code, labels, table)->Ok_0,
            labels,
            table,
        );
    }
}

/// Indexing a sequence is indexing its first `k` nodes and then the rest.
pub proof fn lemma_index_split(
    nodes: Seq<AstView>,
    k: int,
    state: LinkerView,
    table: Map<(Seq<char>, Mode), Instruction>,
)
    requires
        0 <= k <= nodes.len(),
    ensures
        index_nodes(nodes, state, table) == match index_nodes(nodes.take(k), state, table) {
            Ok(middle) => index_nodes(nodes.skip(k), middle, table),
            Err(e) => Err(e),
        },
    decreases k,
{
    if k == 0 {
        assert(nodes.skip(0) == nodes);
    } else {
        assert(nodes.take(k).first() == nodes.first());
        assert(nodes.take(k).drop_first() == nodes.drop_first().take(k - 1));
        assert(nodes.drop_first().skip(k - 1) == nodes.skip(k));
        match index_node(nodes.first(), state, table) {
            Ok(next) => {
                lemma_index_split(nodes.drop_first(), k - 1, next, table);
            },
            Err(_) => {},
        }
    }
}

/// Generating the code of a sequence is generating that of its first `k`
/// nodes and then that of the rest.
pub proof fn lemma_emit_split(
    nodes: Seq<AstView>,
    k: int,
    state: CodeView,
    labels: Map<Seq<char>, u16>,
    table: Map<(Seq<char>, Mode), Instruction>,
)
    requires
        0 <= k <= nodes.len(),
    ensures
        emit_nodes(nodes, state, labels, table) == match emit_nodes(
            nodes.take(k),
            state,
            labels,
            table,
        ) {
            Ok(middle) => emit_nodes(nodes.skip(k), middle, labels, table),
            Err(e) => Err(e),
        },
    decreases k,
{
    if k == 0 {
        assert(nodes.skip(0) == nodes);
    } else {
        assert(nodes.take(k).first() == nodes.first());
        assert(nodes.take(k).drop_first() == nodes.drop_first().take(k - 1));
        assert(nodes.drop_first().skip(k - 1) == nodes.skip(k));
        match emit_node(nodes.first(), state, labels, table) {
            Ok(next) => {
                lemma_emit_split(nodes.drop_first(), k - 1, next, labels, table);
            },
            Err(_) => {},
        }
    }
}

/// The two location counters are in step after every statement: where a
/// program is indexed and its code generated from the same origin, the
/// counters agree after each number `k` of its statements.
pub proof fn lemma_counters_in_step(
    nodes: Seq<AstView>,
    k: int,
    linker: LinkerView,
    code: CodeView,
    labels: Map<Seq<char>, u16>,
    table: Map<(Seq<char>, Mode), Instruction>,
)
    requires
        0 <= k <= nodes.len(),
        linker.counter == code.counter,
        index_nodes(nodes, linker, table) is Ok,
        emit_nodes(nodes, code, labels, table) is Ok,
    ensures
        index_nodes(nodes.take(k), linker, table) is Ok,
        emit_nodes(nodes.take(k), code, labels, table) is Ok,
        index_nodes(nodes.take(k), linker, table)->Ok_0.counter == emit_nodes(
            nodes.take(k),
            code,
            labels,
            table,
        )->Ok_0.counter,
{
    lemma_index_split(nodes, k, linker, table);
    lemma_emit_split(nodes, k, code, labels, table);
    lemma_counters_agree_over(nodes.take(k), linker, code, labels, table);
}

/// Whether `node` holds a declaration of the label `name`.
pub open spec fn declares(node: AstView, name: Seq<char>) -> bool
    decreases node,
{
    match node {
        AstView::Statements(nodes) => declares_among(nodes, name),
        AstView::Label(label) => label == name,
        _ => false,
    }
}

/// Whether one of `nodes` holds a declaration of the label `name`.
pub open spec fn declares_among(nodes: Seq<AstView>, name: Seq<char>) -> bool
    decreases nodes,
{
    nodes.len() > 0 && (declares(nodes.first(), name) || declares_among(nodes.drop_first(), name))
}

/// Indexing a node that does not declare a label leaves the label as it
/// was.
pub proof fn lemma_index_keeps_label(
    node: AstView,
    name: Seq<char>,
    state: LinkerView,
    table: Map<(Seq<char>, Mode), Instruction>,
)
    requires
        !declares(node, name),
        index_node(node, state, table) is Ok,
    ensures
        index_node(node, state, table)->Ok_0.labels.contains_key(name)
            == state.labels.contains_key(name),
        index_node(node, state, table)->Ok_0.labels[name] == state.labels[name],
    decreases node,
{
    match node {
        AstView::Statements(nodes) => {
            lemma_index_keeps_label_over(nodes, name, state, table);
        },
        _ => {},
    }
}

/// Indexing nodes that do not declare a label leaves the label as it was.
pub proof fn lemma_index_keeps_label_over(
    nodes: Seq<AstView>,
    name: Seq<char>,
    state: LinkerView,
    table: Map<(Seq<char>, Mode), Instruction>,
)
    requires
        !declares_among(nodes, name),
        index_nodes(nodes, state, table) is Ok,
    ensures
        index_nodes(nodes, state, table)->Ok_0.labels.contains_key(name)
            == state.labels.contains_key(name),
        index_nodes(nodes, state, table)->Ok_0.labels[name] == state.labels[name],
    decreases nodes,
{
    if nodes.len() > 0 {
        lemma_index_keeps_label(nodes.first(), name, state, table);
        lemma_index_keeps_label_over(
            nodes.drop_first(),
            name,
            index_node(nodes.first(), state, table)->Ok_0,
            table,
        );
    }
}

/// The address of a label is the address of the byte that follows the
/// statements before its declaration, whatever comes after it and wherever
/// it is referred to: where statement `k` of a program declares `name`, and
/// no later one does, indexing binds `name` to the value that the location
/// counter has after the first `k` statements.
pub proof fn lemma_label_address(
    nodes: Seq<AstView>,
    k: int,
    name: Seq<char>,
    state: LinkerView,
    table: Map<(Seq<char>, Mode), Instruction>,
)
    requires
        0 <= k < nodes.len(),
        nodes[k] == AstView::Label(name),
        !declares_among(nodes.skip(k + 1), name),
        index_nodes(nodes, state, table) is Ok,
    ensures
        index_nodes(nodes.take(k), state, table) is Ok,
        index_nodes(nodes, state, table)->Ok_0.labels.contains_key(name),
        index_nodes(nodes, state, table)->Ok_0.labels[name] == index_nodes(
            nodes.take(k),
            state,
            table,
        )->Ok_0.counter,
{
    lemma_index_split(nodes, k, state, table);
    let before = index_nodes(nodes.take(k), state, table)->Ok_0;
    let rest = nodes.skip(k);
    assert(rest.first() == nodes[k]);
    assert(rest.drop_first() == nodes.skip(k + 1));
    lemma_index_keeps_label_over(
        nodes.skip(k + 1),
        name,
        index_node(nodes[k], before, table)->Ok_0,
        table,
    );
}

/// A reference to a label is resolved against the finished table of
/// labels, so that a reference before the declaration and one after it
/// name the same address: under an instruction that takes an address, the
/// bytes of the reference do not depend on where the reference stands.
pub proof fn lemma_reference_anywhere(
    labels: Map<Seq<char>, u16>,
    label: Seq<char>,
    instruction: Instruction,
    before: u16,
    after: u16,
)
    requires
        instruction.mode == Mode::Absolute,
    ensures
        link_bytes(labels, label, instruction, before) == link_bytes(
            labels,
            label,
            instruction,
            after,
        ),
        labels.contains_key(label) ==> link_bytes(labels, label, instruction, before) == Ok::<
            Seq<u8>,
            AsmErrorView,
        >(little_endian(labels[label])),
{
}

/// A branch is encoded as the distance from the byte after the branch to
/// its target, modulo 256: an instruction of `len` bytes at address `at`
/// that branches to `target` gets the one byte `(target - (at + len)) mod
/// 256`, which is the distance itself in two's complement where it lies
/// between -128 and 127.
pub proof fn lemma_branch_distance(
    labels: Map<Seq<char>, u16>,
    label: Seq<char>,
    instruction: Instruction,
    at: u16,
)
    requires
        labels.contains_key(label),
        instruction.mode == Mode::Relative,
    ensures
        link_bytes(labels, label, instruction, at) matches Ok(bytes) && bytes.len() == 1
            && bytes[0] as int == (labels[label] - (at + instruction.len)) % 256,
        ({
            let distance = labels[label] - (at + instruction.len);
            let byte = link_bytes(labels, label, instruction, at)->Ok_0[0];
            &&& 0 <= distance <= 127 ==> byte == distance
            &&& -128 <= distance < 0 ==> byte == distance + 256
        }),
{
}

/// An address is emitted low byte first: the two bytes are the address
/// modulo 256 and the address divided by 256.
pub proof fn lemma_little_endian(address: u16)
    ensures
        little_endian(address).len() == 2,
        little_endian(address)[0] == address % 256,
        little_endian(address)[1] == address / 256,
        little_endian(address)[0] + 256 * little_endian(address)[1] == address,
        little_endian(0xAABB) == seq![0xBBu8, 0xAAu8],
{
}

/// With an instruction set whose lengths are those of the encodings, every
/// instruction emits as many bytes as its length says.
pub proof fn lemma_instruction_length(
    name: Seq<char>,
    args: Option<Box<AstView>>,
    state: CodeView,
    labels: Map<Seq<char>, u16>,
    table: Map<(Seq<char>, Mode), Instruction>,
)
    requires
        table_consistent(table),
        emit_node(AstView::Instruction { instruction: name, args }, state, labels, table) is Ok,
    ensures
        ({
            let found = lookup(table, name, args)->Ok_0;
            let after = emit_node(
                AstView::Instruction { instruction: name, args },
                state,
                labels,
                table,
            )->Ok_0;
            &&& after.program.len() == state.program.len() + found.len
            &&& after.program.subrange(0, state.program.len() as int) == state.program
            &&& after.program[state.program.len() as int] == found.opcode
            &&& after.counter == advance_counter(state.counter, found.len)
        }),
{
    let found = lookup(table, name, args)->Ok_0;
    let mode = addressing_mode_of(args)->0;
    assert(table.contains_key((name, mode)));
    assert(consistent(mode, found));
    let bytes = operand_bytes(args, found, labels, state.counter)->Ok_0;
    let node = AstView::Instruction { instruction: name, args };
    let after = emit_node(node, state, labels, table)->Ok_0;
    assert(after.program == state.program.push(found.opcode) + bytes);
}

/// The character for a digit of value `d`, below sixteen.
pub open spec fn digit_char(d: int) -> char {
    if d < 10 {
        ('0' as int + d) as char
    } else {
        ('A' as int + d - 10) as char
    }
}

/// `value` written in `base` with `len` digits, most significant first.
pub open spec fn render_digits(value: int, base: int, len: nat) -> Seq<char>
    decreases len,
{
    if len == 0 {
        Seq::empty()
    } else {
        render_digits(value / base, base, (len - 1) as nat).push(digit_char(value % base))
    }
}

/// Whether `value` can be written in `base` with `len` digits.
pub open spec fn fits_digits(value: int, base: int, len: nat) -> bool
    decreases len,
{
    if len == 0 {
        value == 0
    } else {
        fits_digits(value / base, base, (len - 1) as nat)
    }
}

/// The number of digits of a decimal literal without leading zeros.
pub open spec fn decimal_len(value: u8) -> nat {
    if value < 10 {
        1
    } else if value < 100 {
        2
    } else {
        3
    }
}

/// The text of a literal: a decimal number without leading zeros, `$` and
/// two or four hexadecimal digits, `%` and eight binary digits. `None` for
/// a token that is no literal.
pub open spec fn render(token: TokenView) -> Option<Seq<char>> {
    match token {
        TokenView::Decimal(value) => Some(render_digits(value as int, 10, decimal_len(value))),
        TokenView::Hexa8(value) => Some(seq!['$'] + render_digits(value as int, 16, 2)),
        TokenView::Hexa16(value) => Some(seq!['$'] + render_digits(value as int, 16, 4)),
        TokenView::Binary(value) => Some(seq!['%'] + render_digits(value as int, 2, 8)),
        _ => None,
    }
}

/// Digits written for a number denote that number, and are digits of the
/// base.
pub proof fn lemma_render_digits(value: int, base: int, len: nat)
    requires
        0 <= value,
        2 <= base <= 16,
        fits_digits(value, base, len),
    ensures
        render_digits(value, base, len).len() == len,
        number_value(render_digits(value, base, len), base as nat) == value,
        forall|i: int|
            0 <= i < len ==> {
                let c = #[trigger] render_digits(value, base, len)[i];
                &&& is_hexa_digit(c)
                &&& digit_value(c) < base
                &&& base <= 10 ==> is_ascii_digit(c)
                &&& c != ' ' && c != '\t'
            },
    decreases len,
{
    if len > 0 {
        let rest = render_digits(value / base, base, (len - 1) as nat);
        let digits = render_digits(value, base, len);
        assert(0 <= value / base && 0 <= value % base < base) by (nonlinear_arith)
            requires
                0 <= value,
                2 <= base,
        ;
        lemma_render_digits(value / base, base, (len - 1) as nat);
        assert(digits.drop_last() == rest);
        assert(digits.last() == digit_char(value % base));
        assert(digit_value(digit_char(value % base)) == value % base);
        assert((value / base) * base + value % base == value) by (nonlinear_arith)
            requires
                2 <= base,
        ;
        assert forall|i: int| 0 <= i < len implies {
            let c = #[trigger] digits[i];
            &&& is_hexa_digit(c)
            &&& digit_value(c) < base
            &&& base <= 10 ==> is_ascii_digit(c)
            &&& c != ' ' && c != '\t'
        } by {
            if i < len - 1 {
                assert(digits[i] == rest[i]);
            }
        }
    }
}

/// A run that reaches the end of the text ends there.
pub proof fn lemma_run_to_end(text: Seq<char>, from: int, class: CharClass)
    requires
        0 <= from <= text.len(),
        forall|i: int| from <= i < text.len() ==> class.holds(#[trigger] text[i]),
    ensures
        run_end(text, from, class) == text.len(),
    decreases text.len() - from,
{
    if from < text.len() {
        lemma_run_to_end(text, from + 1, class);
    }
}

/// Literals survive being written and read again: the text of a literal
/// token is lexed, as a whole, to that same token.
pub proof fn lemma_literal_round_trip(token: TokenView)
    requires
        render(token) is Some,
    ensures
        scan(render(token)->0, 0).token == Ok::<TokenView, LexError>(token),
        scan(render(token)->0, 0).next == render(token)->0.len(),
{
    let text = render(token)->0;
    match token {
        TokenView::Decimal(value) => {
            let len = decimal_len(value);
            assert(fits_digits(value as int, 10, len)) by {
                reveal_with_fuel(fits_digits, 4);
            }
            lemma_render_digits(value as int, 10, len);
            assert(run_end(text, 0, CharClass::Blank) == 0);
            lemma_run_to_end(text, 1, CharClass::Digit);
            assert(text.subrange(0, text.len() as int) == text);
        },
        TokenView::Hexa8(value) => {
            let digits = render_digits(value as int, 16, 2);
            assert(fits_digits(value as int, 16, 2)) by {
                reveal_with_fuel(fits_digits, 3);
            }
            lemma_render_digits(value as int, 16, 2);
            assert(run_end(text, 0, CharClass::Blank) == 0);
            assert forall|i: int| 1 <= i < text.len() implies CharClass::Hexa.holds(
                #[trigger] text[i],
            ) by {
                assert(text[i] == digits[i - 1]);
            }
            lemma_run_to_end(text, 1, CharClass::Hexa);
            assert(text.subrange(1, text.len() as int) == digits);
        },
        TokenView::Hexa16(value) => {
            let digits = render_digits(value as int, 16, 4);
            assert(fits_digits(value as int, 16, 4)) by {
                reveal_with_fuel(fits_digits, 5);
            }
            lemma_render_digits(value as int, 16, 4);
            assert(run_end(text, 0, CharClass::Blank) == 0);
            assert forall|i: int| 1 <= i < text.len() implies CharClass::Hexa.holds(
                #[trigger] text[i],
            ) by {
                assert(text[i] == digits[i - 1]);
            }
            lemma_run_to_end(text, 1, CharClass::Hexa);
            assert(text.subrange(1, text.len() as int) == digits);
        },
        TokenView::Binary(value) => {
            let digits = render_digits(value as int, 2, 8);
            assert(fits_digits(value as int, 2, 8)) by {
                reveal_with_fuel(fits_digits, 9);
            }
            lemma_render_digits(value as int, 2, 8);
            assert(run_end(text, 0, CharClass::Blank) == 0);
            assert forall|i: int| 1 <= i < text.len() implies CharClass::Binary.holds(
                #[trigger] text[i],
            ) by {
                assert(text[i] == digits[i - 1]);
                assert(digit_value(digits[i - 1]) < 2);
            }
            lemma_run_to_end(text, 1, CharClass::Binary);
            assert(text.subrange(1, text.len() as int) == digits);
        },
        _ => {},
    }
}

/// Whether `node` can stand as a statement: a label, or an instruction
/// whose operand, if it has one, has an addressing mode.
pub open spec fn is_statement(node: AstView) -> bool {
    match node {
        AstView::Label(_) => true,
        AstView::Instruction { instruction, args } => addressing_mode_of(args) is Some,
        _ => false,
    }
}

/// Whether `node` is a program: a sequence of statements.
pub open spec fn is_program(node: AstView) -> bool {
    node matches AstView::Statements(nodes) && forall|i: int|
        0 <= i < nodes.len() ==> is_statement(#[trigger] nodes[i])
}

/// The parser builds operands only: what it gives for an operand has an
/// addressing mode.
pub proof fn lemma_parsed_operand(p: ParserView)
    ensures
        parse_operand(p) matches Ok((operand, _)) ==> addressing_mode_of(Some(Box::new(operand)))
            is Some,
{
}

/// What the parser gives for a statement is a statement.
pub proof fn lemma_parsed_statement(p: ParserView)
    ensures
        parse_statement(p) matches Ok((Some(node), _)) ==> is_statement(node),
{
    lemma_parsed_operand(advance(p));
}

/// What the parser adds to a sequence of statements are statements.
pub proof fn lemma_parsed_statements(p: ParserView, done: Seq<AstView>)
    requires
        in_text(p),
        forall|i: int| 0 <= i < done.len() ==> is_statement(#[trigger] done[i]),
    ensures
        parse_statements(p, done) matches Ok((nodes, _)) ==> forall|i: int|
            0 <= i < nodes.len() ==> is_statement(#[trigger] nodes[i]),
    decreases remaining(p),
{
    lemma_statement_progress(p);
    lemma_parsed_statement(p);
    match parse_statement(p) {
        Ok((node, next)) => {
            let nodes = match node {
                Some(node) => done.push(node),
                None => done,
            };
            lemma_advance_progress(next);
            if at_symbol(next, Symbol::NewLine) {
                lemma_parsed_statements(advance(next), nodes);
            } else if next.current != Ok::<TokenView, LexError>(TokenView::Eof) {
                lemma_parsed_statements(next, nodes);
            }
        },
        Err(_) => {},
    }
}

/// Every text that the parser accepts denotes a program.
pub proof fn lemma_parsed_program(text: Seq<char>)
    ensures
        parse_program(text) matches Ok(ast) ==> is_program(ast),
{
    lemma_scan_advances(text, 0);
    lemma_parsed_statements(load(text, 0), Seq::empty());
}

/// Indexing statements fails only on an instruction that the set does not
/// hold.
pub proof fn lemma_index_error(
    nodes: Seq<AstView>,
    state: LinkerView,
    table: Map<(Seq<char>, Mode), Instruction>,
)
    requires
        forall|i: int| 0 <= i < nodes.len() ==> is_statement(#[trigger] nodes[i]),
    ensures
        index_nodes(nodes, state, table) matches Err(e) ==> e is UnknownInstruction,
    decreases nodes.len(),
{
    if nodes.len() > 0 {
        assert(is_statement(nodes[0]));
        match index_node(nodes.first(), state, table) {
            Ok(next) => {
                assert forall|i: int| 0 <= i < nodes.drop_first().len() implies is_statement(
                    #[trigger] nodes.drop_first()[i],
                ) by {
                    assert(nodes.drop_first()[i] == nodes[i + 1]);
                }
                lemma_index_error(nodes.drop_first(), next, table);
            },
            Err(_) => {},
        }
    }
}

/// Generating the code of statements fails only on an instruction that the
/// set does not hold, on a label that is not declared, or on a label under
/// an instruction that takes neither a distance nor an address.
pub proof fn lemma_emit_error(
    nodes: Seq<AstView>,
    state: CodeView,
    labels: Map<Seq<char>, u16>,
    table: Map<(Seq<char>, Mode), Instruction>,
)
    requires
        forall|i: int| 0 <= i < nodes.len() ==> is_statement(#[trigger] nodes[i]),
    ensures
        emit_nodes(nodes, state, labels, table) matches Err(e) ==> e is UnknownInstruction || e
            is UndefinedLabel || e is UnexpectedMode,
    decreases nodes.len(),
{
    if nodes.len() > 0 {
        assert(is_statement(nodes[0]));
        match emit_node(nodes.first(), state, labels, table) {
            Ok(next) => {
                assert forall|i: int| 0 <= i < nodes.drop_first().len() implies is_statement(
                    #[trigger] nodes.drop_first()[i],
                ) by {
                    assert(nodes.drop_first()[i] == nodes[i + 1]);
                }
                lemma_emit_error(nodes.drop_first(), next, labels, table);
            },
            Err(_) => {},
        }
    }
}

/// A source text fails to assemble only for its syntax, for an instruction
/// that the set does not hold, for a label that is not declared, or for a
/// label under an instruction that takes neither a distance nor an address:
/// the parser builds no tree that code generation cannot walk.
pub proof fn lemma_assemble_error(
    text: Seq<char>,
    origin: u16,
    instructions: Map<(Seq<char>, Mode), Instruction>,
)
    ensures
        assemble(text, origin, instructions) matches Err(e) ==> e is Syntax || e
            is UnknownInstruction || e is UndefinedLabel || e is UnexpectedMode,
{
    lemma_parsed_program(text);
    match parse_from(load(text, 0)) {
        Ok((ast, _)) => {
            let state = initial(text, origin, instructions);
            let nodes = ast->Statements_0;
            lemma_index_error(nodes, state.linker, instructions);
            if index_node(ast, state.linker, instructions) is Ok {
                lemma_emit_error(
                    nodes,
                    state.code,
                    index_node(ast, state.linker, instructions)->Ok_0.labels,
                    instructions,
                );
            }
        },
        Err(_) => {},
    }
}

} // verus!
