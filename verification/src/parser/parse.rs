//! The parser: from source text to a syntax tree, or to the first error.

use crate::parser::ast::{values, ASTBranch, ASTElement, Element, Operation};
use crate::parser::grammar::{
    branch_at, branch_bounds, element_at, element_bounds, elements_at, elements_bounds,
    first_token, is_grammar_byte, loop_at, loop_bounds, operation_at, operation_of, Parse, CLOSE,
    COMMA, DOT, LEFT, MINUS, OPEN, PLUS, RIGHT,
};
use vstd::prelude::*;
use vstd::string::StringSliceAdditionalSpecFns;
use vstd::utf8::{
    encode_utf8_valid_utf8, is_char_boundary, length_of_first_scalar, pop_first_scalar,
    valid_utf8,
};

verus! {

/// Why a text was not parsed, with the byte offset at which that was found.
#[derive(Debug, Clone, Copy, PartialEq, Eq, Structural)]
pub enum ParseError {
    /// What the parser looks for does not start at `offset`.
    UnexpectedCharacter { offset: usize },
    /// A loop was opened, and behind its body, at `offset`, the text ends.
    UnmatchedLoopOpen { offset: usize },
    /// A loop was opened, and at `offset` no element follows.
    EmptyLoopBody { offset: usize },
}

impl ParseError {
    /// The byte offset at which the error was found.
    pub fn offset(&self) -> (offset: usize)
        ensures
            offset == match *self {
                ParseError::UnexpectedCharacter { offset } => offset,
                ParseError::UnmatchedLoopOpen { offset } => offset,
                ParseError::EmptyLoopBody { offset } => offset,
            },
    {
        match *self {
            ParseError::UnexpectedCharacter { offset } => offset,
            ParseError::UnmatchedLoopOpen { offset } => offset,
            ParseError::EmptyLoopBody { offset } => offset,
        }
    }
}

/// The error that stands for a parse that recognised nothing.
pub open spec fn error_of<T>(parse: Parse<T>) -> ParseError {
    match parse {
        Parse::Done { value, next } => ParseError::UnexpectedCharacter { offset: next as usize },
        Parse::Stop { at } => ParseError::UnexpectedCharacter { offset: at as usize },
        Parse::EmptyLoop { at } => ParseError::EmptyLoopBody { offset: at as usize },
        Parse::Unmatched { at } => ParseError::UnmatchedLoopOpen { offset: at as usize },
    }
}

/// A result on bytes says what the grammar says: the value and the position
/// behind it, or the error.
pub open spec fn agrees<T: View>(result: Result<(T, usize), ParseError>, parse: Parse<T::V>) -> bool {
    match parse {
        Parse::Done { value, next } => result matches Ok(found) && found.0@ == value && found.1
            == next,
        _ => result == Err::<(T, usize), ParseError>(error_of(parse)),
    }
}

/// A result on text says what the grammar says of the text's bytes: the value
/// and the rest of the text behind it, or the error.
pub open spec fn agrees_on_text<T: View>(
    result: Result<(&str, T), ParseError>,
    text: Seq<u8>,
    parse: Parse<T::V>,
) -> bool {
    match parse {
        Parse::Done { value, next } => result matches Ok(found) && found.1@ == value
            && found.0.spec_bytes() == text.skip(next),
        _ => result == Err::<(&str, T), ParseError>(error_of(parse)),
    }
}

/// `head`, then what `tail` recognised.
pub open spec fn prepend(head: Seq<Element>, tail: Parse<Seq<Element>>) -> Parse<Seq<Element>> {
    match tail {
        Parse::Done { value, next } => Parse::Done { value: head + value, next },
        other => other,
    }
}

fn operation_for(byte: u8) -> (op: Option<Operation>)
    ensures
        op == operation_of(byte),
{
    if byte == LEFT {
        Some(Operation::PtrLeft)
    } else if byte == RIGHT {
        Some(Operation::PtrRight)
    } else if byte == PLUS {
        Some(Operation::Increment)
    } else if byte == MINUS {
        Some(Operation::Decrement)
    } else if byte == COMMA {
        Some(Operation::Read)
    } else if byte == DOT {
        Some(Operation::Write)
    } else {
        None
    }
}

fn is_grammar(byte: u8) -> (yes: bool)
    ensures
        yes == is_grammar_byte(byte),
{
    operation_for(byte).is_some() || byte == OPEN || byte == CLOSE
}

fn skip_comments(bytes: &[u8], from: usize) -> (at: usize)
    requires
        from <= bytes@.len(),
    ensures
        at == first_token(bytes@, from as int),
        from <= at <= bytes@.len(),
{
    let mut at = from;
    while at < bytes.len() && !is_grammar(bytes[at])
        invariant
            from <= at <= bytes@.len(),
            first_token(bytes@, from as int) == first_token(bytes@, at as int),
        decreases bytes@.len() - at,
    {
        at += 1;
    }
    at
}

fn parse_operation(bytes: &[u8], from: usize) -> (result: Result<(Operation, usize), ParseError>)
    requires
        from <= bytes@.len(),
    ensures
        agrees(result, operation_at(bytes@, from as int)),
{
    if from < bytes.len() {
        match operation_for(bytes[from]) {
            Some(op) => Ok((op, from + 1)),
            None => Err(ParseError::UnexpectedCharacter { offset: from }),
        }
    } else {
        Err(ParseError::UnexpectedCharacter { offset: from })
    }
}

fn parse_element(bytes: &[u8], from: usize) -> (result: Result<(ASTElement, usize), ParseError>)
    requires
        from <= bytes@.len(),
    ensures
        agrees(result, element_at(bytes@, from as int)),
    decreases bytes@.len() - from, 1int,
{
    let at = skip_comments(bytes, from);
    if at >= bytes.len() {
        return Err(ParseError::UnexpectedCharacter { offset: at });
    }
    match operation_for(bytes[at]) {
        Some(op) => Ok((ASTElement::Operation(op), at + 1)),
        None => match parse_loop(bytes, at) {
            Ok((body, next)) => Ok((ASTElement::Loop(body), next)),
            Err(error) => Err(error),
        },
    }
}

fn parse_loop(bytes: &[u8], from: usize) -> (result: Result<(ASTBranch, usize), ParseError>)
    requires
        from <= bytes@.len(),
    ensures
        agrees(result, loop_at(bytes@, from as int)),
    decreases bytes@.len() - from, 0int,
{
    if from >= bytes.len() || bytes[from] != OPEN {
        return Err(ParseError::UnexpectedCharacter { offset: from });
    }
    match parse_branch(bytes, from + 1) {
        Ok((body, next)) => {
            proof {
                branch_bounds(bytes@, from + 1);
            }
            let close = skip_comments(bytes, next);
            if close < bytes.len() && bytes[close] == CLOSE {
                Ok((body, close + 1))
            } else {
                Err(ParseError::UnmatchedLoopOpen { offset: close })
            }
        },
        Err(error) => Err(error),
    }
}

fn parse_branch(bytes: &[u8], from: usize) -> (result: Result<(ASTBranch, usize), ParseError>)
    requires
        from <= bytes@.len(),
    ensures
        agrees(result, branch_at(bytes@, from as int)),
    decreases bytes@.len() - from, 3int,
{
    match parse_elements(bytes, from) {
        Ok((body, next)) => {
            if body.0.len() == 0 {
                Err(ParseError::EmptyLoopBody { offset: skip_comments(bytes, from) })
            } else {
                Ok((body, next))
            }
        },
        Err(error) => Err(error),
    }
}

fn parse_elements(bytes: &[u8], from: usize) -> (result: Result<(ASTBranch, usize), ParseError>)
    requires
        from <= bytes@.len(),
    ensures
        agrees(result, elements_at(bytes@, from as int)),
    decreases bytes@.len() - from, 2int,
{
    let mut items: Vec<ASTElement> = Vec::new();
    let mut at = from;
    proof {
        match elements_at(bytes@, from as int) {
            Parse::Done { value, next } => {
                assert(values(items@) + value =~= value);
            },
            _ => {},
        }
    }
    loop
        invariant
            from <= at <= bytes@.len(),
            elements_at(bytes@, from as int) == prepend(
                values(items@),
                elements_at(bytes@, at as int),
            ),
        decreases bytes@.len() - at,
    {
        proof {
            element_bounds(bytes@, at as int);
        }
        match parse_element(bytes, at) {
            Ok((element, next)) => {
                proof {
                    let head = values(items@);
                    let grown = values(items@.push(element));
                    assert(grown =~= head.push(element@));
                    match elements_at(bytes@, next as int) {
                        Parse::Done { value, next } => {
                            assert(head + (seq![element@] + value) =~= grown + value);
                        },
                        _ => {},
                    }
                }
                items.push(element);
                at = next;
            },
            Err(ParseError::UnexpectedCharacter { offset }) => {
                let body = ASTBranch(items);
                assert(body@ =~= values(items@) + Seq::<Element>::empty());
                return Ok((body, at));
            },
            Err(error) => {
                return Err(error);
            },
        }
    }
}

/// In well-formed UTF-8 a character starts right behind every ASCII byte.
proof fn boundary_behind_ascii(bytes: Seq<u8>, index: int)
    requires
        valid_utf8(bytes),
        0 <= index < bytes.len(),
        bytes[index] <= 0x7f,
    ensures
        is_char_boundary(bytes, index + 1),
    decreases bytes.len(),
{
    reveal_with_fuel(valid_utf8, 2);
    reveal_with_fuel(is_char_boundary, 2);
    let width = length_of_first_scalar(bytes);
    if index >= width {
        let rest = pop_first_scalar(bytes);
        assert(rest[index - width] == bytes[index]);
        boundary_behind_ascii(rest, index - width);
    }
}

/// The rest of `input` from byte `next` on, where `next` is 0 or lies right
/// behind a grammar byte.
fn rest_of<'a>(input: &'a str, next: usize) -> (rest: &'a str)
    requires
        next <= input.spec_bytes().len(),
        next > 0 ==> is_grammar_byte(input.spec_bytes()[next - 1]),
    ensures
        rest.spec_bytes() == input.spec_bytes().skip(next as int),
{
    proof {
        encode_utf8_valid_utf8(input@);
        if next > 0 {
            boundary_behind_ascii(input.spec_bytes(), next - 1);
        }
    }
    let (_, rest) = input.split_at(next);
    rest
}

/// Reads one operation at the very start of `input`: no comment is skipped.
pub fn operation<'a>(input: &'a str) -> (result: Result<(&'a str, Operation), ParseError>)
    ensures
        agrees_on_text(result, input.spec_bytes(), operation_at(input.spec_bytes(), 0)),
{
    match parse_operation(input.as_bytes(), 0) {
        Ok((op, next)) => Ok((rest_of(input, next), op)),
        Err(error) => Err(error),
    }
}

/// Reads the next element of `input`, an operation or a whole loop, behind any
/// comment in front of it.
pub fn ast_element<'a>(input: &'a str) -> (result: Result<(&'a str, ASTElement), ParseError>)
    ensures
        agrees_on_text(result, input.spec_bytes(), element_at(input.spec_bytes(), 0)),
{
    proof {
        element_bounds(input.spec_bytes(), 0);
    }
    match parse_element(input.as_bytes(), 0) {
        Ok((element, next)) => Ok((rest_of(input, next), element)),
        Err(error) => Err(error),
    }
}

/// Reads one loop that opens at the very start of `input`, and gives its body.
pub fn ast_loop<'a>(input: &'a str) -> (result: Result<(&'a str, ASTBranch), ParseError>)
    ensures
        agrees_on_text(result, input.spec_bytes(), loop_at(input.spec_bytes(), 0)),
{
    proof {
        loop_bounds(input.spec_bytes(), 0);
    }
    match parse_loop(input.as_bytes(), 0) {
        Ok((body, next)) => Ok((rest_of(input, next), body)),
        Err(error) => Err(error),
    }
}

/// Reads the elements of `input`, as many as there are and at least one.
pub fn ast_branch<'a>(input: &'a str) -> (result: Result<(&'a str, ASTBranch), ParseError>)
    ensures
        agrees_on_text(result, input.spec_bytes(), branch_at(input.spec_bytes(), 0)),
        !(result matches Err(ParseError::UnexpectedCharacter { .. })),
{
    proof {
        branch_bounds(input.spec_bytes(), 0);
    }
    match parse_branch(input.as_bytes(), 0) {
        Ok((body, next)) => Ok((rest_of(input, next), body)),
        Err(error) => Err(error),
    }
}

/// Parses a whole program from its bytes: the elements of `input`, as many
/// as there are. It gives the tree and the offset of the first byte that was
/// not read.
pub fn parse_bytes(input: &[u8]) -> (result: Result<(ASTBranch, usize), ParseError>)
    ensures
        agrees(result, elements_at(input@, 0)),
        !(result matches Err(ParseError::UnexpectedCharacter { .. })),
{
    proof {
        elements_bounds(input@, 0);
    }
    parse_elements(input, 0)
}

/// Parses a whole program: the elements of `input`, as many as there are.
///
/// The text behind the last element is handed back and is no error: it holds
/// comments only, or its first grammar character is a `]` that closes nothing.
/// An error inside a loop is an error of the program.
pub fn parse_bf<'a>(input: &'a str) -> (result: Result<(&'a str, ASTBranch), ParseError>)
    ensures
        agrees_on_text(result, input.spec_bytes(), elements_at(input.spec_bytes(), 0)),
        !(result matches Err(ParseError::UnexpectedCharacter { .. })),
{
    proof {
        elements_bounds(input.spec_bytes(), 0);
    }
    match parse_bytes(input.as_bytes()) {
        Ok((program, next)) => Ok((rest_of(input, next), program)),
        Err(error) => Err(error),
    }
}

} // verus!
