//! The grammar of the language, as mathematical functions on byte sequences.
//!
//! ```text
//! program     := element*
//! element     := ignore* (instruction | loop)
//! instruction := '<' | '>' | '+' | '-' | ',' | '.'
//! loop        := '[' element+ ignore* ']'
//! ignore      := any byte that is none of the eight above
//! ```
//!
//! All eight grammar characters are ASCII, so in UTF-8 text a byte is one of
//! them exactly when the character it belongs to is.

use crate::parser::ast::{Element, Operation};
use vstd::prelude::*;

verus! {

/// `<`
pub const LEFT: u8 = 60;

/// `>`
pub const RIGHT: u8 = 62;

/// `+`
pub const PLUS: u8 = 43;

/// `-`
pub const MINUS: u8 = 45;

/// `,`
pub const COMMA: u8 = 44;

/// `.`
pub const DOT: u8 = 46;

/// `[`
pub const OPEN: u8 = 91;

/// `]`
pub const CLOSE: u8 = 93;

/// The operation that a byte stands for, if it stands for one.
pub open spec fn operation_of(byte: u8) -> Option<Operation> {
    if byte == LEFT {
        Some(Operation::PtrLeft)
    } else if byte == RIGHT {
        Some(Operation::PtrRight)
    } else if byte == PLUS {
        Some(Operation::Increment)
    } else if byte == MINUS {
        Some(Operation::Decrement)
    } else if byte == COMMA {
        Some(Operation::Read)
    } else if byte == DOT {
        Some(Operation::Write)
    } else {
        None
    }
}

/// The byte that is written for an operation.
pub open spec fn byte_of(op: Operation) -> u8 {
    match op {
        Operation::PtrLeft => LEFT,
        Operation::PtrRight => RIGHT,
        Operation::Increment => PLUS,
        Operation::Decrement => MINUS,
        Operation::Read => COMMA,
        Operation::Write => DOT,
    }
}

/// Whether a byte belongs to the grammar; every other byte is a comment.
pub open spec fn is_grammar_byte(byte: u8) -> bool {
    operation_of(byte) is Some || byte == OPEN || byte == CLOSE
}

/// What a parser found at a position of the text.
pub enum Parse<T> {
    /// It recognised `value`; the text goes on at `next`.
    Done { value: T, next: int },
    /// What it looks for does not start at `at`; nothing is wrong yet.
    Stop { at: int },
    /// A loop was opened and no element follows: `at` holds what follows.
    EmptyLoop { at: int },
    /// A loop was opened and its body is not followed by `]` at `at`.
    Unmatched { at: int },
}

/// The first position at or after `from` that holds a grammar byte, or the
/// length of the text if there is none.
pub open spec fn first_token(text: Seq<u8>, from: int) -> int
    decreases text.len() - from,
{
    if from < 0 || from >= text.len() {
        text.len() as int
    } else if is_grammar_byte(text[from]) {
        from
    } else {
        first_token(text, from + 1)
    }
}

/// One element: comments, then an instruction or a loop.
pub open spec fn element_at(text: Seq<u8>, from: int) -> Parse<Element>
    decreases text.len() - from, 1int,
{
    let at = first_token(text, from);
    // `first_token` never goes back: the test is there for the recursion.
    if from <= at < text.len() {
        match operation_of(text[at]) {
            Some(op) => Parse::Done { value: Element::Operation(op), next: at + 1 },
            None => match loop_at(text, at) {
                Parse::Done { value, next } => Parse::Done { value: Element::Loop(value), next },
                Parse::Stop { at } => Parse::Stop { at },
                Parse::EmptyLoop { at } => Parse::EmptyLoop { at },
                Parse::Unmatched { at } => Parse::Unmatched { at },
            },
        }
    } else {
        Parse::Stop { at }
    }
}

/// One loop: `[` at `from`, a body of at least one element, comments, `]`.
/// Once the `[` is read, anything else is an error that is not recovered from.
pub open spec fn loop_at(text: Seq<u8>, from: int) -> Parse<Seq<Element>>
    decreases text.len() - from, 0int,
{
    if 0 <= from < text.len() && text[from] == OPEN {
        match branch_at(text, from + 1) {
            Parse::Done { value, next } => {
                let close = first_token(text, next);
                if 0 <= close < text.len() && text[close] == CLOSE {
                    Parse::Done { value, next: close + 1 }
                } else {
                    Parse::Unmatched { at: close }
                }
            },
            other => other,
        }
    } else {
        Parse::Stop { at: from }
    }
}

/// One or more elements, as many as there are.
pub open spec fn branch_at(text: Seq<u8>, from: int) -> Parse<Seq<Element>>
    decreases text.len() - from, 3int,
{
    match elements_at(text, from) {
        Parse::Done { value, next } => if value.len() == 0 {
            Parse::EmptyLoop { at: first_token(text, from) }
        } else {
            Parse::Done { value, next }
        },
        other => other,
    }
}

/// Zero or more elements, as many as there are. The text goes on right behind
/// the last of them: comments that no element follows are not taken.
pub open spec fn elements_at(text: Seq<u8>, from: int) -> Parse<Seq<Element>>
    decreases text.len() - from, 2int,
{
    match element_at(text, from) {
        Parse::Done { value, next } => {
            // An element is never empty: the test is there for the recursion.
            if from < next <= text.len() {
                match elements_at(text, next) {
                    Parse::Done { value: rest, next: end } => Parse::Done {
                        value: seq![value] + rest,
                        next: end,
                    },
                    other => other,
                }
            } else {
                Parse::Done { value: seq![value], next }
            }
        },
        Parse::Stop { at } => Parse::Done { value: Seq::empty(), next: from },
        Parse::EmptyLoop { at } => Parse::EmptyLoop { at },
        Parse::Unmatched { at } => Parse::Unmatched { at },
    }
}

/// One operation, at the very start of the text.
pub open spec fn operation_at(text: Seq<u8>, from: int) -> Parse<Operation> {
    if 0 <= from < text.len() {
        match operation_of(text[from]) {
            Some(op) => Parse::Done { value: op, next: from + 1 },
            None => Parse::Stop { at: from },
        }
    } else {
        Parse::Stop { at: from }
    }
}

/// `first_token` stays within the text, skips comments only, and stops at a
/// grammar byte or at the end.
pub proof fn first_token_bounds(text: Seq<u8>, from: int)
    requires
        0 <= from <= text.len(),
    ensures
        from <= first_token(text, from) <= text.len(),
        first_token(text, from) < text.len() ==> is_grammar_byte(text[first_token(text, from)]),
        forall|k: int| from <= k < first_token(text, from) ==> !is_grammar_byte(#[trigger] text[k]),
    decreases text.len() - from,
{
    if from < text.len() && !is_grammar_byte(text[from]) {
        first_token_bounds(text, from + 1);
    }
}

/// Where an element is recognised it ends behind a grammar byte further on in
/// the text; where none starts, the text ends or `]` comes next; an error lies
/// within the text.
pub proof fn element_bounds(text: Seq<u8>, from: int)
    requires
        0 <= from <= text.len(),
    ensures
        match element_at(text, from) {
            Parse::Done { value, next } => from < next <= text.len() && is_grammar_byte(
                text[next - 1],
            ),
            Parse::Stop { at } => at == first_token(text, from) && (at == text.len() || text[at]
                == CLOSE),
            Parse::EmptyLoop { at } => from < at <= text.len(),
            Parse::Unmatched { at } => at == text.len(),
        },
    decreases text.len() - from, 1int,
{
    first_token_bounds(text, from);
    let at = first_token(text, from);
    if at < text.len() && operation_of(text[at]) is None {
        loop_bounds(text, at);
    }
}

/// The same for a loop. Where the text holds `[` at `from`, the loop is
/// recognised or in error.
pub proof fn loop_bounds(text: Seq<u8>, from: int)
    requires
        0 <= from <= text.len(),
    ensures
        match loop_at(text, from) {
            Parse::Done { value, next } => from < next <= text.len() && text[next - 1] == CLOSE
                && value.len() > 0,
            Parse::Stop { at } => at == from && (from == text.len() || text[from] != OPEN),
            Parse::EmptyLoop { at } => from < at <= text.len(),
            Parse::Unmatched { at } => at == text.len(),
        },
    decreases text.len() - from, 0int,
{
    if from < text.len() && text[from] == OPEN {
        branch_bounds(text, from + 1);
        match branch_at(text, from + 1) {
            Parse::Done { value, next } => {
                first_token_bounds(text, next);
            },
            _ => {},
        }
    }
}

/// The same for one or more elements, which are recognised or in error.
pub proof fn branch_bounds(text: Seq<u8>, from: int)
    requires
        0 <= from <= text.len(),
    ensures
        match branch_at(text, from) {
            Parse::Done { value, next } => {
                &&& from < next <= text.len()
                &&& is_grammar_byte(text[next - 1])
                &&& value.len() > 0
                &&& first_token(text, next) == text.len() || text[first_token(text, next)]
                    == CLOSE
            },
            Parse::Stop { at } => false,
            Parse::EmptyLoop { at } => from <= at <= text.len(),
            Parse::Unmatched { at } => at == text.len(),
        },
    decreases text.len() - from, 3int,
{
    elements_bounds(text, from);
    first_token_bounds(text, from);
}

/// The same for zero or more elements. Behind them the text ends or `]` is the
/// next grammar byte.
pub proof fn elements_bounds(text: Seq<u8>, from: int)
    requires
        0 <= from <= text.len(),
    ensures
        match elements_at(text, from) {
            Parse::Done { value, next } => {
                &&& from <= next <= text.len()
                &&& (value.len() == 0 <==> next == from)
                &&& (next > from ==> is_grammar_byte(text[next - 1]))
                &&& first_token(text, next) == text.len() || text[first_token(text, next)]
                    == CLOSE
            },
            Parse::Stop { at } => false,
            Parse::EmptyLoop { at } => from < at <= text.len(),
            Parse::Unmatched { at } => at == text.len(),
        },
    decreases text.len() - from, 2int,
{
    element_bounds(text, from);
    match element_at(text, from) {
        Parse::Done { value, next } => {
            elements_bounds(text, next);
        },
        _ => {},
    }
}

} // verus!
