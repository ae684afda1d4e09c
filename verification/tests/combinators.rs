//! The grammar written with nom's combinators, to cross-check the parser.

use bf_jit::compiler::callbacks::{input_word, output_byte};
use bf_jit::parser::ast::{ASTBranch, ASTElement, Operation};
use bf_jit::parser::parse::{ast_branch, ast_element, ast_loop, operation, parse_bf, ParseError};
use nom::IResult;

const VALID_CHARS: &str = ",.<>+-[]";

fn nom_operation(input: &str) -> IResult<&str, Operation> {
    nom::branch::alt((
        nom::combinator::value(Operation::PtrLeft, nom::character::complete::char('<')),
        nom::combinator::value(Operation::PtrRight, nom::character::complete::char('>')),
        nom::combinator::value(Operation::Increment, nom::character::complete::char('+')),
        nom::combinator::value(Operation::Decrement, nom::character::complete::char('-')),
        nom::combinator::value(Operation::Read, nom::character::complete::char(',')),
        nom::combinator::value(Operation::Write, nom::character::complete::char('.')),
    ))(input)
}

fn nom_comments(input: &str) -> IResult<&str, Vec<char>> {
    nom::multi::many0(nom::character::complete::none_of(VALID_CHARS))(input)
}

fn nom_element(input: &str) -> IResult<&str, ASTElement> {
    nom::sequence::preceded(
        nom_comments,
        nom::branch::alt((
            nom::combinator::map(nom_operation, ASTElement::Operation),
            nom::combinator::map(nom_loop, ASTElement::Loop),
        )),
    )(input)
}

fn nom_loop(input: &str) -> IResult<&str, ASTBranch> {
    nom::sequence::preceded(
        nom::character::complete::char('['),
        nom::sequence::terminated(
            nom_branch,
            nom::sequence::preceded(nom_comments, nom::character::complete::char(']')),
        ),
    )(input)
}

fn nom_branch(input: &str) -> IResult<&str, ASTBranch> {
    nom::combinator::cut(nom::combinator::map(nom::multi::many1(nom_element), ASTBranch))(input)
}

fn nom_program(input: &str) -> IResult<&str, ASTBranch> {
    nom::combinator::cut(nom::combinator::map(nom::multi::many0(nom_element), ASTBranch))(input)
}

/// Where the parser recognises something, the combinators recognise the same
/// and leave the same rest; where it finds nothing, or an empty loop, they
/// fail too, with an error that is recovered from or not as the kind says.
fn same<T: PartialEq + std::fmt::Debug>(
    ours: Result<(&str, T), ParseError>,
    theirs: IResult<&str, T>,
    source: &str,
) {
    match ours {
        Ok(found) => assert_eq!(theirs, Ok(found), "on {:?}", source),
        Err(ParseError::UnexpectedCharacter { offset }) => match theirs {
            Err(nom::Err::Error(error)) => {
                assert_eq!(error.input, &source[offset..], "on {:?}", source)
            }
            other => panic!("on {:?}: {:?}", source, other),
        },
        Err(ParseError::EmptyLoopBody { offset }) => match theirs {
            Err(nom::Err::Failure(error)) => {
                assert_eq!(error.input, &source[offset..], "on {:?}", source)
            }
            other => panic!("on {:?}: {:?}", source, other),
        },
        Err(ParseError::UnmatchedLoopOpen { offset }) => {
            assert_eq!(offset, source.len(), "on {:?}", source)
        }
    }
}

const SOURCES: [&str; 28] = [
    "",
    "+",
    "<>+-,.",
    "foo",
    "foo++",
    "foo[+]-",
    "[+]-",
    "[a+b]-",
    "input",
    "[]",
    "[ ]",
    "[",
    "+[-]",
    "+  hello [-] world",
    "foo+[-]f",
    "foo+ffff[asdf- hello world]",
    "+[>[-]<[+.]]-",
    "+[-[]]",
    "+]",
    "]",
    "+ x ]-[",
    "[[[+]]]",
    "[[+][-]]>",
    "\u{e9}+\u{4e16}[\u{1f600}-\u{e9}]\u{4e16}",
    ">++++++++[<+++++++++>-]<.>++++[<+++++++>-]<+.+++++++..+++.",
    "a[b[c+d]e]f",
    " [+]",
    ",[.,]",
];

#[test]
fn operation_agrees_with_the_combinators() {
    for source in SOURCES {
        same(operation(source), nom_operation(source), source);
    }
}

#[test]
fn element_agrees_with_the_combinators() {
    for source in SOURCES {
        same(ast_element(source), nom_element(source), source);
    }
}

#[test]
fn loop_agrees_with_the_combinators() {
    for source in SOURCES {
        same(ast_loop(source), nom_loop(source), source);
    }
}

#[test]
fn branch_agrees_with_the_combinators() {
    for source in SOURCES {
        same(ast_branch(source), nom_branch(source), source);
    }
}

#[test]
fn program_agrees_with_the_combinators() {
    for source in SOURCES {
        same(parse_bf(source), nom_program(source), source);
    }
}

#[test]
fn read_callback_widens_the_byte_or_gives_the_sentinel() {
    assert_eq!(input_word(Some(0)), 0);
    assert_eq!(input_word(Some(65)), 65);
    assert_eq!(input_word(Some(255)), 255);
    assert_eq!(input_word(None), 0xFF);
}

#[test]
fn write_callback_emits_the_low_eight_bits() {
    assert_eq!(output_byte(0), 0);
    assert_eq!(output_byte(72), 72);
    assert_eq!(output_byte(255), 255);
    assert_eq!(output_byte(256), 0);
    assert_eq!(output_byte(0x1234), 0x34);
    assert_eq!(output_byte(-1), 255);
    assert_eq!(output_byte(i32::MIN), 0);
    assert_eq!(output_byte(i32::MAX), 255);
    for word in [-1000, -257, -256, -255, -1, 0, 1, 255, 256, 1000] {
        assert_eq!(output_byte(word), word as u8);
    }
}
