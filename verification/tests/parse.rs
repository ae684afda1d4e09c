use bf_jit::parser::ast::{ASTBranch, ASTElement, Operation};
use bf_jit::parser::parse::{
    ast_branch, ast_element, ast_loop, operation, parse_bf, parse_bytes, ParseError,
};

fn op(operation: Operation) -> ASTElement {
    ASTElement::Operation(operation)
}

fn looped(body: Vec<ASTElement>) -> ASTElement {
    ASTElement::Loop(ASTBranch(body))
}

#[test]
fn parse_operators() {
    assert_eq!(operation("<<"), Ok(("<", Operation::PtrLeft)));
    assert_eq!(operation("><"), Ok(("<", Operation::PtrRight)));
    assert_eq!(operation("+<"), Ok(("<", Operation::Increment)));
    assert_eq!(operation("-<"), Ok(("<", Operation::Decrement)));
    assert_eq!(operation(",<"), Ok(("<", Operation::Read)));
    assert_eq!(operation(".<"), Ok(("<", Operation::Write)));
    assert_eq!(operation("a"), Err(ParseError::UnexpectedCharacter { offset: 0 }));
}

#[test]
fn parse_loop() {
    assert_eq!(ast_loop("[+]-"), Ok(("-", ASTBranch(vec![ASTElement::Operation(Operation::Increment)]))));
    // Comments don't matter
    assert_eq!(ast_loop("[a+b]-"), Ok(("-", ASTBranch(vec![ASTElement::Operation(Operation::Increment)]))));
    ast_loop("input").expect_err("Should have produced an error");
    ast_loop("[]").expect_err("Empty loops are not allowed");
    ast_loop("[+++").expect_err("Unmatched loops are not allowed");
}

#[test]
fn parse_element() {
    assert_eq!(ast_element("foo++"), Ok(("+", ASTElement::Operation(Operation::Increment))));
    assert_eq!(ast_element("foo[+]-"), Ok(("-", ASTElement::Loop(ASTBranch(vec![ASTElement::Operation(Operation::Increment)])))));
    ast_element("foo").expect_err("no bf happening here...");
}

#[test]
fn parse_ast() {
    assert_eq!(ast_branch("foo+[-]f"), Ok((
        "f",
        ASTBranch(vec![
            ASTElement::Operation(Operation::Increment),
            ASTElement::Loop(ASTBranch(vec![
                ASTElement::Operation(Operation::Decrement)
            ]))
        ]))
    ));

    // Program and branch should be equal for non-empty programs
    assert_eq!(ast_branch("foo+[-]f"), parse_bf("foo+[-]f"));

    // Comments don't matter
    assert_eq!(parse_bf("foo+ffff[asdf- hello world]"), parse_bf("+[-]"));

    // Parse empty program
    assert_eq!(parse_bf("foo"), Ok(("foo", ASTBranch(vec![]))));
}

#[test]
fn operation_reads_no_comment_and_needs_a_character() {
    assert_eq!(operation(""), Err(ParseError::UnexpectedCharacter { offset: 0 }));
    assert_eq!(operation(" +"), Err(ParseError::UnexpectedCharacter { offset: 0 }));
    assert_eq!(operation("[+]"), Err(ParseError::UnexpectedCharacter { offset: 0 }));
    assert_eq!(operation("+"), Ok(("", Operation::Increment)));
}

#[test]
fn element_errors_carry_the_offset_of_what_was_found() {
    assert_eq!(ast_element("foo"), Err(ParseError::UnexpectedCharacter { offset: 3 }));
    assert_eq!(ast_element("fo]+"), Err(ParseError::UnexpectedCharacter { offset: 2 }));
    assert_eq!(ast_element("ab[ ]"), Err(ParseError::EmptyLoopBody { offset: 4 }));
    assert_eq!(ast_element("ab[+ "), Err(ParseError::UnmatchedLoopOpen { offset: 5 }));
}

#[test]
fn loop_errors() {
    assert_eq!(ast_loop("input"), Err(ParseError::UnexpectedCharacter { offset: 0 }));
    assert_eq!(ast_loop(" [+]"), Err(ParseError::UnexpectedCharacter { offset: 0 }));
    assert_eq!(ast_loop(""), Err(ParseError::UnexpectedCharacter { offset: 0 }));
    assert_eq!(ast_loop("[]"), Err(ParseError::EmptyLoopBody { offset: 1 }));
    assert_eq!(ast_loop("["), Err(ParseError::EmptyLoopBody { offset: 1 }));
    assert_eq!(ast_loop("[ x"), Err(ParseError::EmptyLoopBody { offset: 3 }));
    assert_eq!(ast_loop("[+++"), Err(ParseError::UnmatchedLoopOpen { offset: 4 }));
    assert_eq!(ast_loop("[+[-]"), Err(ParseError::UnmatchedLoopOpen { offset: 5 }));
    assert_eq!(ast_loop("[+[]]"), Err(ParseError::EmptyLoopBody { offset: 3 }));
}

#[test]
fn branch_needs_an_element() {
    assert_eq!(ast_branch(""), Err(ParseError::EmptyLoopBody { offset: 0 }));
    assert_eq!(ast_branch("foo"), Err(ParseError::EmptyLoopBody { offset: 3 }));
    assert_eq!(ast_branch("a]"), Err(ParseError::EmptyLoopBody { offset: 1 }));
    assert_eq!(ast_branch("+"), Ok(("", ASTBranch(vec![op(Operation::Increment)]))));
}

#[test]
fn error_offset_is_read_back() {
    assert_eq!(ParseError::UnexpectedCharacter { offset: 7 }.offset(), 7);
    assert_eq!(ParseError::UnmatchedLoopOpen { offset: 8 }.offset(), 8);
    assert_eq!(ParseError::EmptyLoopBody { offset: 9 }.offset(), 9);
}

#[test]
fn empty_program() {
    assert_eq!(parse_bf(""), Ok(("", ASTBranch(vec![]))));
    assert_eq!(parse_bf("hello world\n"), Ok(("hello world\n", ASTBranch(vec![]))));
    assert_eq!(parse_bf("\u{e9}\u{4e16}\u{1f600}"), Ok(("\u{e9}\u{4e16}\u{1f600}", ASTBranch(vec![]))));
}

#[test]
fn comments_between_tokens_do_not_change_the_tree() {
    let plain = parse_bf("+[-]").unwrap();
    let commented = parse_bf("+  hello [-] world").unwrap();
    assert_eq!(plain.1, commented.1);
    assert_eq!(plain.0, "");
    assert_eq!(commented.0, " world");
    assert_eq!(
        plain.1,
        ASTBranch(vec![op(Operation::Increment), looped(vec![op(Operation::Decrement)])])
    );
}

#[test]
fn comments_may_hold_any_character() {
    let (rest, program) = parse_bf("\u{e9}+\u{4e16}[\u{1f600}-\u{e9}]\u{4e16}").unwrap();
    assert_eq!(rest, "\u{4e16}");
    assert_eq!(
        program,
        ASTBranch(vec![op(Operation::Increment), looped(vec![op(Operation::Decrement)])])
    );
}

#[test]
fn parsing_twice_gives_equal_trees() {
    let source = ">++++++++[<+++++++++>-]<.>++++[<+++++++>-]<+.";
    assert_eq!(parse_bf(source), parse_bf(source));
    assert!(parse_bf(source).is_ok());
}

#[test]
fn all_six_operations_in_order() {
    let (rest, program) = parse_bf("<>+-,.").unwrap();
    assert_eq!(rest, "");
    assert_eq!(
        program,
        ASTBranch(vec![
            op(Operation::PtrLeft),
            op(Operation::PtrRight),
            op(Operation::Increment),
            op(Operation::Decrement),
            op(Operation::Read),
            op(Operation::Write),
        ])
    );
}

#[test]
fn nested_loops() {
    let (rest, program) = parse_bf("+[>[-]<[+.]]-").unwrap();
    assert_eq!(rest, "");
    assert_eq!(
        program,
        ASTBranch(vec![
            op(Operation::Increment),
            looped(vec![
                op(Operation::PtrRight),
                looped(vec![op(Operation::Decrement)]),
                op(Operation::PtrLeft),
                looped(vec![op(Operation::Increment), op(Operation::Write)]),
            ]),
            op(Operation::Decrement),
        ])
    );
}

#[test]
fn a_loop_that_is_not_closed_is_an_error_of_the_program() {
    assert_eq!(parse_bf("[+++"), Err(ParseError::UnmatchedLoopOpen { offset: 4 }));
    assert_eq!(parse_bf("+[-"), Err(ParseError::UnmatchedLoopOpen { offset: 3 }));
    assert_eq!(parse_bf("+[-[+]"), Err(ParseError::UnmatchedLoopOpen { offset: 6 }));
    assert_eq!(parse_bf("+[- comment"), Err(ParseError::UnmatchedLoopOpen { offset: 11 }));
}

#[test]
fn an_empty_loop_is_an_error_of_the_program() {
    assert_eq!(parse_bf("[]"), Err(ParseError::EmptyLoopBody { offset: 1 }));
    assert_eq!(parse_bf("+[ ]"), Err(ParseError::EmptyLoopBody { offset: 3 }));
    assert_eq!(parse_bf("+[-[]]"), Err(ParseError::EmptyLoopBody { offset: 4 }));
    assert_eq!(parse_bf("+["), Err(ParseError::EmptyLoopBody { offset: 2 }));
}

#[test]
fn text_behind_the_last_element_is_handed_back() {
    assert_eq!(parse_bf("+ tail"), Ok((" tail", ASTBranch(vec![op(Operation::Increment)]))));
    assert_eq!(parse_bf("+]"), Ok(("]", ASTBranch(vec![op(Operation::Increment)]))));
    assert_eq!(parse_bf("+ x ]-["), Ok((" x ]-[", ASTBranch(vec![op(Operation::Increment)]))));
    assert_eq!(parse_bf("]"), Ok(("]", ASTBranch(vec![]))));
}

#[test]
fn trees_are_cloned_deeply() {
    let (_, program) = parse_bf("+[>[-]<]").unwrap();
    let copy = program.clone();
    assert_eq!(copy, program);
    let element = looped(vec![op(Operation::Read)]);
    assert_eq!(element.clone(), element);
}

fn written(program: &ASTBranch, text: &mut String) {
    for element in &program.0 {
        match element {
            ASTElement::Operation(Operation::PtrLeft) => text.push('<'),
            ASTElement::Operation(Operation::PtrRight) => text.push('>'),
            ASTElement::Operation(Operation::Increment) => text.push('+'),
            ASTElement::Operation(Operation::Decrement) => text.push('-'),
            ASTElement::Operation(Operation::Read) => text.push(','),
            ASTElement::Operation(Operation::Write) => text.push('.'),
            ASTElement::Loop(body) => {
                assert!(!body.0.is_empty());
                text.push('[');
                written(body, text);
                text.push(']');
            }
        }
    }
}

#[test]
fn what_was_read_is_balanced_and_spells_the_tree() {
    let sources = [
        "",
        "+[-]",
        "a+b[c-d[e>f]g]h",
        "+]",
        "+]-[",
        "[[[+]]]>>",
        ">++++++++[<+++++++++>-]<.>++++[<+++++++>-]<+.",
        "[+[-]",
        "[]",
        "+[",
    ];
    for source in sources {
        if let Ok((rest, program)) = parse_bf(source) {
            let read = &source[..source.len() - rest.len()];
            let tokens: String = read.chars().filter(|c| ",.<>+-[]".contains(*c)).collect();
            let mut spelled = String::new();
            written(&program, &mut spelled);
            assert_eq!(spelled, tokens);
            let mut open = 0i32;
            for token in tokens.chars() {
                match token {
                    '[' => open += 1,
                    ']' => open -= 1,
                    _ => {}
                }
                assert!(open >= 0);
            }
            assert_eq!(open, 0);
            assert!(!tokens.contains("[]"));
            let next = rest.chars().find(|c| ",.<>+-[]".contains(*c));
            assert!(next.is_none() || next == Some(']'));
        }
    }
}

#[test]
fn bytes_are_parsed_like_text() {
    assert_eq!(
        parse_bytes(b"a+[-]b"),
        Ok((ASTBranch(vec![op(Operation::Increment), looped(vec![op(Operation::Decrement)])]), 5))
    );
    assert_eq!(parse_bytes(b""), Ok((ASTBranch(vec![]), 0)));
    assert_eq!(parse_bytes(b"xyz"), Ok((ASTBranch(vec![]), 0)));
    assert_eq!(parse_bytes(b"+]"), Ok((ASTBranch(vec![op(Operation::Increment)]), 1)));
    assert_eq!(parse_bytes(b"[]"), Err(ParseError::EmptyLoopBody { offset: 1 }));
    assert_eq!(parse_bytes(b"[+"), Err(ParseError::UnmatchedLoopOpen { offset: 2 }));
    // Bytes that are no text are comments like any other.
    assert_eq!(
        parse_bytes(&[0xff, b'+', 0x80, 0x00]),
        Ok((ASTBranch(vec![op(Operation::Increment)]), 2))
    );
}

#[test]
fn a_tree_written_out_is_read_back() {
    let trees = [
        ASTBranch(vec![]),
        ASTBranch(vec![op(Operation::Read), op(Operation::Write)]),
        ASTBranch(vec![
            op(Operation::Increment),
            looped(vec![
                op(Operation::PtrRight),
                looped(vec![looped(vec![op(Operation::Decrement)])]),
                op(Operation::PtrLeft),
            ]),
            looped(vec![op(Operation::Write)]),
        ]),
    ];
    for tree in trees {
        let mut text = String::new();
        written(&tree, &mut text);
        assert_eq!(parse_bf(&text), Ok(("", tree.clone())));
        let spaced: String = text.chars().flat_map(|c| [' ', c, '\n']).collect();
        let (rest, again) = parse_bf(&spaced).unwrap();
        assert_eq!(again, tree);
        assert!(rest.chars().all(|c| !",.<>+-[]".contains(c)));
    }
}
