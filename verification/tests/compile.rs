use bf_jit::compiler::codegen::{CodeGen, BF_ARRAY_SIZE};
use bf_jit::compiler::generators::{generate_get, generate_set};
use bf_jit::compiler::interpreter::Exit;
use bf_jit::compiler::ir::{BasicBlock, Function, Instruction, Kind, Terminator};
use bf_jit::parser::ast::{ASTBranch, ASTElement, Operation};
use bf_jit::parser::parse::parse_bf;

fn compile(source: &str) -> Function {
    let (rest, program) = parse_bf(source).unwrap();
    assert_eq!(rest, "");
    CodeGen::gen_bf(program)
}

fn open_block() -> CodeGen {
    let codegen = CodeGen::new();
    assert_eq!(codegen.blocks, vec![BasicBlock { instructions: vec![], terminator: None }]);
    assert_eq!(codegen.current, 0);
    codegen
}

#[test]
fn blocks_are_added_closed_and_entered_by_number() {
    let mut codegen = CodeGen::new();
    assert_eq!(codegen.emit(Instruction::CallRead), 0);
    assert_eq!(codegen.emit(Instruction::CallRead), 1);
    let next = codegen.append_basic_block();
    assert_eq!(next, 1);
    assert_eq!(codegen.current, 0);
    codegen.terminate(Terminator::Jump { target: next });
    codegen.position_at_end(next);
    assert_eq!(codegen.current, 1);
    assert_eq!(codegen.emit(Instruction::LoadCursor), 0);
    codegen.terminate(Terminator::Return);
    assert_eq!(
        codegen.blocks,
        vec![
            BasicBlock {
                instructions: vec![Instruction::CallRead, Instruction::CallRead],
                terminator: Some(Terminator::Jump { target: 1 }),
            },
            BasicBlock {
                instructions: vec![Instruction::LoadCursor],
                terminator: Some(Terminator::Return),
            },
        ]
    );
}

#[test]
fn tape_has_thirty_thousand_cells() {
    assert_eq!(BF_ARRAY_SIZE, 30000);
}

#[test]
fn the_empty_program_sets_the_cursor_and_returns() {
    let function = CodeGen::gen_bf(ASTBranch(vec![]));
    assert_eq!(
        function,
        Function {
            blocks: vec![BasicBlock {
                instructions: vec![
                    Instruction::Constant { word: 0 },
                    Instruction::StoreCursor { value: 0 },
                ],
                terminator: Some(Terminator::Return),
            }],
        }
    );
}

#[test]
fn get_loads_cursor_address_and_cell() {
    let mut codegen = open_block();
    codegen.emit(Instruction::CallRead);
    let value = generate_get(&mut codegen);
    assert_eq!(value, 3);
    assert_eq!(
        codegen.blocks[0].instructions,
        vec![
            Instruction::CallRead,
            Instruction::LoadCursor,
            Instruction::CellAddress { index: 1 },
            Instruction::LoadCell { address: 2 },
        ]
    );
}

#[test]
fn set_loads_cursor_and_address_and_stores() {
    let mut codegen = open_block();
    let word = codegen.emit(Instruction::Constant { word: 7 });
    generate_set(&mut codegen, word);
    assert_eq!(
        codegen.blocks[0].instructions,
        vec![
            Instruction::Constant { word: 7 },
            Instruction::LoadCursor,
            Instruction::CellAddress { index: 1 },
            Instruction::StoreCell { address: 2, value: 0 },
        ]
    );
    assert_eq!(codegen.blocks[0].terminator, None);
}

#[test]
fn each_operation_lowers_to_its_instructions() {
    let lowered = |operation: Operation| {
        let mut codegen = open_block();
        operation.generate(&mut codegen);
        assert_eq!(codegen.blocks.len(), 1);
        assert_eq!(codegen.current, 0);
        codegen.blocks.remove(0).instructions
    };
    assert_eq!(
        lowered(Operation::Read),
        vec![
            Instruction::CallRead,
            Instruction::LoadCursor,
            Instruction::CellAddress { index: 1 },
            Instruction::StoreCell { address: 2, value: 0 },
        ]
    );
    assert_eq!(
        lowered(Operation::Write),
        vec![
            Instruction::LoadCursor,
            Instruction::CellAddress { index: 0 },
            Instruction::LoadCell { address: 1 },
            Instruction::CallWrite { value: 2 },
        ]
    );
    assert_eq!(
        lowered(Operation::Increment),
        vec![
            Instruction::LoadCursor,
            Instruction::CellAddress { index: 0 },
            Instruction::LoadCell { address: 1 },
            Instruction::Constant { word: 1 },
            Instruction::Add { left: 2, right: 3 },
            Instruction::LoadCursor,
            Instruction::CellAddress { index: 5 },
            Instruction::StoreCell { address: 6, value: 4 },
        ]
    );
    assert_eq!(
        lowered(Operation::Decrement),
        vec![
            Instruction::LoadCursor,
            Instruction::CellAddress { index: 0 },
            Instruction::LoadCell { address: 1 },
            Instruction::Constant { word: 1 },
            Instruction::Subtract { left: 2, right: 3 },
            Instruction::LoadCursor,
            Instruction::CellAddress { index: 5 },
            Instruction::StoreCell { address: 6, value: 4 },
        ]
    );
    assert_eq!(
        lowered(Operation::PtrLeft),
        vec![
            Instruction::LoadCursor,
            Instruction::Constant { word: 1 },
            Instruction::Subtract { left: 0, right: 1 },
            Instruction::StoreCursor { value: 2 },
        ]
    );
    assert_eq!(
        lowered(Operation::PtrRight),
        vec![
            Instruction::LoadCursor,
            Instruction::Constant { word: 1 },
            Instruction::Add { left: 0, right: 1 },
            Instruction::StoreCursor { value: 2 },
        ]
    );
}

#[test]
fn a_loop_lowers_to_head_body_and_tail() {
    let function = compile(",[.]");
    assert_eq!(function.blocks.len(), 4);
    assert_eq!(function.blocks[0].terminator, Some(Terminator::Jump { target: 1 }));
    assert_eq!(
        function.blocks[1],
        BasicBlock {
            instructions: vec![
                Instruction::LoadCursor,
                Instruction::CellAddress { index: 0 },
                Instruction::LoadCell { address: 1 },
                Instruction::Constant { word: 0 },
                Instruction::Equal { left: 2, right: 3 },
            ],
            terminator: Some(Terminator::Branch { condition: 4, if_true: 3, if_false: 2 }),
        }
    );
    assert_eq!(
        function.blocks[2],
        BasicBlock {
            instructions: vec![
                Instruction::LoadCursor,
                Instruction::CellAddress { index: 0 },
                Instruction::LoadCell { address: 1 },
                Instruction::CallWrite { value: 2 },
            ],
            terminator: Some(Terminator::Jump { target: 1 }),
        }
    );
    assert_eq!(
        function.blocks[3],
        BasicBlock { instructions: vec![], terminator: Some(Terminator::Return) }
    );
}

#[test]
fn nested_loops_close_every_block() {
    let function = compile("+[>+[-]<-]");
    assert_eq!(function.blocks.len(), 7);
    assert!(function.blocks.iter().all(|block| block.terminator.is_some()));
    assert_eq!(function.blocks[2].terminator, Some(Terminator::Jump { target: 4 }));
    assert_eq!(
        function.blocks[4].terminator,
        Some(Terminator::Branch { condition: 4, if_true: 6, if_false: 5 })
    );
    assert_eq!(function.blocks[5].terminator, Some(Terminator::Jump { target: 4 }));
    assert_eq!(function.blocks[6].terminator, Some(Terminator::Jump { target: 1 }));
    assert_eq!(function.blocks[3].terminator, Some(Terminator::Return));
}

#[test]
fn increment_then_loop_of_decrement_runs_the_body_once() {
    let program = ASTBranch(vec![
        ASTElement::Operation(Operation::Increment),
        ASTElement::Loop(ASTBranch(vec![ASTElement::Operation(Operation::Decrement)])),
    ]);
    let function = CodeGen::gen_bf(program);
    let run = function.execute(vec![0; 8], &[], 100);
    assert_eq!(run.exit, Exit::Finished);
    assert_eq!(run.tape, vec![0; 8]);
    assert_eq!(run.cursor, 0);
    // Into the head, into the body, back to the head, out to the tail: the
    // four branches of one turn, neither fewer nor more.
    assert_eq!(function.execute(vec![0; 8], &[], 4).exit, Exit::Finished);
    assert_eq!(function.execute(vec![0; 8], &[], 3).exit, Exit::OutOfFuel);
}

#[test]
fn a_loop_on_a_zero_cell_is_skipped() {
    let function = compile("[+]");
    let run = function.execute(vec![0; 4], &[], 2);
    assert_eq!(run.exit, Exit::Finished);
    assert_eq!(run.tape, vec![0; 4]);
}

#[test]
fn read_then_write_echoes_one_input() {
    let function = compile(",.");
    for value in [0u8, 1, 65, 200, 255] {
        let run = function.execute(vec![0; 4], &[value, 9, 9], 0);
        assert_eq!(run.exit, Exit::Finished);
        assert_eq!(run.output, vec![value as i32]);
        assert_eq!(run.consumed, 1);
        assert_eq!(run.tape, vec![value as i32, 0, 0, 0]);
    }
}

#[test]
fn read_at_the_end_of_input_gives_the_sentinel() {
    let function = compile(",.,.");
    let run = function.execute(vec![0; 4], &[7], 0);
    assert_eq!(run.exit, Exit::Finished);
    assert_eq!(run.output, vec![7, 0xFF]);
    assert_eq!(run.consumed, 1);
}

#[test]
fn moving_right_and_back_leaves_cursor_and_cells() {
    for n in [0usize, 1, 2, 7] {
        let source = format!("{}{}", ">".repeat(n), "<".repeat(n));
        let function = compile(&source);
        let tape = vec![5, 4, 3, 2, 1, 0, -1, -2];
        let run = function.execute(tape.clone(), &[], 0);
        assert_eq!(run.exit, Exit::Finished);
        assert_eq!(run.cursor, 0);
        assert_eq!(run.tape, tape);
        assert_eq!(run.output, Vec::<i32>::new());
    }
}

#[test]
fn two_increments_and_a_write_record_two() {
    let function = compile("++.");
    let run = function.execute(vec![0; BF_ARRAY_SIZE], &[], 0);
    assert_eq!(run.exit, Exit::Finished);
    assert_eq!(run.output, vec![2]);
    assert_eq!(run.tape[0], 2);
}

#[test]
fn cells_wrap_at_the_width_of_a_word() {
    let function = compile("-.");
    let run = function.execute(vec![i32::MIN], &[], 0);
    assert_eq!(run.output, vec![i32::MAX]);
    let function = compile("+.");
    let run = function.execute(vec![i32::MAX], &[], 0);
    assert_eq!(run.output, vec![i32::MIN]);
    let function = compile("-.");
    let run = function.execute(vec![0], &[], 0);
    assert_eq!(run.output, vec![-1]);
}

#[test]
fn a_cell_outside_the_tape_is_a_fault() {
    assert_eq!(compile("<+").execute(vec![0; 4], &[], 10).exit, Exit::Fault);
    assert_eq!(compile(">>>>.").execute(vec![0; 4], &[], 10).exit, Exit::Fault);
    assert_eq!(compile(">>>.").execute(vec![0; 4], &[], 10).exit, Exit::Finished);
    assert_eq!(compile("+").execute(vec![], &[], 10).exit, Exit::Fault);
    // Moving alone touches no cell.
    assert_eq!(compile("<<>>").execute(vec![0; 4], &[], 10).exit, Exit::Finished);
}

#[test]
fn a_loop_that_does_not_end_runs_out_of_fuel() {
    let function = compile("+[>+<]");
    assert_eq!(function.execute(vec![0; 4], &[], 1000).exit, Exit::OutOfFuel);
}

#[test]
fn a_malformed_function_is_a_fault() {
    let no_blocks = Function { blocks: vec![] };
    assert_eq!(no_blocks.execute(vec![0], &[], 1).exit, Exit::Fault);
    let open = Function { blocks: vec![BasicBlock { instructions: vec![], terminator: None }] };
    assert_eq!(open.execute(vec![0], &[], 1).exit, Exit::Fault);
    let nowhere = Function {
        blocks: vec![BasicBlock {
            instructions: vec![],
            terminator: Some(Terminator::Jump { target: 3 }),
        }],
    };
    assert_eq!(nowhere.execute(vec![0], &[], 1).exit, Exit::Fault);
    let untyped = Function {
        blocks: vec![BasicBlock {
            instructions: vec![Instruction::LoadCursor, Instruction::LoadCell { address: 0 }],
            terminator: Some(Terminator::Return),
        }],
    };
    assert_eq!(untyped.execute(vec![0], &[], 1).exit, Exit::Fault);
    let no_flag = Function {
        blocks: vec![BasicBlock {
            instructions: vec![Instruction::LoadCursor],
            terminator: Some(Terminator::Branch { condition: 0, if_true: 0, if_false: 0 }),
        }],
    };
    assert_eq!(no_flag.execute(vec![0], &[], 1).exit, Exit::Fault);
}

#[test]
fn hello_world_runs() {
    let source = ">++++++++[<+++++++++>-]<.>++++[<+++++++>-]<+.+++++++..+++.>>++++++[<+++++++>-]<++.------------.>++++++[<+++++++++>-]<+.<.+++.------.--------.>>>++++[<++++++++>-]<+.";
    let function = compile(source);
    let run = function.execute(vec![0; BF_ARRAY_SIZE], &[], 10_000);
    assert_eq!(run.exit, Exit::Finished);
    let text: Vec<u8> = run.output.iter().map(|word| *word as u8).collect();
    assert_eq!(text, b"Hello, World!".to_vec());
}

#[test]
fn input_is_copied_until_a_zero() {
    let function = compile(",[.,]");
    let run = function.execute(vec![0; 4], &[72, 105, 0, 33], 100);
    assert_eq!(run.exit, Exit::Finished);
    assert_eq!(run.output, vec![72, 105]);
    assert_eq!(run.consumed, 3);
}

#[test]
fn the_driver_runs_on_a_fresh_tape() {
    let (_, program) = parse_bf("++.").unwrap();
    let run = bf_jit::compiler::driver::compile(program, &[], 0);
    assert_eq!(run.exit, Exit::Finished);
    assert_eq!(run.output, vec![2]);
    assert_eq!(run.tape.len(), BF_ARRAY_SIZE);
    assert_eq!(run.tape[0], 2);
    assert!(run.tape[1..].iter().all(|word| *word == 0));
    assert_eq!(run.cursor, 0);
    assert_eq!(run.consumed, 0);
}

#[test]
fn the_driver_hands_the_input_to_the_program() {
    let (_, program) = parse_bf(",[.,]").unwrap();
    let run = bf_jit::compiler::driver::compile(program, b"ok\0left", 100);
    assert_eq!(run.exit, Exit::Finished);
    assert_eq!(run.output, vec![111, 107]);
    assert_eq!(run.consumed, 3);
}

#[test]
fn the_driver_stops_when_the_fuel_is_used_up() {
    let (_, program) = parse_bf("+[]").unwrap_or(("", ASTBranch(vec![])));
    assert_eq!(program, ASTBranch(vec![]));
    let (_, forever) = parse_bf("+[+-]").unwrap();
    assert_eq!(bf_jit::compiler::driver::compile(forever, &[], 50).exit, Exit::OutOfFuel);
    let (_, outside) = parse_bf("<.").unwrap();
    assert_eq!(bf_jit::compiler::driver::compile(outside, &[], 50).exit, Exit::Fault);
    let (_, edge) = parse_bf("+[>+]").unwrap();
    assert_eq!(bf_jit::compiler::driver::compile(edge, &[], 1_000_000).exit, Exit::Fault);
}

#[test]
fn instructions_say_what_kind_of_result_they_have() {
    assert_eq!(Instruction::LoadCursor.result_kind(), Kind::Word);
    assert_eq!(Instruction::StoreCursor { value: 0 }.result_kind(), Kind::Nothing);
    assert_eq!(Instruction::CellAddress { index: 0 }.result_kind(), Kind::Address);
    assert_eq!(Instruction::LoadCell { address: 0 }.result_kind(), Kind::Word);
    assert_eq!(Instruction::StoreCell { address: 0, value: 1 }.result_kind(), Kind::Nothing);
    assert_eq!(Instruction::Constant { word: 3 }.result_kind(), Kind::Word);
    assert_eq!(Instruction::Add { left: 0, right: 1 }.result_kind(), Kind::Word);
    assert_eq!(Instruction::Subtract { left: 0, right: 1 }.result_kind(), Kind::Word);
    assert_eq!(Instruction::Equal { left: 0, right: 1 }.result_kind(), Kind::Flag);
    assert_eq!(Instruction::CallRead.result_kind(), Kind::Word);
    assert_eq!(Instruction::CallWrite { value: 0 }.result_kind(), Kind::Nothing);
}

#[test]
fn compiled_code_names_results_that_are_there() {
    let function = compile("+[>,[-<+>]<.]");
    for block in &function.blocks {
        for (position, instruction) in block.instructions.iter().enumerate() {
            let operands = match *instruction {
                Instruction::StoreCursor { value } => vec![value],
                Instruction::CellAddress { index } => vec![index],
                Instruction::LoadCell { address } => vec![address],
                Instruction::StoreCell { address, value } => vec![address, value],
                Instruction::Add { left, right } => vec![left, right],
                Instruction::Subtract { left, right } => vec![left, right],
                Instruction::Equal { left, right } => vec![left, right],
                Instruction::CallWrite { value } => vec![value],
                _ => vec![],
            };
            assert!(operands.iter().all(|operand| *operand < position));
        }
        match block.terminator {
            Some(Terminator::Jump { target }) => assert!(target < function.blocks.len()),
            Some(Terminator::Branch { condition, if_true, if_false }) => {
                assert!(condition < block.instructions.len());
                assert!(if_true < function.blocks.len());
                assert!(if_false < function.blocks.len());
            }
            Some(Terminator::Return) => {}
            None => panic!("open block"),
        }
    }
}
