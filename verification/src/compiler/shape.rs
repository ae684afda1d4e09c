//! The shape of compiled code: every instruction takes results that are
//! there, every branch leads to a block, and every block is closed.

use crate::compiler::codegen::{compiled, entered, State};
use crate::compiler::generators::{
    generated, generated_element, generated_element_keeps, generated_keeps, kept,
    loop_test_code, operation_code,
};
use crate::compiler::ir::{
    block_is_sound, fits, operands_are_results, well_formed, Instruction, Terminator,
};
use crate::parser::ast::{Element, Operation};
use vstd::prelude::*;

verus! {

/// Every block made so far is sound.
pub open spec fn sound(state: State) -> bool {
    forall|b: int| 0 <= b < state.blocks.len() ==> #[trigger] block_is_sound(state.blocks, b)
}

/// A block that is open after lowering is the current one, or one that was
/// open before and was not the current one.
pub open spec fn opened(before: State, after: State) -> bool {
    forall|b: int|
        0 <= b < after.blocks.len() && (#[trigger] after.blocks[b]).terminator is None ==> {
            ||| b == after.current
            ||| (b < before.blocks.len() && b != before.current
                && before.blocks[b].terminator is None)
        }
}

/// Instructions that take results of earlier ones keep a block sound.
proof fn append_is_sound(state: State, code: Seq<Instruction>)
    requires
        state.well_formed(),
        sound(state),
        forall|i: int|
            0 <= i < code.len() ==> #[trigger] operands_are_results(
                state.blocks[state.current].instructions + code,
                state.position() + i,
            ),
    ensures
        sound(state.append(code)),
{
    let after = state.append(code);
    let before = state.blocks[state.current].instructions;
    assert forall|b: int| 0 <= b < after.blocks.len() implies #[trigger] block_is_sound(
        after.blocks,
        b,
    ) by {
        assert(block_is_sound(state.blocks, b));
        if b == state.current {
            assert forall|k: int| 0 <= k < (before + code).len() implies #[trigger] operands_are_results(
                before + code,
                k,
            ) by {
                if k < before.len() {
                    assert(operands_are_results(before, k));
                    assert((before + code)[k] == before[k]);
                } else {
                    assert(operands_are_results(before + code, state.position() + (k - before.len())));
                }
            }
        } else {
            assert(after.blocks[b] == state.blocks[b]);
        }
    }
}

/// A new block keeps the blocks sound.
proof fn append_block_is_sound(state: State)
    requires
        sound(state),
    ensures
        sound(state.append_block()),
{
    let after = state.append_block();
    assert forall|b: int| 0 <= b < after.blocks.len() implies #[trigger] block_is_sound(
        after.blocks,
        b,
    ) by {
        if b < state.blocks.len() {
            assert(block_is_sound(state.blocks, b));
            assert(after.blocks[b] == state.blocks[b]);
        }
    }
}

/// A jump to a block that is there keeps the blocks sound.
proof fn jump_is_sound(state: State, target: int)
    requires
        state.well_formed(),
        sound(state),
        0 <= target < state.blocks.len() <= usize::MAX,
    ensures
        sound(state.terminate(Terminator::Jump { target: target as usize })),
{
    let after = state.terminate(Terminator::Jump { target: target as usize });
    assert forall|b: int| 0 <= b < after.blocks.len() implies #[trigger] block_is_sound(
        after.blocks,
        b,
    ) by {
        assert(block_is_sound(state.blocks, b));
        if b != state.current {
            assert(after.blocks[b] == state.blocks[b]);
        }
    }
}

/// The instructions of an operation take results of earlier ones.
proof fn operation_code_is_sound(op: Operation, before: Seq<Instruction>)
    requires
        before.len() + operation_code(op, before.len() as int).len() <= usize::MAX,
    ensures
        forall|i: int|
            0 <= i < operation_code(op, before.len() as int).len() ==> #[trigger] operands_are_results(
                before + operation_code(op, before.len() as int),
                before.len() + i,
            ),
{
    let at = before.len() as int;
    let code = operation_code(op, at);
    let block = before + code;
    assert forall|i: int| 0 <= i < code.len() implies #[trigger] operands_are_results(
        block,
        at + i,
    ) by {
        assert(block[at + i] == code[i]);
        assert(forall|j: int| 0 <= j < code.len() ==> block[at + j] == code[j]);
        match op {
            Operation::Read => {
                assert(code.len() == 4);
                assert(block[at] == code[0] && block[at + 1] == code[1] && block[at + 2]
                    == code[2]);
            },
            Operation::Write => {
                assert(code.len() == 4);
                assert(block[at] == code[0] && block[at + 1] == code[1] && block[at + 2]
                    == code[2]);
            },
            Operation::Increment => {
                assert(code.len() == 8);
                assert(block[at] == code[0] && block[at + 1] == code[1] && block[at + 2]
                    == code[2] && block[at + 3] == code[3]);
                assert(block[at + 4] == code[4] && block[at + 5] == code[5] && block[at + 6]
                    == code[6]);
            },
            Operation::Decrement => {
                assert(code.len() == 8);
                assert(block[at] == code[0] && block[at + 1] == code[1] && block[at + 2]
                    == code[2] && block[at + 3] == code[3]);
                assert(block[at + 4] == code[4] && block[at + 5] == code[5] && block[at + 6]
                    == code[6]);
            },
            Operation::PtrLeft => {
                assert(code.len() == 4);
                assert(block[at] == code[0] && block[at + 1] == code[1] && block[at + 2]
                    == code[2]);
            },
            Operation::PtrRight => {
                assert(code.len() == 4);
                assert(block[at] == code[0] && block[at + 1] == code[1] && block[at + 2]
                    == code[2]);
            },
        }
    }
}

/// Code that fits, fitted before.
proof fn fitted_earlier(before: State, after: State)
    requires
        before.well_formed(),
        kept(before, after),
        fits(after.blocks),
    ensures
        fits(before.blocks),
{
    assert forall|b: int| 0 <= b < before.blocks.len() implies (#[trigger] before.blocks[b]).instructions.len()
        <= usize::MAX by {
        assert(after.blocks[b].instructions.len() <= usize::MAX);
    }
}

/// Lowering an element keeps the blocks sound, and leaves open no block but
/// the current one and those that were open before.
pub proof fn generated_element_is_sound(element: Element, state: State)
    requires
        state.well_formed(),
        sound(state),
        fits(generated_element(element, state).blocks),
    ensures
        sound(generated_element(element, state)),
        opened(state, generated_element(element, state)),
    decreases element,
{
    let end = generated_element(element, state);
    match element {
        Element::Operation(op) => {
            let before = state.blocks[state.current].instructions;
            assert(end.blocks[state.current].instructions.len() <= usize::MAX);
            operation_code_is_sound(op, before);
            append_is_sound(state, operation_code(op, state.position()));
        },
        Element::Loop(body) => {
            let head = state.blocks.len() as int;
            let jump = Terminator::Jump { target: head as usize };
            let branch = Terminator::Branch {
                condition: 4,
                if_true: (head + 2) as usize,
                if_false: (head + 1) as usize,
            };
            let added = state.append_block().append_block().append_block();
            let entered = added.terminate(jump);
            let heading = entered.position_at_end(head);
            let testing = heading.append(loop_test_code());
            let tested = testing.terminate(branch);
            let inside = tested.position_at_end(head + 1);
            let filled = generated(body, inside);
            generated_keeps(body, inside);
            assert(head + 3 <= usize::MAX);
            append_block_is_sound(state);
            append_block_is_sound(state.append_block());
            append_block_is_sound(state.append_block().append_block());
            jump_is_sound(added, head);
            assert(sound(heading));
            let test = loop_test_code();
            assert(heading.blocks[head].instructions + test =~= test);
            assert(test.len() == 5);
            assert forall|i: int| 0 <= i < test.len() implies #[trigger] operands_are_results(
                heading.blocks[head].instructions + test,
                heading.position() + i,
            ) by {
                assert(test[0] == Instruction::LoadCursor);
                assert(test[1] == (Instruction::CellAddress { index: 0 }));
                assert(test[2] == (Instruction::LoadCell { address: 1 }));
                assert(test[3] == (Instruction::Constant { word: 0 }));
                assert(test[4] == (Instruction::Equal { left: 2, right: 3 }));
            }
            append_is_sound(heading, test);
            assert(sound(tested)) by {
                assert(testing.blocks[head].instructions == test);
                assert(test[4] == (Instruction::Equal { left: 2, right: 3 }));
                assert forall|b: int| 0 <= b < tested.blocks.len() implies #[trigger] block_is_sound(
                    tested.blocks,
                    b,
                ) by {
                    assert(block_is_sound(testing.blocks, b));
                    if b != head {
                        assert(tested.blocks[b] == testing.blocks[b]);
                    }
                }
            }
            assert(sound(inside));
            assert(fits(filled.blocks)) by {
                assert forall|b: int| 0 <= b < filled.blocks.len() implies (#[trigger] filled.blocks[b]).instructions.len()
                    <= usize::MAX by {
                    assert(end.blocks[b].instructions == filled.blocks[b].instructions);
                }
            }
            generated_is_sound(body, inside);
            jump_is_sound(filled, head);
            assert(sound(end));
            assert forall|b: int|
                0 <= b < end.blocks.len() && (#[trigger] end.blocks[b]).terminator is None implies {
                ||| b == end.current
                ||| (b < state.blocks.len() && b != state.current
                    && state.blocks[b].terminator is None)
            } by {
                assert(filled.blocks[b].terminator is None);
                if b < inside.blocks.len() && b != inside.current {
                    assert(inside.blocks[b].terminator is None);
                }
            }
        },
    }
}

/// Lowering a block keeps the blocks sound, and leaves open no block but the
/// current one and those that were open before.
pub proof fn generated_is_sound(block: Seq<Element>, state: State)
    requires
        state.well_formed(),
        sound(state),
        fits(generated(block, state).blocks),
    ensures
        sound(generated(block, state)),
        opened(state, generated(block, state)),
    decreases block,
{
    if block.len() > 0 {
        let first = generated_element(block[0], state);
        let end = generated(block, state);
        generated_element_keeps(block[0], state);
        generated_keeps(block.skip(1), first);
        fitted_earlier(first, end);
        generated_element_is_sound(block[0], state);
        generated_is_sound(block.skip(1), first);
        assert forall|b: int|
            0 <= b < end.blocks.len() && (#[trigger] end.blocks[b]).terminator is None implies {
            ||| b == end.current
            ||| (b < state.blocks.len() && b != state.current
                && state.blocks[b].terminator is None)
        } by {
            if b != end.current {
                assert(first.blocks[b].terminator is None);
            }
        }
    }
}

/// The generator has a lowering for every program, and what it makes is a
/// function that can be run: every instruction takes results of earlier
/// instructions of its block, of the kinds that it needs; every branch leads
/// to a block of the function; and every block is closed.
pub proof fn compiled_code_is_well_formed(program: Seq<Element>)
    requires
        fits(compiled(program)),
    ensures
        well_formed(compiled(program)),
{
    let start = entered();
    let end = generated(program, start);
    let code = compiled(program);
    generated_keeps(program, start);
    assert(fits(end.blocks)) by {
        assert forall|b: int| 0 <= b < end.blocks.len() implies (#[trigger] end.blocks[b]).instructions.len()
            <= usize::MAX by {
            assert(code[b].instructions == end.blocks[b].instructions);
        }
    }
    assert(sound(start)) by {
        let block = start.blocks[0].instructions;
        assert(block[0] == (Instruction::Constant { word: 0 }));
        assert(block[1] == (Instruction::StoreCursor { value: 0 }));
        assert(operands_are_results(block, 0));
        assert(operands_are_results(block, 1));
        assert(block_is_sound(start.blocks, 0));
    }
    generated_is_sound(program, start);
    assert forall|b: int| 0 <= b < code.len() implies #[trigger] block_is_sound(code, b) by {
        assert(block_is_sound(end.blocks, b));
        if b != end.current {
            assert(code[b] == end.blocks[b]);
        }
    }
    assert forall|b: int| 0 <= b < code.len() implies (#[trigger] code[b]).terminator is Some by {
        if b != end.current {
            assert(code[b] == end.blocks[b]);
        }
    }
}

} // verus!
