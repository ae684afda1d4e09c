//! The lowering of each part of the syntax tree to instructions and blocks.

use crate::compiler::codegen::{CodeGen, State};
use crate::compiler::ir::{Instruction, Terminator};
use crate::parser::ast::{ASTBranch, ASTElement, Element, Operation};
use vstd::prelude::*;

verus! {

/// The instructions that read the current cell, the first of them at
/// `position`: the cursor, the cell's address, the cell's word.
pub open spec fn get_code(position: int) -> Seq<Instruction> {
    seq![
        Instruction::LoadCursor,
        Instruction::CellAddress { index: position as usize },
        Instruction::LoadCell { address: (position + 1) as usize },
    ]
}

/// The instructions that set the current cell to the result at `value`, the
/// first of them at `position`: the cursor, the cell's address, the store.
pub open spec fn set_code(position: int, value: int) -> Seq<Instruction> {
    seq![
        Instruction::LoadCursor,
        Instruction::CellAddress { index: position as usize },
        Instruction::StoreCell { address: (position + 1) as usize, value: value as usize },
    ]
}

/// The instructions of one operation, the first of them at `position`.
pub open spec fn operation_code(op: Operation, position: int) -> Seq<Instruction> {
    match op {
        Operation::Read => seq![Instruction::CallRead] + set_code(position + 1, position),
        Operation::Write => get_code(position) + seq![
            Instruction::CallWrite { value: (position + 2) as usize },
        ],
        Operation::Increment => get_code(position) + seq![
            Instruction::Constant { word: 1 },
            Instruction::Add { left: (position + 2) as usize, right: (position + 3) as usize },
        ] + set_code(position + 5, position + 4),
        Operation::Decrement => get_code(position) + seq![
            Instruction::Constant { word: 1 },
            Instruction::Subtract {
                left: (position + 2) as usize,
                right: (position + 3) as usize,
            },
        ] + set_code(position + 5, position + 4),
        Operation::PtrLeft => seq![
            Instruction::LoadCursor,
            Instruction::Constant { word: 1 },
            Instruction::Subtract { left: position as usize, right: (position + 1) as usize },
            Instruction::StoreCursor { value: (position + 2) as usize },
        ],
        Operation::PtrRight => seq![
            Instruction::LoadCursor,
            Instruction::Constant { word: 1 },
            Instruction::Add { left: position as usize, right: (position + 1) as usize },
            Instruction::StoreCursor { value: (position + 2) as usize },
        ],
    }
}

/// The instructions of a loop's head, which tests the current cell: its word,
/// zero, and whether the two are equal, at position 4.
pub open spec fn loop_test_code() -> Seq<Instruction> {
    get_code(0) + seq![
        Instruction::Constant { word: 0 },
        Instruction::Equal { left: 2, right: 3 },
    ]
}

/// The state after an element is lowered.
///
/// An operation adds its instructions to the current block. A loop adds three
/// blocks, head, body and tail, behind the others: the current block jumps to
/// the head; the head tests the current cell and branches to the tail where
/// it is zero, to the body where it is not; the body holds the loop's
/// elements and jumps back to the head; the tail is where the code goes on.
pub open spec fn generated_element(element: Element, state: State) -> State
    decreases element,
{
    match element {
        Element::Operation(op) => state.append(operation_code(op, state.position())),
        Element::Loop(body) => {
            let head = state.blocks.len() as int;
            let entered = state.append_block().append_block().append_block().terminate(
                Terminator::Jump { target: head as usize },
            );
            let tested = entered.position_at_end(head).append(loop_test_code()).terminate(
                Terminator::Branch {
                    condition: 4,
                    if_true: (head + 2) as usize,
                    if_false: (head + 1) as usize,
                },
            );
            let filled = generated(body, tested.position_at_end(head + 1));
            filled.terminate(Terminator::Jump { target: head as usize }).position_at_end(
                head + 2,
            )
        },
    }
}

/// The state after the elements of a block are lowered, one after another.
pub open spec fn generated(block: Seq<Element>, state: State) -> State
    decreases block,
{
    if block.len() == 0 {
        state
    } else {
        generated(block.skip(1), generated_element(block[0], state))
    }
}

/// What lowering leaves as it was: the blocks made before, but for the
/// current one, which keeps its instructions and may get more.
pub open spec fn kept(before: State, after: State) -> bool {
    &&& after.blocks.len() >= before.blocks.len()
    &&& after.current == before.current || after.current >= before.blocks.len()
    &&& forall|b: int|
        0 <= b < before.blocks.len() && b != before.current ==> #[trigger] after.blocks[b]
            == before.blocks[b]
    &&& before.blocks[before.current].instructions.is_prefix_of(
        after.blocks[before.current].instructions,
    )
}

/// Lowering an element keeps the insertion point at an open block and leaves
/// the blocks made before as they were.
pub proof fn generated_element_keeps(element: Element, state: State)
    requires
        state.well_formed(),
    ensures
        generated_element(element, state).well_formed(),
        kept(state, generated_element(element, state)),
    decreases element,
{
    let before = state.blocks[state.current].instructions;
    match element {
        Element::Operation(op) => {
            let code = operation_code(op, state.position());
            assert((before + code).subrange(0, before.len() as int) =~= before);
        },
        Element::Loop(body) => {
            let head = state.blocks.len() as int;
            let entered = state.append_block().append_block().append_block().terminate(
                Terminator::Jump { target: head as usize },
            );
            let tested = entered.position_at_end(head).append(loop_test_code()).terminate(
                Terminator::Branch {
                    condition: 4,
                    if_true: (head + 2) as usize,
                    if_false: (head + 1) as usize,
                },
            );
            let inside = tested.position_at_end(head + 1);
            generated_keeps(body, inside);
            let filled = generated(body, inside);
            let after = generated_element(element, state);
            assert(filled.blocks[head + 2] == inside.blocks[head + 2]);
            assert(after.blocks[state.current].instructions == before) by {
                assert(filled.blocks[state.current] == inside.blocks[state.current]);
            }
            assert(before.subrange(0, before.len() as int) =~= before);
            assert forall|b: int|
                0 <= b < state.blocks.len() && b != state.current implies #[trigger] after.blocks[b]
                == state.blocks[b] by {
                assert(filled.blocks[b] == inside.blocks[b]);
            }
        },
    }
}

/// Lowering a block keeps the insertion point at an open block and leaves the
/// blocks made before as they were.
pub proof fn generated_keeps(block: Seq<Element>, state: State)
    requires
        state.well_formed(),
    ensures
        generated(block, state).well_formed(),
        kept(state, generated(block, state)),
    decreases block,
{
    let before = state.blocks[state.current].instructions;
    if block.len() > 0 {
        let next = generated_element(block[0], state);
        generated_element_keeps(block[0], state);
        generated_keeps(block.skip(1), next);
        let after = generated(block, state);
        assert forall|b: int|
            0 <= b < state.blocks.len() && b != state.current implies #[trigger] after.blocks[b]
            == state.blocks[b] by {
            assert(next.blocks[b] == state.blocks[b]);
        }
        let middle = next.blocks[state.current].instructions;
        let end = after.blocks[state.current].instructions;
        assert(before =~= end.subrange(0, before.len() as int)) by {
            assert(before =~= middle.subrange(0, before.len() as int));
            if next.current == state.current {
                assert(middle =~= end.subrange(0, middle.len() as int));
            } else {
                assert(after.blocks[state.current] == next.blocks[state.current]);
            }
        }
    } else {
        assert(before.subrange(0, before.len() as int) =~= before);
    }
}

/// Inserting one list of instructions and then another inserts the two
/// joined.
pub proof fn append_twice(state: State, first: Seq<Instruction>, second: Seq<Instruction>)
    requires
        0 <= state.current < state.blocks.len(),
    ensures
        state.append(first).append(second) == state.append(first + second),
{
    let before = state.blocks[state.current].instructions;
    assert((before + first) + second =~= before + (first + second));
    assert(state.append(first).append(second).blocks =~= state.append(first + second).blocks);
}

/// Lowers a read of the current cell: inserts the instructions that load the
/// cursor, take the cell's address and load the cell, and gives the position
/// of the word that was loaded.
pub fn generate_get(codegen: &mut CodeGen) -> (value: usize)
    requires
        old(codegen)@.well_formed(),
    ensures
        final(codegen)@ == old(codegen)@.append(get_code(old(codegen)@.position())),
        final(codegen)@.well_formed(),
        value == old(codegen)@.position() + 2,
{
    let cursor = codegen.emit(Instruction::LoadCursor);
    let address = codegen.emit(Instruction::CellAddress { index: cursor });
    let value = codegen.emit(Instruction::LoadCell { address });
    proof {
        let state = old(codegen)@;
        let code = get_code(state.position());
        append_twice(state, seq![code[0]], seq![code[1]]);
        append_twice(state, seq![code[0]] + seq![code[1]], seq![code[2]]);
        assert(seq![code[0]] + seq![code[1]] + seq![code[2]] =~= code);
    }
    value
}

/// Lowers a write to the current cell: inserts the instructions that load the
/// cursor, take the cell's address and store the result at `value` there.
pub fn generate_set(codegen: &mut CodeGen, value: usize)
    requires
        old(codegen)@.well_formed(),
    ensures
        final(codegen)@ == old(codegen)@.append(
            set_code(old(codegen)@.position(), value as int),
        ),
        final(codegen)@.well_formed(),
{
    let cursor = codegen.emit(Instruction::LoadCursor);
    let address = codegen.emit(Instruction::CellAddress { index: cursor });
    codegen.emit(Instruction::StoreCell { address, value });
    proof {
        let state = old(codegen)@;
        let code = set_code(state.position(), value as int);
        append_twice(state, seq![code[0]], seq![code[1]]);
        append_twice(state, seq![code[0]] + seq![code[1]], seq![code[2]]);
        assert(seq![code[0]] + seq![code[1]] + seq![code[2]] =~= code);
    }
}

impl Operation {
    /// Lowers the operation: inserts its instructions at the end of the
    /// current block.
    pub fn generate(&self, codegen: &mut CodeGen)
        requires
            old(codegen)@.well_formed(),
        ensures
            final(codegen)@ == generated_element(Element::Operation(*self), old(codegen)@),
            final(codegen)@.well_formed(),
    {
        let ghost state = codegen@;
        let ghost code = operation_code(*self, state.position());
        match self {
            Operation::Read => {
                let word = codegen.emit(Instruction::CallRead);
                generate_set(codegen, word);
                proof {
                    append_twice(state, seq![code[0]], set_code(state.position() + 1, word as int));
                }
            },
            Operation::Write => {
                let current = generate_get(codegen);
                codegen.emit(Instruction::CallWrite { value: current });
                proof {
                    append_twice(state, get_code(state.position()), seq![code[3]]);
                }
            },
            Operation::Increment => {
                let current = generate_get(codegen);
                let one = codegen.emit(Instruction::Constant { word: 1 });
                let incremented = codegen.emit(Instruction::Add { left: current, right: one });
                generate_set(codegen, incremented);
                proof {
                    let get = get_code(state.position());
                    let set = set_code(state.position() + 5, state.position() + 4);
                    append_twice(state, get, seq![code[3]]);
                    append_twice(state, get + seq![code[3]], seq![code[4]]);
                    append_twice(state, get + seq![code[3]] + seq![code[4]], set);
                    assert(get + seq![code[3]] + seq![code[4]] + set =~= code);
                }
            },
            Operation::Decrement => {
                let current = generate_get(codegen);
                let one = codegen.emit(Instruction::Constant { word: 1 });
                let decremented = codegen.emit(
                    Instruction::Subtract { left: current, right: one },
                );
                generate_set(codegen, decremented);
                proof {
                    let get = get_code(state.position());
                    let set = set_code(state.position() + 5, state.position() + 4);
                    append_twice(state, get, seq![code[3]]);
                    append_twice(state, get + seq![code[3]], seq![code[4]]);
                    append_twice(state, get + seq![code[3]] + seq![code[4]], set);
                    assert(get + seq![code[3]] + seq![code[4]] + set =~= code);
                }
            },
            Operation::PtrLeft => {
                let cursor = codegen.emit(Instruction::LoadCursor);
                let one = codegen.emit(Instruction::Constant { word: 1 });
                let moved = codegen.emit(Instruction::Subtract { left: cursor, right: one });
                codegen.emit(Instruction::StoreCursor { value: moved });
                proof {
                    append_twice(state, seq![code[0]], seq![code[1]]);
                    append_twice(state, seq![code[0]] + seq![code[1]], seq![code[2]]);
                    append_twice(
                        state,
                        seq![code[0]] + seq![code[1]] + seq![code[2]],
                        seq![code[3]],
                    );
                    assert(seq![code[0]] + seq![code[1]] + seq![code[2]] + seq![code[3]]
                        =~= code);
                }
            },
            Operation::PtrRight => {
                let cursor = codegen.emit(Instruction::LoadCursor);
                let one = codegen.emit(Instruction::Constant { word: 1 });
                let moved = codegen.emit(Instruction::Add { left: cursor, right: one });
                codegen.emit(Instruction::StoreCursor { value: moved });
                proof {
                    append_twice(state, seq![code[0]], seq![code[1]]);
                    append_twice(state, seq![code[0]] + seq![code[1]], seq![code[2]]);
                    append_twice(
                        state,
                        seq![code[0]] + seq![code[1]] + seq![code[2]],
                        seq![code[3]],
                    );
                    assert(seq![code[0]] + seq![code[1]] + seq![code[2]] + seq![code[3]]
                        =~= code);
                }
            },
        }
    }
}

impl ASTElement {
    /// Lowers the element: an operation to its instructions, a loop to its
    /// head, body and tail, with the insertion point left in the tail.
    pub fn generate(&self, codegen: &mut CodeGen)
        requires
            old(codegen)@.well_formed(),
        ensures
            final(codegen)@ == generated_element(self@, old(codegen)@),
            final(codegen)@.well_formed(),
        decreases self,
    {
        proof {
            generated_element_keeps(self@, codegen@);
        }
        match self {
            ASTElement::Loop(contents) => {
                let head = codegen.append_basic_block();
                let body = codegen.append_basic_block();
                let tail = codegen.append_basic_block();
                codegen.terminate(Terminator::Jump { target: head });
                codegen.position_at_end(head);
                let ghost entered = codegen@;
                let current = generate_get(codegen);
                let zero = codegen.emit(Instruction::Constant { word: 0 });
                let condition = codegen.emit(Instruction::Equal { left: current, right: zero });
                proof {
                    let test = loop_test_code();
                    append_twice(entered, get_code(0), seq![test[3]]);
                    append_twice(entered, get_code(0) + seq![test[3]], seq![test[4]]);
                    assert(get_code(0) + seq![test[3]] + seq![test[4]] =~= test);
                }
                codegen.terminate(Terminator::Branch { condition, if_true: tail, if_false: body });
                codegen.position_at_end(body);
                proof {
                    generated_keeps(contents@, codegen@);
                }
                contents.generate(codegen);
                codegen.terminate(Terminator::Jump { target: head });
                codegen.position_at_end(tail);
            },
            ASTElement::Operation(op) => {
                op.generate(codegen);
            },
        }
    }
}

impl ASTBranch {
    /// Lowers the elements of the branch, one after another.
    pub fn generate(&self, codegen: &mut CodeGen)
        requires
            old(codegen)@.well_formed(),
        ensures
            final(codegen)@ == generated(self@, old(codegen)@),
            final(codegen)@.well_formed(),
        decreases self,
    {
        let mut i: usize = 0;
        assert(self@.skip(0) =~= self@);
        while i < self.0.len()
            invariant
                i <= self.0.len(),
                codegen@.well_formed(),
                generated(self@, old(codegen)@) == generated(self@.skip(i as int), codegen@),
            decreases self.0.len() - i,
        {
            proof {
                let rest = self@.skip(i as int);
                assert(rest[0] == self.0@[i as int]@);
                assert(rest.skip(1) =~= self@.skip(i + 1));
            }
            self.0[i].generate(codegen);
            i += 1;
        }
    }
}

} // verus!
