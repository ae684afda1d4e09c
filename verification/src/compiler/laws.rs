//! What holds of compiled code: run on the machine, it does to the machine
//! what the program means.

use crate::compiler::codegen::{compiled, entered, State};
use crate::compiler::generators::{
    generated, generated_element, generated_element_keeps, generated_keeps, kept,
    loop_test_code, operation_code,
};
use crate::compiler::ir::{fits, BlockView, Function, Instruction, Terminator};
use crate::compiler::machine::{
    cell_at, next_input, rest_of_input, run, run_from, run_instructions, step, word_at, Machine,
    Outcome, Value,
};
use crate::compiler::meaning::{
    apply, branches_of_element, branches_of_elements, branches_of_loop, current_cell,
    run_element, run_elements, run_loop, with_cell,
};
use crate::parser::ast::{Element, Operation};
use vstd::prelude::*;

verus! {

/// The code has all that the state of generation has: of every block the
/// instructions made so far, and every closed block as it is.
pub open spec fn holds(code: Seq<BlockView>, state: State) -> bool {
    &&& code.len() >= state.blocks.len()
    &&& forall|b: int|
        0 <= b < state.blocks.len() ==> {
            &&& (#[trigger] state.blocks[b]).instructions.is_prefix_of(code[b].instructions)
            &&& state.blocks[b].terminator is Some ==> code[b] == state.blocks[b]
        }
}

/// Code that has what a later state has, has what an earlier one had.
proof fn holds_earlier(code: Seq<BlockView>, before: State, after: State)
    requires
        before.well_formed(),
        kept(before, after),
        holds(code, after),
    ensures
        holds(code, before),
{
    assert forall|b: int| 0 <= b < before.blocks.len() implies {
        &&& (#[trigger] before.blocks[b]).instructions.is_prefix_of(code[b].instructions)
        &&& before.blocks[b].terminator is Some ==> code[b] == before.blocks[b]
    } by {
        let early = before.blocks[b].instructions;
        let late = after.blocks[b].instructions;
        assert(late.is_prefix_of(code[b].instructions));
        if b == before.current {
            assert(early.is_prefix_of(late));
            assert(early =~= code[b].instructions.subrange(0, early.len() as int));
        }
    }
}

/// Where the instructions from `from` to `to` lead from one machine to
/// another, a run from `from` goes on as the run from `to` does.
proof fn run_goes_on(
    code: Seq<BlockView>,
    block: int,
    from: int,
    results: Seq<Value>,
    machine: Machine,
    to: int,
    after: Seq<Value>,
    next: Machine,
    fuel: nat,
)
    requires
        0 <= block < code.len(),
        run_instructions(code[block].instructions, from, results, machine) == run_instructions(
            code[block].instructions,
            to,
            after,
            next,
        ),
    ensures
        run_from(code, block, from, results, machine, fuel) == run_from(
            code,
            block,
            to,
            after,
            next,
            fuel,
        ),
{
}

/// Where the instructions from `from` on fault, the run from `from` faults.
proof fn run_faults(
    code: Seq<BlockView>,
    block: int,
    from: int,
    results: Seq<Value>,
    machine: Machine,
    fuel: nat,
)
    requires
        0 <= block < code.len(),
        run_instructions(code[block].instructions, from, results, machine) is None,
    ensures
        run_from(code, block, from, results, machine, fuel) == Outcome::Fault,
{
}

/// The instructions that read the current cell leave the machine as it is
/// and give the cell's word, and fault where the cursor is outside the tape.
proof fn get_runs(block: Seq<Instruction>, at: int, results: Seq<Value>, machine: Machine) -> (after:
    Seq<Value>)
    requires
        0 <= at,
        results.len() == at,
        at + 3 <= block.len() <= usize::MAX,
        block[at] == Instruction::LoadCursor,
        block[at + 1] == (Instruction::CellAddress { index: at as usize }),
        block[at + 2] == (Instruction::LoadCell { address: (at + 1) as usize }),
    ensures
        match current_cell(machine) {
            Some(word) => {
                &&& after == results.push(Value::Word(machine.cursor)).push(
                    Value::Address(machine.cursor),
                ).push(Value::Word(word))
                &&& run_instructions(block, at, results, machine) == run_instructions(
                    block,
                    at + 3,
                    after,
                    machine,
                )
            },
            None => run_instructions(block, at, results, machine) is None,
        },
{
    reveal_with_fuel(run_instructions, 3);
    let loaded = results.push(Value::Word(machine.cursor));
    let addressed = loaded.push(Value::Address(machine.cursor));
    assert(step(block[at], results, machine) == Some((Value::Word(machine.cursor), machine)));
    assert(word_at(loaded, at as usize) == Some(machine.cursor));
    assert(step(block[at + 1], loaded, machine) == Some(
        (Value::Address(machine.cursor), machine),
    ));
    match current_cell(machine) {
        Some(word) => {
            assert(cell_at(addressed, (at + 1) as usize, machine) == Some(machine.cursor as int));
            addressed.push(Value::Word(word))
        },
        None => {
            assert(cell_at(addressed, (at + 1) as usize, machine) is None);
            results
        },
    }
}

/// The instructions that write the current cell set it to the word at
/// `value`, and fault where the cursor is outside the tape.
proof fn set_runs(
    block: Seq<Instruction>,
    at: int,
    value: int,
    word: i32,
    results: Seq<Value>,
    machine: Machine,
) -> (after: Seq<Value>)
    requires
        0 <= value < at,
        results.len() == at,
        results[value] == Value::Word(word),
        at + 3 <= block.len() <= usize::MAX,
        block[at] == Instruction::LoadCursor,
        block[at + 1] == (Instruction::CellAddress { index: at as usize }),
        block[at + 2] == (Instruction::StoreCell {
            address: (at + 1) as usize,
            value: value as usize,
        }),
    ensures
        match current_cell(machine) {
            Some(old) => {
                &&& after.len() == at + 3
                &&& run_instructions(block, at, results, machine) == run_instructions(
                    block,
                    at + 3,
                    after,
                    with_cell(machine, word),
                )
            },
            None => run_instructions(block, at, results, machine) is None,
        },
{
    reveal_with_fuel(run_instructions, 3);
    let loaded = results.push(Value::Word(machine.cursor));
    let addressed = loaded.push(Value::Address(machine.cursor));
    assert(step(block[at], results, machine) == Some((Value::Word(machine.cursor), machine)));
    assert(word_at(loaded, at as usize) == Some(machine.cursor));
    assert(step(block[at + 1], loaded, machine) == Some(
        (Value::Address(machine.cursor), machine),
    ));
    assert(word_at(addressed, value as usize) == Some(word));
    match current_cell(machine) {
        Some(old) => {
            assert(cell_at(addressed, (at + 1) as usize, machine) == Some(machine.cursor as int));
            addressed.push(Value::Nothing)
        },
        None => {
            assert(cell_at(addressed, (at + 1) as usize, machine) is None);
            results
        },
    }
}

/// One instruction that does not fault leads to the instructions behind it.
proof fn step_runs(
    block: Seq<Instruction>,
    at: int,
    results: Seq<Value>,
    machine: Machine,
    value: Value,
    next: Machine,
)
    requires
        0 <= at < block.len(),
        step(block[at], results, machine) == Some((value, next)),
    ensures
        run_instructions(block, at, results, machine) == run_instructions(
            block,
            at + 1,
            results.push(value),
            next,
        ),
{
}

/// The instructions of a read.
proof fn read_runs(block: Seq<Instruction>, at: int, results: Seq<Value>, machine: Machine) -> (after:
    Seq<Value>)
    requires
        0 <= at,
        results.len() == at,
        at + 4 <= block.len() <= usize::MAX,
        block[at] == Instruction::CallRead,
        block[at + 1] == Instruction::LoadCursor,
        block[at + 2] == (Instruction::CellAddress { index: (at + 1) as usize }),
        block[at + 3] == (Instruction::StoreCell {
            address: (at + 2) as usize,
            value: at as usize,
        }),
    ensures
        after.len() == at + 4,
        match apply(Operation::Read, machine) {
            Some(next) => run_instructions(block, at, results, machine) == run_instructions(
                block,
                at + 4,
                after,
                next,
            ),
            None => run_instructions(block, at, results, machine) is None,
        },
{
    let word = next_input(machine.input);
    let read = Machine { input: rest_of_input(machine.input), ..machine };
    step_runs(block, at, results, machine, Value::Word(word), read);
    let got = results.push(Value::Word(word));
    let after = set_runs(block, at + 1, at, word, got, read);
    if current_cell(machine) is Some {
        after
    } else {
        Seq::new((at + 4) as nat, |i: int| Value::Nothing)
    }
}

/// The instructions of a write.
proof fn write_runs(block: Seq<Instruction>, at: int, results: Seq<Value>, machine: Machine) -> (after:
    Seq<Value>)
    requires
        0 <= at,
        results.len() == at,
        at + 4 <= block.len() <= usize::MAX,
        block[at] == Instruction::LoadCursor,
        block[at + 1] == (Instruction::CellAddress { index: at as usize }),
        block[at + 2] == (Instruction::LoadCell { address: (at + 1) as usize }),
        block[at + 3] == (Instruction::CallWrite { value: (at + 2) as usize }),
    ensures
        after.len() == at + 4,
        match apply(Operation::Write, machine) {
            Some(next) => run_instructions(block, at, results, machine) == run_instructions(
                block,
                at + 4,
                after,
                next,
            ),
            None => run_instructions(block, at, results, machine) is None,
        },
{
    let got = get_runs(block, at, results, machine);
    match current_cell(machine) {
        Some(word) => {
            assert(word_at(got, (at + 2) as usize) == Some(word));
            step_runs(
                block,
                at + 3,
                got,
                machine,
                Value::Nothing,
                Machine { output: machine.output.push(word), ..machine },
            );
            got.push(Value::Nothing)
        },
        None => Seq::new((at + 4) as nat, |i: int| Value::Nothing),
    }
}

/// The instructions of an increment, or, with `Subtract` in place of `Add`,
/// of a decrement.
proof fn change_runs(
    up: bool,
    block: Seq<Instruction>,
    at: int,
    results: Seq<Value>,
    machine: Machine,
) -> (after: Seq<Value>)
    requires
        0 <= at,
        results.len() == at,
        at + 8 <= block.len() <= usize::MAX,
        block[at] == Instruction::LoadCursor,
        block[at + 1] == (Instruction::CellAddress { index: at as usize }),
        block[at + 2] == (Instruction::LoadCell { address: (at + 1) as usize }),
        block[at + 3] == (Instruction::Constant { word: 1 }),
        up ==> block[at + 4] == (Instruction::Add {
            left: (at + 2) as usize,
            right: (at + 3) as usize,
        }),
        !up ==> block[at + 4] == (Instruction::Subtract {
            left: (at + 2) as usize,
            right: (at + 3) as usize,
        }),
        block[at + 5] == Instruction::LoadCursor,
        block[at + 6] == (Instruction::CellAddress { index: (at + 5) as usize }),
        block[at + 7] == (Instruction::StoreCell {
            address: (at + 6) as usize,
            value: (at + 4) as usize,
        }),
    ensures
        after.len() == at + 8,
        match apply(
            if up {
                Operation::Increment
            } else {
                Operation::Decrement
            },
            machine,
        ) {
            Some(next) => run_instructions(block, at, results, machine) == run_instructions(
                block,
                at + 8,
                after,
                next,
            ),
            None => run_instructions(block, at, results, machine) is None,
        },
{
    let got = get_runs(block, at, results, machine);
    match current_cell(machine) {
        Some(word) => {
            let one = got.push(Value::Word(1));
            let changed = if up {
                word.wrapping_add(1)
            } else {
                word.wrapping_sub(1)
            };
            step_runs(block, at + 3, got, machine, Value::Word(1), machine);
            assert(word_at(one, (at + 2) as usize) == Some(word));
            assert(word_at(one, (at + 3) as usize) == Some(1i32));
            step_runs(block, at + 4, one, machine, Value::Word(changed), machine);
            set_runs(block, at + 5, at + 4, changed, one.push(Value::Word(changed)), machine)
        },
        None => Seq::new((at + 8) as nat, |i: int| Value::Nothing),
    }
}

/// The instructions of a move of the cursor: to the right with `Add`, to the
/// left with `Subtract`.
proof fn move_runs(
    right: bool,
    block: Seq<Instruction>,
    at: int,
    results: Seq<Value>,
    machine: Machine,
) -> (after: Seq<Value>)
    requires
        0 <= at,
        results.len() == at,
        at + 4 <= block.len() <= usize::MAX,
        block[at] == Instruction::LoadCursor,
        block[at + 1] == (Instruction::Constant { word: 1 }),
        right ==> block[at + 2] == (Instruction::Add {
            left: at as usize,
            right: (at + 1) as usize,
        }),
        !right ==> block[at + 2] == (Instruction::Subtract {
            left: at as usize,
            right: (at + 1) as usize,
        }),
        block[at + 3] == (Instruction::StoreCursor { value: (at + 2) as usize }),
    ensures
        after.len() == at + 4,
        match apply(
            if right {
                Operation::PtrRight
            } else {
                Operation::PtrLeft
            },
            machine,
        ) {
            Some(next) => run_instructions(block, at, results, machine) == run_instructions(
                block,
                at + 4,
                after,
                next,
            ),
            None => false,
        },
{
    let cursor = machine.cursor;
    let moved = if right {
        cursor.wrapping_add(1)
    } else {
        cursor.wrapping_sub(1)
    };
    let loaded = results.push(Value::Word(cursor));
    let one = loaded.push(Value::Word(1));
    let computed = one.push(Value::Word(moved));
    step_runs(block, at, results, machine, Value::Word(cursor), machine);
    step_runs(block, at + 1, loaded, machine, Value::Word(1), machine);
    assert(word_at(one, at as usize) == Some(cursor));
    assert(word_at(one, (at + 1) as usize) == Some(1i32));
    step_runs(block, at + 2, one, machine, Value::Word(moved), machine);
    assert(word_at(computed, (at + 2) as usize) == Some(moved));
    step_runs(
        block,
        at + 3,
        computed,
        machine,
        Value::Nothing,
        Machine { cursor: moved, ..machine },
    );
    computed.push(Value::Nothing)
}

/// The instructions of an operation do to the machine what the operation
/// means, and fault where it has no meaning.
proof fn operation_runs(
    op: Operation,
    block: Seq<Instruction>,
    at: int,
    results: Seq<Value>,
    machine: Machine,
) -> (after: Seq<Value>)
    requires
        0 <= at <= block.len() <= usize::MAX,
        results.len() == at,
        operation_code(op, at).is_prefix_of(block.skip(at)),
    ensures
        after.len() == at + operation_code(op, at).len(),
        match apply(op, machine) {
            Some(next) => run_instructions(block, at, results, machine) == run_instructions(
                block,
                at + operation_code(op, at).len(),
                after,
                next,
            ),
            None => run_instructions(block, at, results, machine) is None,
        },
{
    let code = operation_code(op, at);
    let tail = block.skip(at);
    assert(tail.len() == block.len() - at);
    assert(code.len() <= tail.len());
    assert(code == tail.subrange(0, code.len() as int));
    assert forall|i: int| 0 <= i < code.len() implies block[at + i] == code[i] by {
        assert(tail.subrange(0, code.len() as int)[i] == tail[i]);
    }
    match op {
        Operation::Read => {
            assert(code.len() == 4);
            assert(block[at] == code[0] && block[at + 1] == code[1] && block[at + 2] == code[2]
                && block[at + 3] == code[3]);
            read_runs(block, at, results, machine)
        },
        Operation::Write => {
            assert(code.len() == 4);
            assert(block[at] == code[0] && block[at + 1] == code[1] && block[at + 2] == code[2]
                && block[at + 3] == code[3]);
            write_runs(block, at, results, machine)
        },
        Operation::Increment => {
            assert(code.len() == 8);
            assert(block[at] == code[0] && block[at + 1] == code[1] && block[at + 2] == code[2]
                && block[at + 3] == code[3]);
            assert(block[at + 4] == code[4] && block[at + 5] == code[5] && block[at + 6]
                == code[6] && block[at + 7] == code[7]);
            change_runs(true, block, at, results, machine)
        },
        Operation::Decrement => {
            assert(code.len() == 8);
            assert(block[at] == code[0] && block[at + 1] == code[1] && block[at + 2] == code[2]
                && block[at + 3] == code[3]);
            assert(block[at + 4] == code[4] && block[at + 5] == code[5] && block[at + 6]
                == code[6] && block[at + 7] == code[7]);
            change_runs(false, block, at, results, machine)
        },
        Operation::PtrLeft => {
            assert(code.len() == 4);
            assert(block[at] == code[0] && block[at + 1] == code[1] && block[at + 2] == code[2]
                && block[at + 3] == code[3]);
            move_runs(false, block, at, results, machine)
        },
        Operation::PtrRight => {
            assert(code.len() == 4);
            assert(block[at] == code[0] && block[at + 1] == code[1] && block[at + 2] == code[2]
                && block[at + 3] == code[3]);
            move_runs(true, block, at, results, machine)
        },
    }
}

/// The head of a loop tests the current cell: it gives the flag that says
/// whether the cell is zero, and faults where the cursor is outside the tape.
proof fn test_runs(machine: Machine)
    ensures
        match current_cell(machine) {
            Some(word) => exists|results: Seq<Value>|
                {
                    &&& run_instructions(loop_test_code(), 0, Seq::empty(), machine) == Some(
                        (results, machine),
                    )
                    &&& results.len() == 5
                    &&& results[4] == Value::Flag(word == 0)
                },
            None => run_instructions(loop_test_code(), 0, Seq::empty(), machine) is None,
        },
{
    let code = loop_test_code();
    assert(code.len() == 5);
    assert(code[0] == Instruction::LoadCursor);
    assert(code[1] == (Instruction::CellAddress { index: 0 }));
    assert(code[2] == (Instruction::LoadCell { address: 1 }));
    assert(code[3] == (Instruction::Constant { word: 0 }));
    assert(code[4] == (Instruction::Equal { left: 2, right: 3 }));
    let got = get_runs(code, 0, Seq::empty(), machine);
    match current_cell(machine) {
        Some(word) => {
            let zero = got.push(Value::Word(0));
            let results = zero.push(Value::Flag(word == 0));
            step_runs(code, 3, got, machine, Value::Word(0), machine);
            assert(word_at(zero, 2) == Some(word));
            assert(word_at(zero, 3) == Some(0i32));
            step_runs(code, 4, zero, machine, Value::Flag(word == 0), machine);
            assert(run_instructions(code, 5, results, machine) == Some((results, machine)));
        },
        None => {},
    }
}

/// Code that has what a state has once its current block is closed, has what
/// the state has.
proof fn holds_open(code: Seq<BlockView>, state: State, terminator: Terminator)
    requires
        state.well_formed(),
        holds(code, state.terminate(terminator)),
    ensures
        holds(code, state),
        code[state.current] == state.terminate(terminator).blocks[state.current],
{
    let closed = state.terminate(terminator);
    assert forall|b: int| 0 <= b < state.blocks.len() implies {
        &&& (#[trigger] state.blocks[b]).instructions.is_prefix_of(code[b].instructions)
        &&& state.blocks[b].terminator is Some ==> code[b] == state.blocks[b]
    } by {
        assert(closed.blocks[b].instructions.is_prefix_of(code[b].instructions));
    }
    assert(closed.blocks[state.current].terminator is Some);
}

/// The code of an element does to the machine what the element means: from
/// the place where the code starts and with the fuel that its branches take,
/// a run goes on as a run from the place where it ends does, on the machine
/// that the element leaves; and it faults where the element faults.
proof fn element_runs(
    element: Element,
    state: State,
    code: Seq<BlockView>,
    results: Seq<Value>,
    machine: Machine,
    fuel: nat,
    rest: nat,
) -> (after: Seq<Value>)
    requires
        state.well_formed(),
        fits(code),
        holds(code, generated_element(element, state)),
        results.len() == state.position(),
    ensures
        ({
            let end = generated_element(element, state);
            let start = run_from(
                code,
                state.current,
                state.position(),
                results,
                machine,
                rest + branches_of_element(element, machine, fuel),
            );
            match run_element(element, machine, fuel) {
                Outcome::Finished(next) => after.len() == end.position() && start == run_from(
                    code,
                    end.current,
                    end.position(),
                    after,
                    next,
                    rest,
                ),
                Outcome::Fault => start == Outcome::Fault,
                Outcome::OutOfFuel => rest == 0 ==> start == Outcome::OutOfFuel,
            }
        }),
    decreases fuel, element, 0nat,
{
    let end = generated_element(element, state);
    let current = state.current;
    let at = state.position();
    let before = state.blocks[current].instructions;
    match element {
        Element::Operation(op) => {
            let block = code[current].instructions;
            let added = operation_code(op, at);
            assert(end.blocks[current].instructions == before + added);
            assert((before + added).is_prefix_of(block));
            assert(added =~= block.skip(at).subrange(0, added.len() as int)) by {
                assert(before + added =~= block.subrange(0, at + added.len()));
                assert forall|i: int| 0 <= i < added.len() implies added[i] == block.skip(at)[i] by {
                    assert((before + added)[at + i] == added[i]);
                }
            }
            let after = operation_runs(op, block, at, results, machine);
            match apply(op, machine) {
                Some(next) => {
                    run_goes_on(
                        code,
                        current,
                        at,
                        results,
                        machine,
                        at + added.len(),
                        after,
                        next,
                        rest,
                    );
                },
                None => {
                    run_faults(code, current, at, results, machine, rest);
                },
            }
            after
        },
        Element::Loop(body) => {
            let head = state.blocks.len() as int;
            let entered = state.append_block().append_block().append_block().terminate(
                Terminator::Jump { target: head as usize },
            );
            let tested = entered.position_at_end(head).append(loop_test_code()).terminate(
                Terminator::Branch {
                    condition: 4,
                    if_true: (head + 2) as usize,
                    if_false: (head + 1) as usize,
                },
            );
            let inside = tested.position_at_end(head + 1);
            let filled = generated(body, inside);
            let closed = filled.terminate(Terminator::Jump { target: head as usize });
            generated_keeps(body, inside);
            assert(holds(code, closed));
            assert(closed.blocks[current] == entered.blocks[current]) by {
                assert(filled.blocks[current] == inside.blocks[current]);
            }
            assert(closed.blocks[head] == tested.blocks[head]) by {
                assert(filled.blocks[head] == inside.blocks[head]);
            }
            assert(closed.blocks[head + 2] == inside.blocks[head + 2]) by {
                assert(filled.blocks[head + 2] == inside.blocks[head + 2]);
            }
            assert(code[current] == entered.blocks[current]);
            assert(code[head] == tested.blocks[head]);
            assert(tested.blocks[head].instructions =~= loop_test_code());
            assert(code[current].instructions == before);
            assert(run_instructions(before, at, results, machine) == Some((results, machine)));
            loop_runs(body, inside, code, head, machine, fuel, rest);
            Seq::empty()
        },
    }
}

/// The code of a loop, from its head on, does to the machine what the loop
/// means.
proof fn loop_runs(
    body: Seq<Element>,
    inside: State,
    code: Seq<BlockView>,
    head: int,
    machine: Machine,
    fuel: nat,
    rest: nat,
)
    requires
        inside.well_formed(),
        fits(code),
        0 <= head,
        head + 2 < inside.blocks.len(),
        inside.current == head + 1,
        inside.position() == 0,
        holds(code, generated(body, inside).terminate(Terminator::Jump { target: head as usize })),
        code[head] == (BlockView {
            instructions: loop_test_code(),
            terminator: Some(
                Terminator::Branch {
                    condition: 4,
                    if_true: (head + 2) as usize,
                    if_false: (head + 1) as usize,
                },
            ),
        }),
    ensures
        ({
            let start = run_from(
                code,
                head,
                0,
                Seq::empty(),
                machine,
                rest + branches_of_loop(body, machine, fuel),
            );
            match run_loop(body, machine, fuel) {
                Outcome::Finished(next) => start == run_from(
                    code,
                    head + 2,
                    0,
                    Seq::empty(),
                    next,
                    rest,
                ),
                Outcome::Fault => start == Outcome::Fault,
                Outcome::OutOfFuel => rest == 0 ==> start == Outcome::OutOfFuel,
            }
        }),
    decreases fuel, body, 1nat,
{
    let jump = Terminator::Jump { target: head as usize };
    let filled = generated(body, inside);
    generated_keeps(body, inside);
    holds_open(code, filled, jump);
    test_runs(machine);
    match current_cell(machine) {
        None => {},
        Some(word) => {
            let results = choose|results: Seq<Value>|
                {
                    &&& run_instructions(loop_test_code(), 0, Seq::empty(), machine) == Some(
                        (results, machine),
                    )
                    &&& results.len() == 5
                    &&& results[4] == Value::Flag(word == 0)
                };
            if word == 0 {
            } else if fuel > 0 {
                let turn = (fuel - 1) as nat;
                let more: nat = match run_elements(body, machine, turn) {
                    Outcome::Finished(next) => 1 + branches_of_loop(body, next, turn),
                    _ => 0,
                };
                let after = elements_run(
                    body,
                    inside,
                    code,
                    Seq::empty(),
                    machine,
                    turn,
                    rest + more,
                );
                match run_elements(body, machine, turn) {
                    Outcome::Finished(next) => {
                        let last = filled.blocks[filled.current].instructions;
                        assert(code[filled.current].instructions == last);
                        assert(run_instructions(last, last.len() as int, after, next) == Some(
                            (after, next),
                        ));
                        loop_runs(body, inside, code, head, next, turn, rest);
                    },
                    _ => {},
                }
            }
        },
    }
}

/// The code of a block's elements does to the machine what the elements
/// mean.
proof fn elements_run(
    block: Seq<Element>,
    state: State,
    code: Seq<BlockView>,
    results: Seq<Value>,
    machine: Machine,
    fuel: nat,
    rest: nat,
) -> (after: Seq<Value>)
    requires
        state.well_formed(),
        fits(code),
        holds(code, generated(block, state)),
        results.len() == state.position(),
    ensures
        ({
            let end = generated(block, state);
            let start = run_from(
                code,
                state.current,
                state.position(),
                results,
                machine,
                rest + branches_of_elements(block, machine, fuel),
            );
            match run_elements(block, machine, fuel) {
                Outcome::Finished(next) => after.len() == end.position() && start == run_from(
                    code,
                    end.current,
                    end.position(),
                    after,
                    next,
                    rest,
                ),
                Outcome::Fault => start == Outcome::Fault,
                Outcome::OutOfFuel => rest == 0 ==> start == Outcome::OutOfFuel,
            }
        }),
    decreases fuel, block, 0nat,
{
    if block.len() == 0 {
        results
    } else {
        let first = generated_element(block[0], state);
        generated_element_keeps(block[0], state);
        generated_keeps(block.skip(1), first);
        holds_earlier(code, first, generated(block.skip(1), first));
        let more: nat = match run_element(block[0], machine, fuel) {
            Outcome::Finished(next) => branches_of_elements(block.skip(1), next, fuel),
            _ => 0,
        };
        let middle = element_runs(block[0], state, code, results, machine, fuel, rest + more);
        match run_element(block[0], machine, fuel) {
            Outcome::Finished(next) => elements_run(
                block.skip(1),
                first,
                code,
                middle,
                next,
                fuel,
                rest,
            ),
            _ => results,
        }
    }
}

/// Compiled code does what the program means. Where the program, run from
/// the cursor at 0, ends, the function that it is compiled to, run from its
/// entry on the same tape and input, returns and leaves the machine in the
/// same state; where the program touches a cell outside the tape, the
/// function faults. The function is given the fuel that its branches take;
/// it may be given more. Where the program runs out of fuel, the function,
/// given the fuel for the branches up to there, runs out of fuel too.
pub proof fn compiled_code_runs_the_program(
    program: Seq<Element>,
    machine: Machine,
    fuel: nat,
    rest: nat,
)
    requires
        fits(compiled(program)),
    ensures
        ({
            let start = Machine { cursor: 0, ..machine };
            let outcome = run(
                compiled(program),
                machine,
                rest + branches_of_elements(program, start, fuel),
            );
            match run_elements(program, start, fuel) {
                Outcome::Finished(end) => outcome == Outcome::Finished(end),
                Outcome::Fault => outcome == Outcome::Fault,
                Outcome::OutOfFuel => rest == 0 ==> outcome == Outcome::OutOfFuel,
            }
        }),
{
    let start = Machine { cursor: 0, ..machine };
    let code = compiled(program);
    let end = generated(program, entered());
    let all = (rest + branches_of_elements(program, start, fuel)) as nat;
    generated_keeps(program, entered());
    assert(holds(code, end.terminate(Terminator::Return))) by {
        assert forall|b: int| 0 <= b < code.len() implies (#[trigger] code[b]).instructions.is_prefix_of(
        code[b].instructions) by {
            let block = code[b].instructions;
            assert(block =~= block.subrange(0, block.len() as int));
        }
    }
    holds_open(code, end, Terminator::Return);
    holds_earlier(code, entered(), end);
    let entry = code[0].instructions;
    let first = entered().blocks[0].instructions;
    assert(first.is_prefix_of(entry));
    assert(entry[0] == first[0] && entry[1] == first[1]) by {
        assert(first =~= entry.subrange(0, 2));
        assert(entry.subrange(0, 2)[0] == entry[0]);
        assert(entry.subrange(0, 2)[1] == entry[1]);
    }
    let zero = Seq::<Value>::empty().push(Value::Word(0));
    let results = zero.push(Value::Nothing);
    step_runs(entry, 0, Seq::empty(), machine, Value::Word(0), machine);
    assert(word_at(zero, 0) == Some(0i32));
    step_runs(entry, 1, zero, machine, Value::Nothing, start);
    run_goes_on(code, 0, 0, Seq::empty(), machine, 2, results, start, all);
    let after = elements_run(program, entered(), code, results, start, fuel, rest);
    match run_elements(program, start, fuel) {
        Outcome::Finished(next) => {
            let last = end.blocks[end.current].instructions;
            assert(code[end.current].instructions == last);
            assert(run_instructions(last, last.len() as int, after, next) == Some((after, next)));
        },
        _ => {},
    }
}

/// More fuel does not change how a run ends, once it ends.
pub proof fn more_fuel_changes_nothing(
    code: Seq<BlockView>,
    block: int,
    from: int,
    results: Seq<Value>,
    machine: Machine,
    fuel: nat,
    more: nat,
)
    requires
        !(run_from(code, block, from, results, machine, fuel) is OutOfFuel),
    ensures
        run_from(code, block, from, results, machine, fuel + more) == run_from(
            code,
            block,
            from,
            results,
            machine,
            fuel,
        ),
    decreases fuel,
{
    if 0 <= block < code.len() {
        match run_instructions(code[block].instructions, from, results, machine) {
            Some((results, machine)) => match code[block].terminator {
                Some(Terminator::Jump { target }) => {
                    more_fuel_changes_nothing(
                        code,
                        target as int,
                        0,
                        Seq::empty(),
                        machine,
                        (fuel - 1) as nat,
                        more,
                    );
                },
                Some(Terminator::Branch { condition, if_true, if_false }) => {
                    if condition < results.len() {
                        match results[condition as int] {
                            Value::Flag(flag) => {
                                more_fuel_changes_nothing(
                                    code,
                                    if flag {
                                        if_true as int
                                    } else {
                                        if_false as int
                                    },
                                    0,
                                    Seq::empty(),
                                    machine,
                                    (fuel - 1) as nat,
                                    more,
                                );
                            },
                            _ => {},
                        }
                    }
                },
                _ => {},
            },
            None => {},
        }
    }
}

/// An element that runs out of fuel takes at least as many branches as it
/// had fuel.
proof fn element_out_of_fuel(element: Element, machine: Machine, fuel: nat)
    requires
        run_element(element, machine, fuel) is OutOfFuel,
    ensures
        branches_of_element(element, machine, fuel) >= fuel,
    decreases fuel, element, 0nat,
{
    match element {
        Element::Operation(op) => {},
        Element::Loop(body) => {
            loop_out_of_fuel(body, machine, fuel);
        },
    }
}

/// A loop that runs out of fuel takes at least as many branches as it had
/// fuel.
proof fn loop_out_of_fuel(body: Seq<Element>, machine: Machine, fuel: nat)
    requires
        run_loop(body, machine, fuel) is OutOfFuel,
    ensures
        branches_of_loop(body, machine, fuel) >= fuel,
    decreases fuel, body, 1nat,
{
    if fuel > 0 {
        let turn = (fuel - 1) as nat;
        match run_elements(body, machine, turn) {
            Outcome::Finished(next) => {
                loop_out_of_fuel(body, next, turn);
            },
            Outcome::OutOfFuel => {
                elements_out_of_fuel(body, machine, turn);
            },
            Outcome::Fault => {},
        }
    }
}

/// Elements that run out of fuel take at least as many branches as they had
/// fuel.
proof fn elements_out_of_fuel(block: Seq<Element>, machine: Machine, fuel: nat)
    requires
        run_elements(block, machine, fuel) is OutOfFuel,
    ensures
        branches_of_elements(block, machine, fuel) >= fuel,
    decreases fuel, block, 0nat,
{
    if block.len() > 0 {
        match run_element(block[0], machine, fuel) {
            Outcome::Finished(next) => {
                elements_out_of_fuel(block.skip(1), next, fuel);
            },
            Outcome::OutOfFuel => {
                element_out_of_fuel(block[0], machine, fuel);
            },
            Outcome::Fault => {},
        }
    }
}

/// The program means what compiled code does. Where the function that a
/// program is compiled to returns, the program, run from the cursor at 0 on
/// the same tape and input, ends and leaves the machine in the same state;
/// where the function faults, the program touches a cell outside the tape.
/// The program is given one unit of fuel more than the function had.
pub proof fn the_program_runs_as_compiled_code(
    program: Seq<Element>,
    machine: Machine,
    fuel: nat,
)
    requires
        fits(compiled(program)),
    ensures
        ({
            let start = Machine { cursor: 0, ..machine };
            match run(compiled(program), machine, fuel) {
                Outcome::Finished(end) => run_elements(program, start, fuel + 1)
                    == Outcome::Finished(end),
                Outcome::Fault => run_elements(program, start, fuel + 1) == Outcome::Fault,
                Outcome::OutOfFuel => true,
            }
        }),
{
    let start = Machine { cursor: 0, ..machine };
    let code = compiled(program);
    let turns = fuel + 1;
    let taken = branches_of_elements(program, start, turns);
    compiled_code_runs_the_program(program, machine, turns, 0);
    if !(run(code, machine, fuel) is OutOfFuel) {
        more_fuel_changes_nothing(code, 0, 0, Seq::empty(), machine, fuel, taken);
        match run_elements(program, start, turns) {
            Outcome::OutOfFuel => {
                elements_out_of_fuel(program, start, turns);
                more_fuel_changes_nothing(
                    code,
                    0,
                    0,
                    Seq::empty(),
                    machine,
                    fuel,
                    (taken - fuel) as nat,
                );
            },
            _ => {
                more_fuel_changes_nothing(code, 0, 0, Seq::empty(), machine, taken, fuel);
            },
        }
    }
}

/// A run of two lists of elements joined is a run of the one, then a run of
/// the other on the machine that the first leaves.
pub proof fn run_of_joined(
    first: Seq<Element>,
    second: Seq<Element>,
    machine: Machine,
    fuel: nat,
)
    ensures
        run_elements(first + second, machine, fuel) == match run_elements(first, machine, fuel) {
            Outcome::Finished(next) => run_elements(second, next, fuel),
            other => other,
        },
        branches_of_elements(first + second, machine, fuel) == branches_of_elements(
            first,
            machine,
            fuel,
        ) + match run_elements(first, machine, fuel) {
            Outcome::Finished(next) => branches_of_elements(second, next, fuel),
            _ => 0,
        },
    decreases first.len(),
{
    if first.len() == 0 {
        assert(first + second =~= second);
    } else {
        let all = first + second;
        assert(all[0] == first[0]);
        assert(all.skip(1) =~= first.skip(1) + second);
        match run_element(first[0], machine, fuel) {
            Outcome::Finished(next) => {
                run_of_joined(first.skip(1), second, next, fuel);
            },
            _ => {},
        }
    }
}

/// A run of an operation and then of more elements.
proof fn run_of_operation_first(block: Seq<Element>, op: Operation, machine: Machine, fuel: nat)
    requires
        block.len() > 0,
        block[0] == Element::Operation(op),
    ensures
        run_elements(block, machine, fuel) == match apply(op, machine) {
            Some(next) => run_elements(block.skip(1), next, fuel),
            None => Outcome::Fault,
        },
        branches_of_elements(block, machine, fuel) == match apply(op, machine) {
            Some(next) => branches_of_elements(block.skip(1), next, fuel),
            None => 0,
        },
{
    assert(run_element(block[0], machine, fuel) == match apply(op, machine) {
        Some(next) => Outcome::Finished(next),
        None => Outcome::Fault,
    });
    assert(branches_of_element(block[0], machine, fuel) == 0);
}

/// A run of no elements.
proof fn run_of_nothing(block: Seq<Element>, machine: Machine, fuel: nat)
    requires
        block.len() == 0,
    ensures
        run_elements(block, machine, fuel) == Outcome::Finished(machine),
        branches_of_elements(block, machine, fuel) == 0,
{
}

/// The program of `n` moves to the right, then `n` moves to the left.
pub open spec fn there_and_back(n: nat) -> Seq<Element> {
    Seq::new(n, |i: int| Element::Operation(Operation::PtrRight)) + Seq::new(
        n,
        |i: int| Element::Operation(Operation::PtrLeft),
    )
}

/// Cursor arithmetic. As many moves to the left as there were moves to the
/// right before leave the machine as it was: the cursor where it started,
/// wherever that is, and every cell with its word. The code takes no branch.
pub proof fn moving_there_and_back_changes_nothing(n: nat, machine: Machine, fuel: nat)
    ensures
        run_elements(there_and_back(n), machine, fuel) == Outcome::Finished(machine),
        branches_of_elements(there_and_back(n), machine, fuel) == 0,
    decreases n,
{
    let program = there_and_back(n);
    if n == 0 {
        run_of_nothing(program, machine, fuel);
    } else {
        let inner = there_and_back((n - 1) as nat);
        let back = seq![Element::Operation(Operation::PtrLeft)];
        let moved = Machine { cursor: machine.cursor.wrapping_add(1), ..machine };
        assert(program[0] == Element::Operation(Operation::PtrRight));
        assert(program.skip(1) =~= inner + back);
        assert(apply(Operation::PtrRight, machine) == Some(moved));
        run_of_operation_first(program, Operation::PtrRight, machine, fuel);
        moving_there_and_back_changes_nothing((n - 1) as nat, moved, fuel);
        run_of_joined(inner, back, moved, fuel);
        assert(moved.cursor.wrapping_sub(1) == machine.cursor);
        assert(apply(Operation::PtrLeft, moved) == Some(machine));
        run_of_operation_first(back, Operation::PtrLeft, moved, fuel);
        run_of_nothing(back.skip(1), machine, fuel);
    }
}

/// Cursor arithmetic, of compiled code: the function that `n` moves to the
/// right and `n` moves to the left are compiled to returns with the cursor at
/// 0, where it starts, and leaves every cell with its word.
pub proof fn compiled_moves_there_and_back_change_nothing(
    function: Function,
    n: nat,
    machine: Machine,
    fuel: nat,
)
    requires
        function@ == compiled(there_and_back(n)),
    ensures
        run(function@, machine, fuel) == Outcome::Finished(Machine { cursor: 0, ..machine }),
{
    let start = Machine { cursor: 0, ..machine };
    function.fits_in_memory();
    moving_there_and_back_changes_nothing(n, start, 0);
    compiled_code_runs_the_program(there_and_back(n), machine, 0, fuel);
}

/// The program that reads one word and writes it.
pub open spec fn echo() -> Seq<Element> {
    seq![Element::Operation(Operation::Read), Element::Operation(Operation::Write)]
}

/// What the machine is after one word was read into the current cell and
/// written from it: the word is the next byte of the input, or the sentinel
/// where the input has ended; one byte less is left of the input, and the
/// output has one word more, that word.
pub open spec fn echoed(machine: Machine) -> Machine {
    Machine {
        tape: machine.tape.update(machine.cursor as int, next_input(machine.input)),
        cursor: machine.cursor,
        input: rest_of_input(machine.input),
        output: machine.output.push(next_input(machine.input)),
    }
}

/// I/O fidelity. A read and then a write hand exactly one unit of the input
/// to the output, unchanged.
pub proof fn read_then_write_echoes(machine: Machine, fuel: nat)
    requires
        0 <= machine.cursor < machine.tape.len(),
    ensures
        run_elements(echo(), machine, fuel) == Outcome::Finished(echoed(machine)),
        branches_of_elements(echo(), machine, fuel) == 0,
{
    let program = echo();
    let read = Machine {
        input: rest_of_input(machine.input),
        ..with_cell(machine, next_input(machine.input))
    };
    assert(apply(Operation::Read, machine) == Some(read));
    assert(apply(Operation::Write, read) == Some(echoed(machine)));
    run_of_operation_first(program, Operation::Read, machine, fuel);
    run_of_operation_first(program.skip(1), Operation::Write, read, fuel);
    run_of_nothing(program.skip(1).skip(1), echoed(machine), fuel);
}

/// I/O fidelity, of compiled code: on a tape of at least one cell the
/// function that a read and a write are compiled to hands exactly one unit of
/// the input to the output, unchanged.
pub proof fn compiled_read_then_write_echoes(function: Function, machine: Machine, fuel: nat)
    requires
        function@ == compiled(echo()),
        machine.tape.len() > 0,
    ensures
        run(function@, machine, fuel) == Outcome::Finished(
            echoed(Machine { cursor: 0, ..machine }),
        ),
{
    let start = Machine { cursor: 0, ..machine };
    function.fits_in_memory();
    read_then_write_echoes(start, 0);
    compiled_code_runs_the_program(echo(), machine, 0, fuel);
}

/// The program that adds one to the current cell and then counts it down to
/// zero in a loop.
pub open spec fn up_and_down() -> Seq<Element> {
    seq![
        Element::Operation(Operation::Increment),
        Element::Loop(seq![Element::Operation(Operation::Decrement)]),
    ]
}

/// Loop lowering. On a current cell that holds zero, an increment and a loop
/// of one decrement end with the cell at zero again and the machine as it
/// was, after exactly one turn of the loop: one unit of fuel is enough and
/// none is not, and the code takes the four branches of one turn: into the
/// head, into the body, back to the head and out to the tail.
pub proof fn up_and_down_takes_one_turn(machine: Machine, fuel: nat)
    requires
        current_cell(machine) == Some(0i32),
    ensures
        fuel >= 1 ==> run_elements(up_and_down(), machine, fuel) == Outcome::Finished(machine),
        fuel >= 1 ==> branches_of_elements(up_and_down(), machine, fuel) == 4,
        fuel == 0 ==> run_elements(up_and_down(), machine, fuel) == Outcome::OutOfFuel,
{
    let program = up_and_down();
    let body = seq![Element::Operation(Operation::Decrement)];
    let one = with_cell(machine, 1);
    let back = with_cell(one, 0);
    assert(back.tape =~= machine.tape);
    assert(back == machine);
    assert(0i32.wrapping_add(1) == 1i32);
    assert(1i32.wrapping_sub(1) == 0i32);
    assert(apply(Operation::Increment, machine) == Some(one));
    assert(current_cell(one) == Some(1i32));
    assert(apply(Operation::Decrement, one) == Some(machine));
    run_of_operation_first(program, Operation::Increment, machine, fuel);
    let rest = program.skip(1);
    assert(rest[0] == Element::Loop(body));
    run_of_nothing(rest.skip(1), machine, fuel);
    assert(run_element(rest[0], one, fuel) == run_loop(body, one, fuel));
    assert(branches_of_element(rest[0], one, fuel) == 1 + branches_of_loop(body, one, fuel));
    if fuel >= 1 {
        let turn = (fuel - 1) as nat;
        run_of_operation_first(body, Operation::Decrement, one, turn);
        run_of_nothing(body.skip(1), machine, turn);
        assert(run_loop(body, machine, turn) == Outcome::Finished(machine));
        assert(branches_of_loop(body, machine, turn) == 1);
        assert(run_loop(body, one, fuel) == Outcome::Finished(machine));
        assert(branches_of_loop(body, one, fuel) == 3);
    } else {
        assert(run_loop(body, one, fuel) == Outcome::OutOfFuel);
    }
}

/// Loop lowering, of compiled code: on a tape whose first cell holds zero
/// the function that an increment and a loop of one decrement are compiled
/// to returns after the four branches of one turn and leaves the tape as it
/// was.
pub proof fn compiled_up_and_down_takes_one_turn(function: Function, machine: Machine, rest: nat)
    requires
        function@ == compiled(up_and_down()),
        machine.tape.len() > 0,
        machine.tape[0] == 0,
    ensures
        run(function@, machine, rest + 4) == Outcome::Finished(Machine { cursor: 0, ..machine }),
{
    let start = Machine { cursor: 0, ..machine };
    function.fits_in_memory();
    up_and_down_takes_one_turn(start, 1);
    compiled_code_runs_the_program(up_and_down(), machine, 1, rest);
}

} // verus!
