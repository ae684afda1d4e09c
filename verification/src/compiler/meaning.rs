//! What a program means: how its elements change the machine, whatever code
//! they are compiled to.

use crate::compiler::machine::{next_input, rest_of_input, Machine, Outcome};
use crate::parser::ast::{Element, Operation};
use vstd::prelude::*;

verus! {

/// The word in the current cell, if the cursor is within the tape.
pub open spec fn current_cell(machine: Machine) -> Option<i32> {
    if 0 <= machine.cursor < machine.tape.len() {
        Some(machine.tape[machine.cursor as int])
    } else {
        None
    }
}

/// The machine with `word` in the current cell.
pub open spec fn with_cell(machine: Machine, word: i32) -> Machine {
    Machine { tape: machine.tape.update(machine.cursor as int, word), ..machine }
}

/// The machine after one operation, or nothing where the operation touches a
/// cell outside the tape. Cells and cursor wrap at the width of a word.
pub open spec fn apply(op: Operation, machine: Machine) -> Option<Machine> {
    match op {
        Operation::Read => match current_cell(machine) {
            Some(word) => Some(
                Machine {
                    input: rest_of_input(machine.input),
                    ..with_cell(machine, next_input(machine.input))
                },
            ),
            None => None,
        },
        Operation::Write => match current_cell(machine) {
            Some(word) => Some(Machine { output: machine.output.push(word), ..machine }),
            None => None,
        },
        Operation::Increment => match current_cell(machine) {
            Some(word) => Some(with_cell(machine, word.wrapping_add(1))),
            None => None,
        },
        Operation::Decrement => match current_cell(machine) {
            Some(word) => Some(with_cell(machine, word.wrapping_sub(1))),
            None => None,
        },
        Operation::PtrLeft => Some(Machine { cursor: machine.cursor.wrapping_sub(1), ..machine }),
        Operation::PtrRight => Some(Machine { cursor: machine.cursor.wrapping_add(1), ..machine }),
    }
}

/// A run of one element. A loop is run by `run_loop`.
pub open spec fn run_element(element: Element, machine: Machine, fuel: nat) -> Outcome
    decreases fuel, element, 0nat,
{
    match element {
        Element::Operation(op) => match apply(op, machine) {
            Some(next) => Outcome::Finished(next),
            None => Outcome::Fault,
        },
        Element::Loop(body) => run_loop(body, machine, fuel),
    }
}

/// A run of a loop: while the current cell is not zero, the body. The cell is
/// tested before every turn, the first too. Each turn uses up one unit of
/// fuel, for the loops inside it as well.
pub open spec fn run_loop(body: Seq<Element>, machine: Machine, fuel: nat) -> Outcome
    decreases fuel, body, 1nat,
{
    match current_cell(machine) {
        None => Outcome::Fault,
        Some(word) => if word == 0 {
            Outcome::Finished(machine)
        } else if fuel == 0 {
            Outcome::OutOfFuel
        } else {
            match run_elements(body, machine, (fuel - 1) as nat) {
                Outcome::Finished(next) => run_loop(body, next, (fuel - 1) as nat),
                other => other,
            }
        },
    }
}

/// A run of the elements of a block, one after another.
pub open spec fn run_elements(block: Seq<Element>, machine: Machine, fuel: nat) -> Outcome
    decreases fuel, block, 0nat,
{
    if block.len() == 0 {
        Outcome::Finished(machine)
    } else {
        match run_element(block[0], machine, fuel) {
            Outcome::Finished(next) => run_elements(block.skip(1), next, fuel),
            other => other,
        }
    }
}

/// The number of branches that the code of an element takes, up to its end
/// or to the fault.
pub open spec fn branches_of_element(element: Element, machine: Machine, fuel: nat) -> nat
    decreases fuel, element, 0nat,
{
    match element {
        Element::Operation(op) => 0,
        Element::Loop(body) => 1 + branches_of_loop(body, machine, fuel),
    }
}

/// The number of branches that the code of a loop takes from its head on.
pub open spec fn branches_of_loop(body: Seq<Element>, machine: Machine, fuel: nat) -> nat
    decreases fuel, body, 1nat,
{
    match current_cell(machine) {
        None => 0,
        Some(word) => if word == 0 {
            1
        } else if fuel == 0 {
            0
        } else {
            1 + branches_of_elements(body, machine, (fuel - 1) as nat) + match run_elements(
                body,
                machine,
                (fuel - 1) as nat,
            ) {
                Outcome::Finished(next) => 1 + branches_of_loop(body, next, (fuel - 1) as nat),
                _ => 0,
            }
        },
    }
}

/// The number of branches that the code of a block's elements takes.
pub open spec fn branches_of_elements(block: Seq<Element>, machine: Machine, fuel: nat) -> nat
    decreases fuel, block, 0nat,
{
    if block.len() == 0 {
        0
    } else {
        branches_of_element(block[0], machine, fuel) + match run_element(
            block[0],
            machine,
            fuel,
        ) {
            Outcome::Finished(next) => branches_of_elements(block.skip(1), next, fuel),
            _ => 0,
        }
    }
}

} // verus!
