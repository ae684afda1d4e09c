//! What the two callbacks of compiled code compute, apart from their I/O: the
//! word that a read hands to the program, and the character that a write
//! hands on.

use crate::compiler::machine::END_OF_INPUT;
use vstd::prelude::*;

verus! {

/// The word for what was read: the byte, widened to the width of a cell, or
/// `END_OF_INPUT` where the input has ended.
pub open spec fn word_of_input(byte: Option<u8>) -> i32 {
    match byte {
        Some(byte) => byte as i32,
        None => END_OF_INPUT,
    }
}

/// The low eight bits of a word.
pub open spec fn low_byte(word: i32) -> int {
    word as int % 256
}

/// The word that the read callback returns for the byte that it read, or for
/// the end of the input.
pub fn input_word(byte: Option<u8>) -> (word: i32)
    ensures
        word == word_of_input(byte),
{
    match byte {
        Some(byte) => byte as i32,
        None => END_OF_INPUT,
    }
}

/// The character that the write callback emits for a word: its low eight
/// bits.
pub fn output_byte(word: i32) -> (byte: u8)
    ensures
        byte == low_byte(word),
{
    match word.checked_rem_euclid(256) {
        Some(low) => low as u8,
        None => 0,
    }
}

} // verus!
