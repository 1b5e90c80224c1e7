//! Conversion of human-readable literals (durations, timestamps and byte
//! sizes) into exact integer values, with precise errors.
//!
//! Each entry point takes the tokens of one literal's input and gives either
//! the integers that the constant is built from, or an error anchored to the
//! offending token.

pub mod byte_count;
pub mod duration_literal;
pub mod error;
pub mod number;
pub mod timestamp;
pub mod token;

use vstd::prelude::*;
use crate::byte_count::{byte_count_result, convert_byte_count};
use crate::duration_literal::{
    bounded_duration_text, convert_duration, duration_input, duration_result, DurationMacroInput,
};
use crate::error::{fails_with, matches_outcome, LitError};
use crate::timestamp::{convert_timestamp, timestamp_result};
use crate::token::{read_single_string, single_string, token_text, Token};

verus! {

/// A duration literal, `"text" [ ('*' | '/') number ]`, as whole seconds and
/// nanoseconds. The text holds at most eleven digits (see
/// `duration_literal::duration_text_is_bounded`).
pub fn duration(tokens: &Vec<Token>) -> (r: Result<(u64, u32), LitError>)
    requires
        tokens@.len() > 0 && tokens@[0] is Str ==> bounded_duration_text(token_text(tokens@[0])),
    ensures
        match duration_input(tokens@) {
            Err((k, p)) => fails_with(r, k, p, Seq::empty(), Seq::empty()),
            Ok((s, q)) => matches_outcome(r, duration_result(s, q), s),
        },
{
    let input = DurationMacroInput::parse(tokens)?;
    convert_duration(input.duration.as_str(), &input.modifier)
}

/// A timestamp literal, `"text"`, as seconds and nanoseconds since the epoch.
pub fn datetime(tokens: &Vec<Token>) -> (r: Result<(u64, u32), LitError>)
    ensures
        match single_string(tokens@) {
            Err((k, p)) => fails_with(r, k, p, Seq::empty(), Seq::empty()),
            Ok(s) => matches_outcome(r, timestamp_result(s), s),
        },
{
    let text = read_single_string(tokens)?;
    convert_timestamp(text.as_str())
}

/// A byte-size literal, `"text"`, as a count of bytes that fits an integer
/// of `bits` bits.
pub fn bytes(tokens: &Vec<Token>, bits: u32) -> (r: Result<u64, LitError>)
    ensures
        match single_string(tokens@) {
            Err((k, p)) => fails_with(r, k, p, Seq::empty(), Seq::empty()),
            Ok(s) => matches_outcome(r, byte_count_result(s, bits), s),
        },
{
    let text = read_single_string(tokens)?;
    convert_byte_count(text.as_str(), bits)
}

} // verus!
