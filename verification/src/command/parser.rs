//! Shared helpers for the command parsers: extracting arrays and bulk
//! strings out of a decoded frame, and validating shapes and names.

use vstd::prelude::*;

use crate::resp::Value;
use crate::resp::ValueModel;
use crate::resp::lemma_seq_models;
use crate::resp::seq_models;
use crate::text::eq_ignore_case;
use crate::text::upper_chars;

verus! {

/// Why a frame was not recognized as a given command.
#[derive(Clone, Copy, Debug, PartialEq, Eq, Structural)]
pub enum ParseError {
    /// The frame is not an array.
    ExpectedArray,
    /// An element that should be a bulk string is not.
    ExpectedBulkString,
    /// An element the command needs is missing.
    MissingElement,
    /// The array has the wrong number of elements.
    WrongArity,
    /// The first element does not name this command.
    WrongCommand,
    /// The second element does not name this subcommand.
    WrongSubCommand,
    /// The expiry argument is not a decimal number of milliseconds.
    BadExpiry,
    /// No command parser recognizes the frame.
    UnsupportedCommand,
}

/// The elements of an array frame.
pub fn extract_array(value: &Value) -> (r: Result<&[Value], ParseError>)
    ensures
        (r is Ok) <==> value@ is Array,
        r matches Ok(a) ==> value@ == ValueModel::Array(seq_models(a@)),
        r is Err ==> r == Err::<&[Value], ParseError>(ParseError::ExpectedArray),
{
    match value {
        Value::Array(arr) => Ok(arr.as_slice()),
        _ => Err(ParseError::ExpectedArray),
    }
}

/// The text of the bulk string at `index`.
pub fn extract_bulk_string(array: &[Value], index: usize) -> (r: Result<&str, ParseError>)
    ensures
        (r is Ok) <==> (index < array@.len() && seq_models(array@)[index as int] is BulkString),
        r matches Ok(s) ==> s@ == seq_models(array@)[index as int]->BulkString_0,
        index >= array@.len() ==> r == Err::<&str, ParseError>(ParseError::MissingElement),
        (index < array@.len() && !(seq_models(array@)[index as int] is BulkString)) ==> r == Err::<
            &str,
            ParseError,
        >(ParseError::ExpectedBulkString),
{
    proof {
        lemma_seq_models(array@);
    }
    if index >= array.len() {
        return Err(ParseError::MissingElement);
    }
    match &array[index] {
        Value::BulkString(s) => Ok(s.as_str()),
        _ => Err(ParseError::ExpectedBulkString),
    }
}

/// What `validate_main_command` and `validate_sub_command` decide, over the
/// element at `index`: the element must be a bulk string whose ASCII
/// upper-casing equals that of the expected name.
pub open spec fn name_check(
    ms: Seq<ValueModel>,
    index: int,
    expected: Seq<char>,
    mismatch: ParseError,
) -> Result<(), ParseError> {
    if index >= ms.len() {
        Result::Err(ParseError::MissingElement)
    } else if !(ms[index] is BulkString) {
        Result::Err(ParseError::ExpectedBulkString)
    } else if upper_chars(ms[index]->BulkString_0) != upper_chars(expected) {
        Result::Err(mismatch)
    } else {
        Result::Ok(())
    }
}

/// The first element must name the command, up to ASCII case.
pub fn validate_main_command(array: &[Value], expected: &str) -> (r: Result<(), ParseError>)
    ensures
        r == name_check(seq_models(array@), 0, expected@, ParseError::WrongCommand),
{
    proof {
        lemma_seq_models(array@);
    }
    match extract_bulk_string(array, 0) {
        Err(e) => Err(e),
        Ok(cmd) => {
            if eq_ignore_case(cmd, expected) {
                Ok(())
            } else {
                Err(ParseError::WrongCommand)
            }
        },
    }
}

/// The second element must name the subcommand, up to ASCII case.
pub fn validate_sub_command(array: &[Value], expected: &str) -> (r: Result<(), ParseError>)
    ensures
        r == name_check(seq_models(array@), 1, expected@, ParseError::WrongSubCommand),
{
    proof {
        lemma_seq_models(array@);
    }
    match extract_bulk_string(array, 1) {
        Err(e) => Err(e),
        Ok(cmd) => {
            if eq_ignore_case(cmd, expected) {
                Ok(())
            } else {
                Err(ParseError::WrongSubCommand)
            }
        },
    }
}

/// The array must have exactly `expected` elements.
pub fn validate_array_length(array: &[Value], expected: usize) -> (r: Result<(), ParseError>)
    ensures
        (r is Ok) <==> array@.len() == expected,
        r is Err ==> r == Err::<(), ParseError>(ParseError::WrongArity),
{
    if array.len() != expected {
        return Err(ParseError::WrongArity);
    }
    Ok(())
}

/// The array must have at least `min` elements.
pub fn validate_min_array_length(array: &[Value], min: usize) -> (r: Result<(), ParseError>)
    ensures
        (r is Ok) <==> array@.len() >= min,
        r is Err ==> r == Err::<(), ParseError>(ParseError::WrongArity),
{
    if array.len() < min {
        return Err(ParseError::WrongArity);
    }
    Ok(())
}

} // verus!
