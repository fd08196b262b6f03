//! Numbers that the subgraph APIs send as JSON text inside strings.
use vstd::prelude::*;

verus! {

/// The i32 that `serde_json` reads from a JSON text, if it reads one.
pub uninterp spec fn json_i32(text: Seq<char>) -> Option<i32>;

/// The u32 that `serde_json` reads from a JSON text, if it reads one.
pub uninterp spec fn json_u32(text: Seq<char>) -> Option<u32>;

/// `serde_json::from_str::<i32>`: the number in the text, or `None` when
/// the text is not a JSON number that fits an i32.
#[verifier::external_body]
fn parse_json_i32(text: &str) -> (r: Option<i32>)
    ensures
        r == json_i32(text@),
{
    match serde_json::from_str::<i32>(text) {
        Ok(v) => Some(v),
        Err(_) => None,
    }
}

/// `serde_json::from_str::<u32>`: the number in the text, or `None` when
/// the text is not a JSON number that fits a u32.
#[verifier::external_body]
fn parse_json_u32(text: &str) -> (r: Option<u32>)
    ensures
        r == json_u32(text@),
{
    match serde_json::from_str::<u32>(text) {
        Ok(v) => Some(v),
        Err(_) => None,
    }
}

/// Why a number could not be read from its string.
#[derive(Debug, Clone, Copy, PartialEq, Eq, Structural)]
pub enum NumberParseError {
    /// The string does not hold a JSON number of the expected type.
    InvalidNumber,
}

/// A tick sent as an optional string: absent means tick 0, present must
/// hold the tick as JSON.
pub fn tick_from_str(value: Option<&str>) -> (r: Result<i32, NumberParseError>)
    ensures
        value is None ==> r == Ok::<i32, NumberParseError>(0),
        value matches Some(s) ==> r == match json_i32(s@) {
            Some(t) => Ok::<i32, NumberParseError>(t),
            None => Err(NumberParseError::InvalidNumber),
        },
{
    match value {
        None => Ok(0),
        Some(s) => match parse_json_i32(s) {
            Some(t) => Ok(t),
            None => Err(NumberParseError::InvalidNumber),
        },
    }
}

/// A u32 sent as a string holding its JSON text.
pub fn u32_from_str(value: &str) -> (r: Result<u32, NumberParseError>)
    ensures
        r == match json_u32(value@) {
            Some(t) => Ok::<u32, NumberParseError>(t),
            None => Err(NumberParseError::InvalidNumber),
        },
{
    match parse_json_u32(value) {
        Some(t) => Ok(t),
        None => Err(NumberParseError::InvalidNumber),
    }
}

} // verus!
