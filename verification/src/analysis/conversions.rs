//! Conversion of one cell to the value of a column type.
use super::types::ConversionResult;
use crate::text::{string_from_chars, trim, trimmed};
use crate::utils::{
    TimeUnit, is_null_text, parse_bool, parse_date_ymd, parse_timestamp, spec_is_null_text,
    spec_parse_bool, spec_parse_date_ymd, spec_parse_timestamp,
};
use vstd::prelude::*;

verus! {

/// `lexical_core::parse::<i64>` of the text's bytes, when it succeeds.
pub uninterp spec fn lexical_i64(text: Seq<char>) -> Option<i64>;

/// `lexical_core::parse::<u64>` of the text's bytes, when it succeeds.
pub uninterp spec fn lexical_u64(text: Seq<char>) -> Option<u64>;

/// Calls `lexical_core::parse::<i64>` on the UTF-8 bytes of `text`.
/// Claimed: the result is `lexical_i64(text)`.
#[verifier::external_body]
fn lexical_parse_i64(text: &str) -> (res: Option<i64>)
    ensures
        res == lexical_i64(text@),
{
    lexical_core::parse::<i64>(text.as_bytes()).ok()
}

/// Calls `lexical_core::parse::<u64>` on the UTF-8 bytes of `text`.
/// Claimed: the result is `lexical_u64(text)`.
#[verifier::external_body]
fn lexical_parse_u64(text: &str) -> (res: Option<u64>)
    ensures
        res == lexical_u64(text@),
{
    lexical_core::parse::<u64>(text.as_bytes()).ok()
}

/// A conversion outcome: a null marker, a value, or the raw text on failure.
pub open spec fn converts_as<T>(r: ConversionResult<T>, v: Seq<char>, parsed: Option<T>) -> bool {
    match r {
        ConversionResult::ExplicitNull => spec_is_null_text(v),
        ConversionResult::Valid(x) => !spec_is_null_text(v) && parsed == Some(x),
        ConversionResult::ConversionError(raw) => !spec_is_null_text(v) && parsed is None && raw@
            == v,
    }
}

/// The outcome for a cell that is not a null marker, given what parsing it gave.
pub fn parsed_outcome<T>(v: &str, parsed: Option<T>) -> (r: ConversionResult<T>)
    requires
        !spec_is_null_text(v@),
    ensures
        converts_as(r, v@, parsed),
{
    match parsed {
        Some(x) => ConversionResult::Valid(x),
        None => ConversionResult::ConversionError(v.to_owned()),
    }
}

pub fn convert_to_i64(v: &str) -> (r: ConversionResult<i64>)
    ensures
        converts_as(r, v@, lexical_i64(trim(v@))),
{
    if is_null_text(v) {
        return ConversionResult::ExplicitNull;
    }
    let t = string_from_chars(trimmed(v).as_slice());
    parsed_outcome(v, lexical_parse_i64(t.as_str()))
}

pub fn convert_to_u64(v: &str) -> (r: ConversionResult<u64>)
    ensures
        converts_as(r, v@, lexical_u64(trim(v@))),
{
    if is_null_text(v) {
        return ConversionResult::ExplicitNull;
    }
    let t = string_from_chars(trimmed(v).as_slice());
    parsed_outcome(v, lexical_parse_u64(t.as_str()))
}

pub fn convert_to_bool(v: &str) -> (r: ConversionResult<bool>)
    ensures
        converts_as(r, v@, spec_parse_bool(v@)),
{
    if is_null_text(v) {
        return ConversionResult::ExplicitNull;
    }
    parsed_outcome(v, parse_bool(v))
}

pub fn convert_to_date32(v: &str) -> (r: ConversionResult<i32>)
    ensures
        converts_as(r, v@, spec_parse_date_ymd(v@)),
{
    if is_null_text(v) {
        return ConversionResult::ExplicitNull;
    }
    parsed_outcome(v, parse_date_ymd(v))
}

/// Convert directly into ticks of the target unit so sub-millisecond
/// precision survives for microsecond and nanosecond columns.
pub fn convert_to_timestamp(v: &str, unit: TimeUnit) -> (r: ConversionResult<i64>)
    ensures
        converts_as(r, v@, spec_parse_timestamp(v@, unit)),
{
    if is_null_text(v) {
        return ConversionResult::ExplicitNull;
    }
    parsed_outcome(v, parse_timestamp(v, unit))
}

} // verus!
