//! Reading typed fields out of the entries of an object.

use crate::parse::value::{entries_view, find_entry, lookup, ClxTree, ClxValue};
use crate::types::experiment::text_of;
use crate::types::number::Number;
use vstd::prelude::*;

verus! {

/// The field `key` read as an unsigned 32-bit number.
pub open spec fn field_u32(entries: Seq<(Seq<char>, ClxTree)>, key: Seq<char>) -> Option<u32> {
    match lookup(entries, key) {
        Some(t) => t.as_u32(),
        None => None,
    }
}

/// The field `key` read as a truth value.
pub open spec fn field_flag(entries: Seq<(Seq<char>, ClxTree)>, key: Seq<char>) -> Option<bool> {
    match lookup(entries, key) {
        Some(t) => t.as_flag(),
        None => None,
    }
}

/// The field `key` read as a real number.
pub open spec fn field_number(entries: Seq<(Seq<char>, ClxTree)>, key: Seq<char>) -> Option<
    Number,
> {
    match lookup(entries, key) {
        Some(t) => t.as_number(),
        None => None,
    }
}

/// The field `key` read as a real number, zero where it is missing or
/// not a number.
pub open spec fn field_number_or_zero(
    entries: Seq<(Seq<char>, ClxTree)>,
    key: Seq<char>,
) -> Number {
    match field_number(entries, key) {
        Some(n) => n,
        None => Number::Float(0),
    }
}

/// The field `key` read as text.
pub open spec fn field_text(entries: Seq<(Seq<char>, ClxTree)>, key: Seq<char>) -> Option<
    Seq<char>,
> {
    match lookup(entries, key) {
        Some(t) => t.as_text(),
        None => None,
    }
}

/// Reads the field `key` as an unsigned 32-bit number.
pub fn get_u32(entries: &Vec<(String, ClxValue)>, key: &str) -> (value: Option<u32>)
    ensures
        value == field_u32(entries_view(entries@), key@),
{
    match find_entry(entries, key) {
        Some(v) => v.to_u32(),
        None => None,
    }
}

/// Reads the field `key` as a truth value.
pub fn get_flag(entries: &Vec<(String, ClxValue)>, key: &str) -> (value: Option<bool>)
    ensures
        value == field_flag(entries_view(entries@), key@),
{
    match find_entry(entries, key) {
        Some(v) => v.to_flag(),
        None => None,
    }
}

/// Reads the field `key` as a real number.
pub fn get_number(entries: &Vec<(String, ClxValue)>, key: &str) -> (value: Option<Number>)
    ensures
        value == field_number(entries_view(entries@), key@),
{
    match find_entry(entries, key) {
        Some(v) => v.to_number(),
        None => None,
    }
}

/// Reads the field `key` as a real number, zero where it is missing or
/// not a number.
pub fn get_number_or_zero(entries: &Vec<(String, ClxValue)>, key: &str) -> (value: Number)
    ensures
        value == field_number_or_zero(entries_view(entries@), key@),
{
    match get_number(entries, key) {
        Some(n) => n,
        None => Number::Float(0),
    }
}

/// Reads the field `key` as text.
pub fn get_text(entries: &Vec<(String, ClxValue)>, key: &str) -> (value: Option<String>)
    ensures
        text_of(value) == field_text(entries_view(entries@), key@),
{
    match find_entry(entries, key) {
        Some(v) => match v {
            ClxValue::String(s) => Some(s.clone()),
            _ => None,
        },
        None => None,
    }
}

} // verus!
