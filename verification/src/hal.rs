//! The data values that a Hoplite application declaration evaluates to,
//! and the accessors that the configuration reader uses on them.

use vstd::prelude::*;
use crate::text::{chars_of, owned, push_str, same_chars};

verus! {

/// A HAL data value: what an application declaration evaluates to.
#[derive(Debug)]
pub enum HalValue {
    Nil,
    Bool(bool),
    Number(i64),
    String(String),
    Keyword(String),
    Symbol(String),
    /// An immutable byte string.
    Bytes(Vec<u8>),
    /// The current contents of a mutable byte buffer.
    ByteBuffer(Vec<u8>),
    /// A var: its qualified symbol and the value it holds.
    Var(String, Box<HalValue>),
    List(Vec<HalValue>),
    Vector(Vec<HalValue>),
    /// A set: its members in the set's order.
    Members(Vec<HalValue>),
    Tuple(Vec<HalValue>),
    /// A map's entries in the map's order.
    Mapping(Vec<(HalValue, HalValue)>),
}

/// The entries of a map value.
pub open spec fn map_entries(value: HalValue) -> Option<Seq<(HalValue, HalValue)>> {
    match value {
        HalValue::Mapping(entries) => Some(entries@),
        _ => None,
    }
}

/// The items of a list or vector value.
pub open spec fn sequence_items(value: HalValue) -> Option<Seq<HalValue>> {
    match value {
        HalValue::List(items) => Some(items@),
        HalValue::Vector(items) => Some(items@),
        _ => None,
    }
}

pub open spec fn is_keyword(value: HalValue, name: Seq<char>) -> bool {
    match value {
        HalValue::Keyword(k) => k@ == name,
        _ => false,
    }
}

/// The index of the first entry whose key is the keyword `name`, at or
/// after `from`.
pub open spec fn entry_index(entries: Seq<(HalValue, HalValue)>, name: Seq<char>, from: int) -> Option<int>
    decreases entries.len() - from,
{
    if from < 0 || from >= entries.len() {
        None
    } else if is_keyword(entries[from].0, name) {
        Some(from)
    } else {
        entry_index(entries, name, from + 1)
    }
}

/// The value under the keyword `name` of a map (the first such entry).
pub open spec fn field_value(value: HalValue, name: Seq<char>) -> Option<HalValue> {
    match map_entries(value) {
        Some(entries) => match entry_index(entries, name, 0) {
            Some(i) => Some(entries[i].1),
            None => None,
        },
        None => None,
    }
}

/// The text of a string, keyword or symbol.
pub open spec fn text_value(value: HalValue) -> Option<Seq<char>> {
    match value {
        HalValue::String(s) => Some(s@),
        HalValue::Keyword(s) => Some(s@),
        HalValue::Symbol(s) => Some(s@),
        _ => None,
    }
}

pub open spec fn keyword_value(value: HalValue) -> Option<Seq<char>> {
    match value {
        HalValue::Keyword(s) => Some(s@),
        _ => None,
    }
}

pub open spec fn number_value(value: HalValue) -> Option<i64> {
    match value {
        HalValue::Number(n) => Some(n),
        _ => None,
    }
}

pub open spec fn keyword_field(value: HalValue, name: Seq<char>) -> Option<Seq<char>> {
    match field_value(value, name) {
        Some(v) => keyword_value(v),
        None => None,
    }
}

pub open spec fn number_field(value: HalValue, name: Seq<char>) -> Option<i64> {
    match field_value(value, name) {
        Some(v) => number_value(v),
        None => None,
    }
}

pub open spec fn text_field(value: HalValue, name: Seq<char>) -> Option<Seq<char>> {
    match field_value(value, name) {
        Some(v) => text_value(v),
        None => None,
    }
}

pub open spec fn sequence_field(value: HalValue, name: Seq<char>) -> Option<Seq<HalValue>> {
    match field_value(value, name) {
        Some(v) => sequence_items(v),
        None => None,
    }
}

/// Whether the value is the keyword `name`.
pub fn keyword_is(value: &HalValue, name: &str) -> (r: bool)
    ensures
        r == is_keyword(*value, name@),
{
    match value {
        HalValue::Keyword(k) => {
            let a = chars_of(k.as_str());
            let b = chars_of(name);
            same_chars(a.as_slice(), b.as_slice())
        },
        _ => false,
    }
}

/// The value under the keyword `name`, when the value is a map that has
/// one.
pub fn field<'a>(value: &'a HalValue, name: &str) -> (r: Option<&'a HalValue>)
    ensures
        match r {
            Some(v) => field_value(*value, name@) == Some(*v),
            None => field_value(*value, name@) is None,
        },
{
    match value {
        HalValue::Mapping(entries) => {
            let mut i: usize = 0;
            while i < entries.len()
                invariant
                    i <= entries@.len(),
                    map_entries(*value) == Some(entries@),
                    entry_index(entries@, name@, 0) == entry_index(entries@, name@, i as int),
                decreases entries@.len() - i,
            {
                if keyword_is(&entries[i].0, name) {
                    return Some(&entries[i].1);
                }
                i = i + 1;
            }
            None
        },
        _ => None,
    }
}

/// The items of a list or vector.
pub fn sequence<'a>(value: &'a HalValue) -> (r: Option<&'a Vec<HalValue>>)
    ensures
        match r {
            Some(items) => sequence_items(*value) == Some(items@),
            None => sequence_items(*value) is None,
        },
{
    match value {
        HalValue::List(items) => Some(items),
        HalValue::Vector(items) => Some(items),
        _ => None,
    }
}

pub fn text_of(value: &HalValue) -> (r: Option<String>)
    ensures
        match r {
            Some(s) => text_value(*value) == Some(s@),
            None => text_value(*value) is None,
        },
{
    match value {
        HalValue::String(s) => Some(owned(s.as_str())),
        HalValue::Keyword(s) => Some(owned(s.as_str())),
        HalValue::Symbol(s) => Some(owned(s.as_str())),
        _ => None,
    }
}

/// The text of a string, keyword or symbol, or `{context} must be text`.
pub fn text(value: &HalValue, context: &str) -> (r: Result<String, String>)
    ensures
        match r {
            Ok(s) => text_value(*value) == Some(s@),
            Err(message) => text_value(*value) is None && message@ == context@ + " must be text"@,
        },
{
    match text_of(value) {
        Some(s) => Ok(s),
        None => {
            let mut message = owned(context);
            push_str(&mut message, " must be text");
            Err(message)
        },
    }
}

pub fn keyword_field_of(value: &HalValue, name: &str) -> (r: Option<String>)
    ensures
        match r {
            Some(s) => keyword_field(*value, name@) == Some(s@),
            None => keyword_field(*value, name@) is None,
        },
{
    match field(value, name) {
        Some(HalValue::Keyword(k)) => Some(owned(k.as_str())),
        _ => None,
    }
}

pub fn number_field_of(value: &HalValue, name: &str) -> (r: Option<i64>)
    ensures
        r == number_field(*value, name@),
{
    match field(value, name) {
        Some(HalValue::Number(n)) => Some(*n),
        _ => None,
    }
}

pub fn text_field_of(value: &HalValue, name: &str) -> (r: Option<String>)
    ensures
        match r {
            Some(s) => text_field(*value, name@) == Some(s@),
            None => text_field(*value, name@) is None,
        },
{
    match field(value, name) {
        Some(v) => text_of(v),
        None => None,
    }
}

pub fn sequence_field_of<'a>(value: &'a HalValue, name: &str) -> (r: Option<&'a Vec<HalValue>>)
    ensures
        match r {
            Some(items) => sequence_field(*value, name@) == Some(items@),
            None => sequence_field(*value, name@) is None,
        },
{
    match field(value, name) {
        Some(v) => sequence(v),
        None => None,
    }
}

} // verus!
