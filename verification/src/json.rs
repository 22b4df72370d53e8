//! A plain tree of JSON values and the lookups the payload readers need.

use vstd::prelude::*;
use crate::text::{chars_of, parse_decimal, decimal_within};

verus! {

/// A JSON document. A number is kept as the decimal text it prints as, so
/// that no floating-point value is ever held; an object is the list of its
/// members.
#[derive(Debug, PartialEq, Eq)]
pub enum Json {
    Null,
    Bool(bool),
    Number(String),
    Text(String),
    Array(Vec<Json>),
    Object(Vec<(String, Json)>),
}

/// Declares `serde_json::Value`, whose inside stays hidden: a value of it is
/// only ever copied into a [`Json`].
#[verifier::external_type_specification]
#[verifier::external_body]
pub struct ExJsonValue(serde_json::Value);

/// The document that `serde_json` reads from a text, or `None` where it
/// rejects the text.
pub uninterp spec fn json_of(text: Seq<char>) -> Option<Json>;

/// What a `serde_json::Value` holds, as a [`Json`]: a number as the text
/// that its `Display` prints, an object as its members in the order in which
/// the map yields them.
pub uninterp spec fn json_held(value: serde_json::Value) -> Json;

/// Trusted: `serde_json::from_str` into a `serde_json::Value`. The outcome
/// depends on the text alone: the same text always gives a value that holds
/// the same document, or is always rejected.
#[verifier::external_body]
fn parse_value(text: &str) -> (out: Option<serde_json::Value>)
    ensures
        match out {
            Some(value) => json_of(text@) == Some(json_held(value)),
            None => json_of(text@) is None,
        },
{
    match serde_json::from_str::<serde_json::Value>(text) {
        Ok(value) => Some(value),
        Err(_) => None,
    }
}

/// Trusted: copies what a `serde_json::Value` holds into a [`Json`], variant
/// by variant, through `Number`'s `to_string` and the iterators of its array
/// and its map.
#[verifier::external_body]
fn json_from_value(value: &serde_json::Value) -> (out: Json)
    ensures
        out == json_held(*value),
{
    match value {
        serde_json::Value::Null => Json::Null,
        serde_json::Value::Bool(b) => Json::Bool(*b),
        serde_json::Value::Number(n) => Json::Number(n.to_string()),
        serde_json::Value::String(s) => Json::Text(s.clone()),
        serde_json::Value::Array(items) => Json::Array(items.iter().map(json_from_value).collect()),
        serde_json::Value::Object(members) => Json::Object(
            members.iter().map(|(k, v)| (k.clone(), json_from_value(v))).collect(),
        ),
    }
}

/// Reads a document from text.
pub(crate) fn read_json(text: &str) -> (out: Option<Json>)
    ensures
        out == json_of(text@),
{
    match parse_value(text) {
        Some(value) => Some(json_from_value(&value)),
        None => None,
    }
}

/// The first member of `members` named `key`, from position `from` on.
pub open spec fn member_from(members: Seq<(String, Json)>, key: Seq<char>, from: int) -> Option<Json>
    decreases members.len() - from,
{
    if from < 0 || from >= members.len() {
        None
    } else if members[from].0@ == key {
        Some(members[from].1)
    } else {
        member_from(members, key, from + 1)
    }
}

/// The integer that a number's text denotes: an optional minus sign and
/// decimal digits, within the range of `i64`. Fractions and exponents denote
/// none.
pub open spec fn integer_of(text: Seq<char>) -> Option<int> {
    if text.len() > 0 && text[0] == '-' {
        match decimal_within(text.skip(1), 0x8000_0000_0000_0000) {
            Some(v) => Some(-(v as int)),
            None => None,
        }
    } else {
        match decimal_within(text, 0x7fff_ffff_ffff_ffff) {
            Some(v) => Some(v as int),
            None => None,
        }
    }
}

impl Json {
    /// The elements, when this is an array.
    pub open spec fn elements(self) -> Option<Seq<Json>> {
        match self {
            Json::Array(items) => Some(items@),
            _ => None,
        }
    }

    /// The first member named `key`, when this is an object that has one.
    pub open spec fn member(self, key: Seq<char>) -> Option<Json> {
        match self {
            Json::Object(members) => member_from(members@, key, 0),
            _ => None,
        }
    }

    /// The characters, when this is a string.
    pub open spec fn text(self) -> Option<Seq<char>> {
        match self {
            Json::Text(s) => Some(s@),
            _ => None,
        }
    }

    /// The value, when this is a number that is an integer in `i64`.
    pub open spec fn integer(self) -> Option<int> {
        match self {
            Json::Number(s) => integer_of(s@),
            _ => None,
        }
    }

    /// The string member `key`, if there is one.
    pub open spec fn text_member(self, key: Seq<char>) -> Option<Seq<char>> {
        match self.member(key) {
            Some(v) => v.text(),
            None => None,
        }
    }

    /// The integer member `key`, if there is one.
    pub open spec fn integer_member(self, key: Seq<char>) -> Option<int> {
        match self.member(key) {
            Some(v) => v.integer(),
            None => None,
        }
    }

    /// The elements of an array; `None` for any other value.
    pub fn as_elements(&self) -> (out: Option<&Vec<Json>>)
        ensures
            match self.elements() {
                Some(items) => out is Some && out->0@ == items,
                None => out is None,
            },
    {
        match self {
            Json::Array(items) => Some(items),
            _ => None,
        }
    }

    /// The first member of an object whose name is `key`; `None` where there
    /// is none or the value is no object.
    pub fn get(&self, key: &str) -> (out: Option<&Json>)
        ensures
            match self.member(key@) {
                Some(v) => out is Some && *out->0 == v,
                None => out is None,
            },
    {
        match self {
            Json::Object(members) => {
                let wanted = key.to_owned();
                let mut i: usize = members.len();
                let mut found: Option<&Json> = None;
                while i > 0
                    invariant
                        0 <= i <= members.len(),
                        wanted@ == key@,
                        match member_from(members@, key@, i as int) {
                            Some(v) => found is Some && *found->0 == v,
                            None => found is None,
                        },
                    decreases i,
                {
                    i -= 1;
                    if members[i].0 == wanted {
                        found = Some(&members[i].1);
                    }
                }
                found
            },
            _ => None,
        }
    }

    /// The characters of a string value, copied; `None` for any other value.
    pub fn as_text(&self) -> (out: Option<String>)
        ensures
            match self.text() {
                Some(s) => out is Some && out->0@ == s,
                None => out is None,
            },
    {
        match self {
            Json::Text(s) => Some(s.clone()),
            _ => None,
        }
    }

    /// The value of a number that is an integer in the range of `i64`;
    /// `None` for a fraction, a number out of that range, or any other value.
    pub fn as_integer(&self) -> (out: Option<i64>)
        ensures
            match self.integer() {
                Some(v) => out == Some(v as i64),
                None => out is None,
            },
    {
        match self {
            Json::Number(s) => {
                let chars = chars_of(s.as_str());
                if chars.len() > 0 && chars[0] == '-' {
                    let digits = vstd::slice::slice_subrange(chars.as_slice(), 1, chars.len());
                    assert(digits@ == s@.skip(1));
                    match parse_decimal(digits, 0x8000_0000_0000_0000) {
                        Some(v) => {
                            if v == 0x8000_0000_0000_0000 {
                                Some(i64::MIN)
                            } else {
                                Some(0 - (v as i64))
                            }
                        },
                        None => None,
                    }
                } else {
                    match parse_decimal(chars.as_slice(), 0x7fff_ffff_ffff_ffff) {
                        Some(v) => Some(v as i64),
                        None => None,
                    }
                }
            },
            _ => None,
        }
    }

    /// The string member `key`, copied, if there is one.
    pub fn text_field(&self, key: &str) -> (out: Option<String>)
        ensures
            match self.text_member(key@) {
                Some(s) => out is Some && out->0@ == s,
                None => out is None,
            },
    {
        match self.get(key) {
            Some(v) => v.as_text(),
            None => None,
        }
    }

    /// The integer member `key`, if there is one.
    pub fn integer_field(&self, key: &str) -> (out: Option<i64>)
        ensures
            match self.integer_member(key@) {
                Some(v) => out == Some(v as i64),
                None => out is None,
            },
    {
        match self.get(key) {
            Some(v) => v.as_integer(),
            None => None,
        }
    }
}

} // verus!
