//! JSON values of `serde_json`, read and written through a few trusted calls.
//!
//! A value is opaque to the proofs. What it holds has a name, and the functions
//! that read a request or a frame are stated over it; what they make of it is
//! proved.

use serde_json::Value;
use vstd::prelude::*;

verus! {

/// The value type of `serde_json`.
#[verifier::external_type_specification]
#[verifier::external_body]
pub struct ExValue(serde_json::Value);

/// What a JSON value holds.
pub enum JsonView {
    Null,
    Bool(bool),
    /// A number: its value if it is an unsigned 64-bit integer, and its text.
    Number { unsigned: Option<u64>, text: Seq<char> },
    Text(Seq<char>),
    Array(Seq<JsonView>),
    Object(Map<Seq<char>, JsonView>),
}

impl JsonView {
    /// The member of an object under a key; `None` if there is none or the
    /// value is not an object.
    pub open spec fn member(self, key: Seq<char>) -> Option<JsonView> {
        match self {
            JsonView::Object(m) => if m.contains_key(key) {
                Some(m[key])
            } else {
                None
            },
            _ => None,
        }
    }

    /// The text of a string value.
    pub open spec fn text(self) -> Option<Seq<char>> {
        match self {
            JsonView::Text(t) => Some(t),
            _ => None,
        }
    }

    /// The truth value of a boolean value.
    pub open spec fn truth(self) -> Option<bool> {
        match self {
            JsonView::Bool(b) => Some(b),
            _ => None,
        }
    }

    /// The number of a value that is an unsigned 64-bit integer.
    pub open spec fn unsigned(self) -> Option<u64> {
        match self {
            JsonView::Number { unsigned, text: _ } => unsigned,
            _ => None,
        }
    }

    /// The items of an array value.
    pub open spec fn items(self) -> Option<Seq<JsonView>> {
        match self {
            JsonView::Array(a) => Some(a),
            _ => None,
        }
    }

    /// The string member under `key`.
    pub open spec fn member_text(self, key: Seq<char>) -> Option<Seq<char>> {
        match self.member(key) {
            Some(m) => m.text(),
            None => None,
        }
    }

    /// The boolean member under `key`.
    pub open spec fn member_truth(self, key: Seq<char>) -> Option<bool> {
        match self.member(key) {
            Some(m) => m.truth(),
            None => None,
        }
    }

    /// The unsigned member under `key`.
    pub open spec fn member_unsigned(self, key: Seq<char>) -> Option<u64> {
        match self.member(key) {
            Some(m) => m.unsigned(),
            None => None,
        }
    }
}

/// What a value of `serde_json` holds.
pub uninterp spec fn json_of(v: serde_json::Value) -> JsonView;

/// The views of a list of values.
pub open spec fn all_json_of(list: Seq<Value>) -> Seq<JsonView> {
    Seq::new(list.len(), |i: int| json_of(list[i]))
}

/// What a JSON text denotes; `None` if it is not valid JSON.
pub uninterp spec fn json_parsed(text: Seq<u8>) -> Option<JsonView>;

/// The compact JSON text of what a value holds.
pub uninterp spec fn json_compact(v: JsonView) -> Seq<char>;

/// `serde_json::from_slice` into a value: what the bytes denote, if they are
/// valid JSON, depends on the bytes alone. Which bytes those are is not stated.
#[verifier::external_body]
pub(crate) fn parse_json(bytes: &[u8]) -> (r: Option<Value>)
    ensures
        match r {
            Some(v) => json_parsed(bytes@) == Some(json_of(v)),
            None => json_parsed(bytes@) is None,
        },
{
    serde_json::from_slice::<Value>(bytes).ok()
}

/// `serde_json::Value::get` with a string key: the object's member of that key,
/// nothing for another kind of value.
#[verifier::external_body]
pub(crate) fn member<'a>(v: &'a Value, key: &str) -> (r: Option<&'a Value>)
    ensures
        match r {
            Some(m) => json_of(*v).member(key@) == Some(json_of(*m)),
            None => json_of(*v).member(key@) is None,
        },
{
    v.get(key)
}

/// `serde_json::Value::as_str`: the text of a string value, nothing for another
/// kind.
#[verifier::external_body]
pub(crate) fn string_value(v: &Value) -> (r: Option<&str>)
    ensures
        match r {
            Some(s) => json_of(*v).text() == Some(s@),
            None => json_of(*v).text() is None,
        },
{
    v.as_str()
}

/// `serde_json::Value::as_bool`: the truth value of a boolean value, nothing
/// for another kind.
#[verifier::external_body]
pub(crate) fn bool_value(v: &Value) -> (r: Option<bool>)
    ensures
        r == json_of(*v).truth(),
{
    v.as_bool()
}

/// `serde_json::Value::as_u64`: the number of an unsigned 64-bit integer value,
/// nothing for another number or another kind.
#[verifier::external_body]
pub(crate) fn u64_value(v: &Value) -> (r: Option<u64>)
    ensures
        r == json_of(*v).unsigned(),
{
    v.as_u64()
}

/// `serde_json::Value::as_array`: the items of an array value, nothing for
/// another kind.
#[verifier::external_body]
pub(crate) fn array_value(v: &Value) -> (r: Option<&Vec<Value>>)
    ensures
        match r {
            Some(items) => json_of(*v).items() == Some(all_json_of(items@)),
            None => json_of(*v).items() is None,
        },
{
    v.as_array()
}

/// `serde_json::Value::to_string`, which is its `Display`: the compact JSON
/// text of the value, which for a number is the number's own text. It depends on
/// what the value holds and on nothing else, for objects keep their members
/// ordered by key. How values other than numbers are written is not stated.
#[verifier::external_body]
pub(crate) fn compact_text(v: &Value) -> (r: String)
    ensures
        r@ == json_compact(json_of(*v)),
        json_of(*v) is Number ==> r@ == json_of(*v)->text,
{
    v.to_string()
}

/// The lower-case hexadecimal digit of a number below 16.
pub open spec fn hex_digit(d: int) -> char {
    if d < 10 {
        crate::text::digit_char(d)
    } else if d == 10 {
        'a'
    } else if d == 11 {
        'b'
    } else if d == 12 {
        'c'
    } else if d == 13 {
        'd'
    } else if d == 14 {
        'e'
    } else {
        'f'
    }
}

/// One character inside a JSON string: quotes, backslashes and control
/// characters are escaped, everything else stands for itself.
pub open spec fn json_escaped(c: char) -> Seq<char> {
    let v = c as int;
    if c == '"' {
        seq!['\\', '"']
    } else if c == '\\' {
        seq!['\\', '\\']
    } else if v == 0x08 {
        seq!['\\', 'b']
    } else if v == 0x09 {
        seq!['\\', 't']
    } else if v == 0x0a {
        seq!['\\', 'n']
    } else if v == 0x0c {
        seq!['\\', 'f']
    } else if v == 0x0d {
        seq!['\\', 'r']
    } else if v < 0x20 {
        seq!['\\', 'u', '0', '0', hex_digit(v / 16), hex_digit(v % 16)]
    } else {
        seq![c]
    }
}

/// The characters of `s`, escaped for a JSON string.
pub open spec fn json_escapes(s: Seq<char>) -> Seq<char>
    decreases s.len(),
{
    if s.len() == 0 {
        Seq::empty()
    } else {
        json_escapes(s.drop_last()) + json_escaped(s.last())
    }
}

/// `s` as a JSON string.
pub open spec fn json_quoted(s: Seq<char>) -> Seq<char> {
    seq!['"'] + json_escapes(s) + seq!['"']
}

/// `serde_json::to_string` of a string slice: the text between quotes, with
/// quotes, backslashes and control characters escaped. Writing to memory cannot
/// fail, so there is always a text.
#[verifier::external_body]
pub(crate) fn quote(s: &str) -> (r: String)
    ensures
        r@ == json_quoted(s@),
{
    serde_json::to_string(s).unwrap_or_default()
}

// ---- Reading members ----

/// Reads the string member of `v` under `key`.
pub fn read_string<'a>(v: &'a Value, key: &str) -> (r: Option<&'a str>)
    ensures
        match r {
            Some(s) => json_of(*v).member_text(key@) == Some(s@),
            None => json_of(*v).member_text(key@) is None,
        },
{
    match member(v, key) {
        Some(m) => string_value(m),
        None => None,
    }
}

/// Reads the boolean member of `v` under `key`.
pub fn read_bool(v: &Value, key: &str) -> (r: Option<bool>)
    ensures
        r == json_of(*v).member_truth(key@),
{
    match member(v, key) {
        Some(m) => bool_value(m),
        None => None,
    }
}

/// Reads the unsigned member of `v` under `key`.
pub fn read_u64(v: &Value, key: &str) -> (r: Option<u64>)
    ensures
        r == json_of(*v).member_unsigned(key@),
{
    match member(v, key) {
        Some(m) => u64_value(m),
        None => None,
    }
}

} // verus!
