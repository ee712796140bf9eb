//! JSON text: the string quoting this library writes, and reading fields out
//! of JSON documents through serde_json.
//!
//! Strings are escaped as serde_json writes them: quote and backslash get a
//! backslash, the five control characters with short forms use them, the
//! remaining control characters become `\u00XX` with lowercase hex, and
//! everything else is copied.

use vstd::prelude::*;

use crate::text::{chars_vec, opt_chars, push_char, push_str};

verus! {

/// A lowercase hexadecimal digit.
pub open spec fn hex_digit(d: u32) -> char {
    if d < 10 {
        (('0' as u32) + d) as char
    } else {
        (('a' as u32) + d - 10) as char
    }
}

/// How one character is written inside a JSON string.
pub open spec fn escape_char(c: char) -> Seq<char> {
    if c == '"' {
        seq!['\\', '"']
    } else if c == '\\' {
        seq!['\\', '\\']
    } else if c == '\n' {
        seq!['\\', 'n']
    } else if c == '\r' {
        seq!['\\', 'r']
    } else if c == '\t' {
        seq!['\\', 't']
    } else if c == '\x08' {
        seq!['\\', 'b']
    } else if c == '\x0C' {
        seq!['\\', 'f']
    } else if (c as u32) < 0x20 {
        seq!['\\', 'u', '0', '0', hex_digit((c as u32) / 16), hex_digit((c as u32) % 16)]
    } else {
        seq![c]
    }
}

/// The escaped characters of a string.
pub open spec fn escaped(s: Seq<char>) -> Seq<char>
    decreases s.len(),
{
    if s.len() == 0 {
        Seq::<char>::empty()
    } else {
        escaped(s.drop_last()) + escape_char(s.last())
    }
}

/// A JSON string literal holding `s`.
pub open spec fn json_str(s: Seq<char>) -> Seq<char> {
    seq!['"'] + escaped(s) + seq!['"']
}

fn hex(d: u32) -> (c: char)
    requires
        d < 16,
    ensures
        c == hex_digit(d),
{
    if d < 10 {
        ((48 + d) as u8) as char
    } else {
        ((97 + d - 10) as u8) as char
    }
}

/// Append `s` as a JSON string literal.
pub fn push_json_str(out: &mut String, s: &str)
    ensures
        final(out)@ == old(out)@ + json_str(s@),
{
    let v = chars_vec(s);
    push_char(out, '"');
    let ghost start = out@;
    let mut i: usize = 0;
    while i < v.len()
        invariant
            i <= v@.len(),
            v@ == s@,
            out@ == start + escaped(v@.take(i as int)),
        decreases v.len() - i,
    {
        let c = v[i];
        let ghost before = out@;
        if c == '"' {
            push_char(out, '\\');
            push_char(out, '"');
        } else if c == '\\' {
            push_char(out, '\\');
            push_char(out, '\\');
        } else if c == '\n' {
            push_char(out, '\\');
            push_char(out, 'n');
        } else if c == '\r' {
            push_char(out, '\\');
            push_char(out, 'r');
        } else if c == '\t' {
            push_char(out, '\\');
            push_char(out, 't');
        } else if c == '\x08' {
            push_char(out, '\\');
            push_char(out, 'b');
        } else if c == '\x0C' {
            push_char(out, '\\');
            push_char(out, 'f');
        } else if (c as u32) < 0x20 {
            push_char(out, '\\');
            push_char(out, 'u');
            push_char(out, '0');
            push_char(out, '0');
            push_char(out, hex((c as u32) / 16));
            push_char(out, hex((c as u32) % 16));
        } else {
            push_char(out, c);
        }
        proof {
            assert(v@.take(i + 1).drop_last() =~= v@.take(i as int));
            assert(out@ =~= before + escape_char(c));
        }
        i += 1;
    }
    push_char(out, '"');
    proof {
        assert(v@.take(v@.len() as int) =~= v@);
        assert(final(out)@ =~= old(out)@ + json_str(s@));
    }
}

/// The text of the field `key` of the JSON object `doc`, as serde_json
/// re-serializes it; `None` when `doc` is not JSON, not an object, or has no
/// such field.
pub uninterp spec fn json_field_text(doc: Seq<char>, key: Seq<char>) -> Option<Seq<char>>;

/// The texts of the elements of the JSON array `doc`, as serde_json
/// re-serializes them; `None` when `doc` is not a JSON array.
pub uninterp spec fn json_items_text(doc: Seq<char>) -> Option<Seq<Seq<char>>>;

/// The value of the JSON string `doc`; `None` when `doc` is not a JSON string.
pub uninterp spec fn json_string_value(doc: Seq<char>) -> Option<Seq<char>>;

/// Whether serde_json reads `doc` as a JSON value.
pub uninterp spec fn json_is_valid(doc: Seq<char>) -> bool;

/// `doc` pretty-printed by serde_json; `None` when it is not JSON.
pub uninterp spec fn json_pretty_text(doc: Seq<char>) -> Option<Seq<char>>;

/// Wraps `serde_json::from_str::<Value>`, then `Value::get(key)` and
/// `Value::to_string`. The contract claims only that the result depends on
/// the two arguments.
#[verifier::external_body]
pub(crate) fn json_field(doc: &str, key: &str) -> (r: Option<String>)
    ensures
        opt_chars(r) == json_field_text(doc@, key@),
{
    serde_json::from_str::<serde_json::Value>(doc).ok()?.get(key).map(|v| v.to_string())
}

/// The characters of each string, in order.
pub open spec fn strings_view(v: Seq<String>) -> Seq<Seq<char>> {
    v.map_values(|s: String| s@)
}

/// Wraps `serde_json::from_str::<Value>`, then `Value::as_array` and
/// `Value::to_string` on each element. The contract claims only that the
/// result depends on the argument.
#[verifier::external_body]
pub(crate) fn json_items(doc: &str) -> (r: Option<Vec<String>>)
    ensures
        match r {
            Some(v) => json_items_text(doc@) == Some(strings_view(v@)),
            None => json_items_text(doc@) is None,
        },
{
    let value = serde_json::from_str::<serde_json::Value>(doc).ok()?;
    value.as_array().map(|items| items.iter().map(|v| v.to_string()).collect())
}

/// Wraps `serde_json::from_str::<Value>` and `Value::as_str`. The contract
/// claims only that the result depends on the argument.
#[verifier::external_body]
pub(crate) fn json_string(doc: &str) -> (r: Option<String>)
    ensures
        opt_chars(r) == json_string_value(doc@),
{
    serde_json::from_str::<serde_json::Value>(doc).ok()?.as_str().map(|s| s.to_string())
}

/// Wraps `serde_json::from_str::<Value>`, reporting whether it succeeds.
/// The contract claims only that the result depends on the argument.
#[verifier::external_body]
pub(crate) fn json_valid(doc: &str) -> (r: bool)
    ensures
        r == json_is_valid(doc@),
{
    serde_json::from_str::<serde_json::Value>(doc).is_ok()
}

/// Wraps `serde_json::from_str::<Value>` and `serde_json::to_string_pretty`.
/// The contract claims only that the result depends on the argument.
#[verifier::external_body]
pub(crate) fn json_pretty(doc: &str) -> (r: Option<String>)
    ensures
        opt_chars(r) == json_pretty_text(doc@),
{
    let value = serde_json::from_str::<serde_json::Value>(doc).ok()?;
    serde_json::to_string_pretty(&value).ok()
}

/// The value of the JSON document `doc` when it is a non-negative integer
/// that fits a `u64`.
pub uninterp spec fn json_u64_value(doc: Seq<char>) -> Option<u64>;

/// Wraps `serde_json::from_str::<Value>` and `Value::as_u64`. The contract
/// claims only that the result depends on the argument.
#[verifier::external_body]
pub(crate) fn json_u64(doc: &str) -> (r: Option<u64>)
    ensures
        r == json_u64_value(doc@),
{
    serde_json::from_str::<serde_json::Value>(doc).ok()?.as_u64()
}

/// The value of the JSON document `doc` when it is a boolean.
pub uninterp spec fn json_bool_value(doc: Seq<char>) -> Option<bool>;

/// Wraps `serde_json::from_str::<Value>` and `Value::as_bool`. The contract
/// claims only that the result depends on the argument.
#[verifier::external_body]
pub(crate) fn json_bool(doc: &str) -> (r: Option<bool>)
    ensures
        r == json_bool_value(doc@),
{
    serde_json::from_str::<serde_json::Value>(doc).ok()?.as_bool()
}

} // verus!
