//! The JSON pieces the library handles: opaque JSON values it carries, and the
//! JSON text of a list of strings.
use crate::text::{hex_digit, join_with, views};
use vstd::prelude::*;

verus! {

/// `serde_json::Value`, carried through opaquely.
#[verifier::external_type_specification]
#[verifier::external_body]
pub struct ExJsonValue(serde_json::Value);

/// How `serde_json` writes one character inside a string literal: a quote
/// and a backslash each after a backslash; backspace, form feed, line feed,
/// carriage return and tab as a backslash and `b`, `f`, `n`, `r`, `t`; other
/// characters below U+0020 as a backslash, `u00` and two lower-case hex
/// digits; every other character as itself.
pub open spec fn json_escaped_char(c: char) -> Seq<char> {
    if c == '"' {
        seq!['\\', '"']
    } else if c == '\\' {
        seq!['\\', '\\']
    } else if c == '\u{8}' {
        seq!['\\', 'b']
    } else if c == '\u{c}' {
        seq!['\\', 'f']
    } else if c == '\n' {
        seq!['\\', 'n']
    } else if c == '\r' {
        seq!['\\', 'r']
    } else if c == '\t' {
        seq!['\\', 't']
    } else if (c as u32) < 0x20 {
        seq!['\\', 'u', '0', '0', hex_digit(((c as u32) / 16) as nat), hex_digit(((c as u32) % 16) as nat)]
    } else {
        seq![c]
    }
}

/// The characters of a string as `serde_json` writes them inside quotes.
pub open spec fn json_escaped(s: Seq<char>) -> Seq<char>
    decreases s.len(),
{
    if s.len() == 0 {
        seq![]
    } else {
        json_escaped_char(s[0]) + json_escaped(s.drop_first())
    }
}

/// A JSON string literal as `serde_json` writes it.
pub open spec fn json_string_text(s: Seq<char>) -> Seq<char> {
    seq!['"'] + json_escaped(s) + seq!['"']
}

/// What `serde_json::to_string` writes for a list of strings: the string
/// literals separated by commas, in brackets, without spaces.
pub open spec fn json_list_text(items: Seq<Seq<char>>) -> Seq<char> {
    seq!['['] + join_with(items.map_values(|s: Seq<char>| json_string_text(s)), seq![',']) + seq![']']
}

/// `serde_json::to_string` on a slice of strings: the JSON array text.
/// Claimed here: the text is the strings, each written as a JSON string
/// literal with `serde_json`'s escapes, separated by commas, in brackets.
/// Serialising strings cannot fail.
#[verifier::external_body]
pub(crate) fn json_string_list(items: &[String]) -> (r: String)
    ensures
        r@ == json_list_text(views(items@)),
{
    match serde_json::to_string(items) {
        Ok(s) => s,
        Err(_) => String::new(),
    }
}

} // verus!
