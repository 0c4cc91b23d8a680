//! JSON values, through `serde_json`.

use crate::utils::text::decimal;
use vstd::prelude::*;

verus! {

/// `serde_json::Value`.
#[verifier::external_type_specification]
#[verifier::external_body]
pub struct ExJson(serde_json::Value);

/// The members of an object that are strings; none where it is no object.
pub uninterp spec fn string_members(value: serde_json::Value) -> Map<Seq<char>, Seq<char>>;

/// The members of an object that are unsigned integers; none where it is no
/// object.
pub uninterp spec fn integer_members(value: serde_json::Value) -> Map<Seq<char>, u64>;

/// The compact text of a value.
pub uninterp spec fn compact_text(value: serde_json::Value) -> Seq<char>;

// ---------------------------------------------------------------------------
// Compact text
// ---------------------------------------------------------------------------

/// A hex digit, in lower case.
pub open spec fn hex_digit(d: int) -> char {
    if d < 10 {
        (48 + d) as char
    } else {
        (87 + d) as char
    }
}

/// A character inside a JSON string.
pub open spec fn escaped_char(c: char) -> Seq<char> {
    if c == '"' || c == '\\' {
        seq!['\\', c]
    } else if c == '\u{8}' {
        seq!['\\', 'b']
    } else if c == '\u{9}' {
        seq!['\\', 't']
    } else if c == '\u{a}' {
        seq!['\\', 'n']
    } else if c == '\u{c}' {
        seq!['\\', 'f']
    } else if c == '\u{d}' {
        seq!['\\', 'r']
    } else if c <= '\u{1f}' {
        seq!['\\', 'u', '0', '0', hex_digit(c as int / 16), hex_digit(c as int % 16)]
    } else {
        seq![c]
    }
}

/// A text inside a JSON string.
pub open spec fn escaped(s: Seq<char>) -> Seq<char>
    decreases s.len(),
{
    if s.len() == 0 {
        seq![]
    } else {
        escaped(s.drop_last()) + escaped_char(s.last())
    }
}

/// A text as a JSON string.
pub open spec fn quoted(s: Seq<char>) -> Seq<char> {
    seq!['"'] + escaped(s) + seq!['"']
}

/// Texts with commas between them.
pub open spec fn listed(items: Seq<Seq<char>>) -> Seq<char>
    decreases items.len(),
{
    if items.len() == 0 {
        seq![]
    } else if items.len() == 1 {
        items[0]
    } else {
        listed(items.drop_last()) + seq![','] + items.last()
    }
}

/// A JSON array of the given texts.
pub open spec fn array_text(items: Seq<Seq<char>>) -> Seq<char> {
    seq!['['] + listed(items) + seq![']']
}

/// A JSON object with the given names and texts.
pub open spec fn object_text(members: Seq<(Seq<char>, Seq<char>)>) -> Seq<char> {
    seq!['{'] + listed(
        members.map_values(|m: (Seq<char>, Seq<char>)| quoted(m.0) + seq![':'] + m.1),
    ) + seq!['}']
}

/// Whether `a` stands before `b` in the order of characters.
pub open spec fn precedes(a: Seq<char>, b: Seq<char>) -> bool
    decreases a.len(),
{
    if a.len() == 0 || b.len() == 0 {
        a.len() < b.len()
    } else if a[0] == b[0] {
        precedes(a.drop_first(), b.drop_first())
    } else {
        a[0] < b[0]
    }
}

/// The name and the text of each member.
pub open spec fn member_views(
    members: Seq<(String, serde_json::Value)>,
) -> Seq<(Seq<char>, Seq<char>)> {
    members.map_values(|m: (String, serde_json::Value)| (m.0@, compact_text(m.1)))
}

/// The text of each value.
pub open spec fn value_texts(values: Seq<serde_json::Value>) -> Seq<Seq<char>> {
    values.map_values(|v: serde_json::Value| compact_text(v))
}

/// Whether each name stands before the next.
pub open spec fn ascending(members: Seq<(Seq<char>, Seq<char>)>) -> bool {
    forall|i: int| 0 < i < members.len() ==> precedes(members[i - 1].0, (#[trigger] members[i]).0)
}

// ---------------------------------------------------------------------------
// Reading
// ---------------------------------------------------------------------------

/// The string member of that name, where there is one.
pub open spec fn text_member(value: serde_json::Value, name: Seq<char>) -> Option<Seq<char>> {
    if string_members(value).contains_key(name) {
        Some(string_members(value)[name])
    } else {
        None
    }
}

/// The integer member of that name, where there is one.
pub open spec fn number_member(value: serde_json::Value, name: Seq<char>) -> Option<u64> {
    if integer_members(value).contains_key(name) {
        Some(integer_members(value)[name])
    } else {
        None
    }
}

/// `serde_json::Value::get` with a key, then `as_str`: the member of that name,
/// where the value is an object that has one and it is a string.
#[verifier::external_body]
pub(crate) fn string_member(value: &serde_json::Value, key: &str) -> (r: Option<String>)
    ensures
        r is Some <==> string_members(*value).contains_key(key@),
        r matches Some(s) ==> s@ == string_members(*value)[key@],
{
    value.get(key).and_then(|member| member.as_str()).map(String::from)
}

/// `serde_json::Value::get` with a key, then `as_u64`: the member of that name,
/// where the value is an object that has one and it is an unsigned integer.
#[verifier::external_body]
pub(crate) fn integer_member(value: &serde_json::Value, key: &str) -> (r: Option<u64>)
    ensures
        r is Some <==> integer_members(*value).contains_key(key@),
        r matches Some(n) ==> n == integer_members(*value)[key@],
{
    value.get(key).and_then(|member| member.as_u64())
}

// ---------------------------------------------------------------------------
// Writing
// ---------------------------------------------------------------------------

/// `serde_json::Value::to_string`: the compact text of a value.
#[verifier::external_body]
pub(crate) fn to_text(value: &serde_json::Value) -> (r: String)
    ensures
        r@ == compact_text(*value),
{
    value.to_string()
}

/// `serde_json::Value::from` on a text: a string, whose compact text has the
/// quotes, the backslashes and the control characters escaped.
#[verifier::external_body]
pub(crate) fn text_value(text: &str) -> (r: serde_json::Value)
    ensures
        compact_text(r) == quoted(text@),
{
    serde_json::Value::from(text)
}

/// `serde_json::Value::from` on an unsigned integer: a number, whose compact text
/// is the integer in decimal.
#[verifier::external_body]
pub(crate) fn number_value(n: u64) -> (r: serde_json::Value)
    ensures
        compact_text(r) == decimal(n as nat),
{
    serde_json::Value::from(n)
}

/// `serde_json::Value::from` on a vector: an array of the values, in order.
#[verifier::external_body]
pub(crate) fn array_value(items: Vec<serde_json::Value>) -> (r: serde_json::Value)
    ensures
        compact_text(r) == array_text(value_texts(items@)),
{
    serde_json::Value::from(items)
}

/// `serde_json::Value::from_iter` on names and values: an object with these
/// members. Its compact text has them in the order of their names, so it is
/// stated for names that are given in that order.
#[verifier::external_body]
pub(crate) fn object_value(members: Vec<(String, serde_json::Value)>) -> (r: serde_json::Value)
    requires
        ascending(member_views(members@)),
    ensures
        compact_text(r) == object_text(member_views(members@)),
{
    serde_json::Value::from_iter(members)
}

} // verus!
