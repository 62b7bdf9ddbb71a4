//! JSON text of objects, produced by `serde_json`.

use vstd::prelude::*;
use crate::text::decimal;

verus! {

/// How JSON writes one character inside a string literal: quote and backslash
/// are escaped with a backslash; backspace, tab, line feed, form feed and
/// carriage return use their short escapes; the other control characters
/// (below 0x20) use `\u00XX` with lower-case hex digits; everything else is kept.
pub open spec fn json_escape_char(c: char) -> Seq<char> {
    if c == '"' {
        seq!['\\', '"']
    } else if c == '\\' {
        seq!['\\', '\\']
    } else if c == '\x08' {
        seq!['\\', 'b']
    } else if c == '\t' {
        seq!['\\', 't']
    } else if c == '\n' {
        seq!['\\', 'n']
    } else if c == '\x0c' {
        seq!['\\', 'f']
    } else if c == '\r' {
        seq!['\\', 'r']
    } else if (c as u32) < 0x20 {
        seq!['\\', 'u', '0', '0', hex_digit((c as u32) / 16), hex_digit((c as u32) % 16)]
    } else {
        seq![c]
    }
}

pub open spec fn hex_digit(d: u32) -> char {
    if d < 10 {
        (48 + d) as char
    } else {
        (87 + d) as char
    }
}

/// The escaped characters of `s`, in order.
pub open spec fn json_escaped(s: Seq<char>) -> Seq<char>
    decreases s.len(),
{
    if s.len() == 0 {
        seq![]
    } else {
        json_escaped(s.drop_last()) + json_escape_char(s.last())
    }
}

/// A JSON string literal holding `s`.
pub open spec fn json_quoted(s: Seq<char>) -> Seq<char> {
    seq!['"'] + json_escaped(s) + seq!['"']
}

/// Text with nothing that JSON escapes.
pub open spec fn json_plain(s: Seq<char>) -> bool {
    forall|i: int| 0 <= i < s.len() ==> s[i] != '"' && s[i] != '\\' && (s[i] as u32) >= 0x20
}

pub proof fn lemma_json_plain(s: Seq<char>)
    requires
        json_plain(s),
    ensures
        json_escaped(s) == s,
    decreases s.len(),
{
    if s.len() > 0 {
        lemma_json_plain(s.drop_last());
        assert(json_escaped(s) =~= s);
    }
}

/// A value of a JSON object member.
pub enum JsonValue {
    Text(String),
    Number(u64),
}

/// JSON text of a member value: a string literal, or the decimal digits.
pub open spec fn value_text(v: JsonValue) -> Seq<char> {
    match v {
        JsonValue::Text(s) => json_quoted(s@),
        JsonValue::Number(n) => decimal(n as nat),
    }
}

/// The members `"key":value`, separated by commas, in the order given.
pub open spec fn members_text(f: Seq<(String, JsonValue)>) -> Seq<char>
    decreases f.len(),
{
    if f.len() == 0 {
        seq![]
    } else {
        members_text(f.drop_last()) + (if f.len() > 1 { seq![','] } else { seq![] }) + json_quoted(
            f.last().0@,
        ) + seq![':'] + value_text(f.last().1)
    }
}

/// Compact JSON text of an object with the members `f`.
pub open spec fn object_text(f: Seq<(String, JsonValue)>) -> Seq<char> {
    seq!['{'] + members_text(f) + seq!['}']
}

/// `a` comes before `b` in the order of `String` (by code point, which is the
/// order of their UTF-8 bytes).
pub open spec fn key_less(a: Seq<char>, b: Seq<char>) -> bool
    decreases a.len(),
{
    if b.len() == 0 {
        false
    } else if a.len() == 0 {
        true
    } else if a[0] != b[0] {
        (a[0] as u32) < (b[0] as u32)
    } else {
        key_less(a.skip(1), b.skip(1))
    }
}

/// Keys in strictly increasing order.
pub open spec fn keys_increasing(f: Seq<(String, JsonValue)>) -> bool {
    forall|i: int, j: int| 0 <= i < j < f.len() ==> key_less(#[trigger] f[i].0@, #[trigger] f[j].0@)
}

/// JSON text of an object (`serde_json::Value::Object(..).to_string()`). The
/// members go into a `serde_json::Map`, which without the `preserve_order`
/// feature is a `BTreeMap` and writes its members in key order; with the keys
/// given in increasing order that is the order given. Keys and string values
/// are written as `serde_json`'s serializer writes strings (`json_quoted`),
/// numbers as their decimal digits, with no spaces.
#[verifier::external_body]
pub(crate) fn json_object(fields: &Vec<(String, JsonValue)>) -> (r: String)
    requires
        keys_increasing(fields@),
    ensures
        r@ == object_text(fields@),
{
    let mut map = serde_json::Map::new();
    for (key, value) in fields.iter() {
        let v = match value {
            JsonValue::Text(s) => serde_json::Value::String(s.clone()),
            JsonValue::Number(n) => serde_json::Value::from(*n),
        };
        map.insert(key.clone(), v);
    }
    serde_json::Value::Object(map).to_string()
}

} // verus!
