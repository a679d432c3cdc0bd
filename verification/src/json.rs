//! The calls into `serde_json` that the archive needs: comparing JSON values, listing
//! the entries of a JSON object, and quoting a string.
use vstd::prelude::*;

use crate::text::seq_lt;

verus! {

/// Whether two JSON texts stand for equal values: what `serde_json::Value`'s `==`
/// answers on the values that the texts parse to, and `false` where either does not parse.
pub uninterp spec fn json_value_eq(a: Seq<char>, b: Seq<char>) -> bool;

/// The entries of the JSON object that a text holds, each value as compact JSON text, or
/// `None` where the text is no JSON object.
pub uninterp spec fn json_object_entries_of(text: Seq<char>) -> Option<Seq<(Seq<char>, Seq<char>)>>;

/// A hexadecimal digit, in lower case.
pub open spec fn hex_digit(d: int) -> char {
    if d < 10 {
        (d + ('0' as int)) as char
    } else {
        (d - 10 + ('a' as int)) as char
    }
}

/// How `serde_json` writes one character inside a string literal: `"` and `\` after a
/// backslash, the control characters 8, 9, 10, 12 and 13 as `\b`, `\t`, `\n`, `\f`, `\r`,
/// the other control characters below 32 as `\u00` and two hexadecimal digits, and any
/// other character as itself.
pub open spec fn escaped_char(c: char) -> Seq<char> {
    let n = c as int;
    if n == 0x22 {
        seq!['\\', '"']
    } else if n == 0x5c {
        seq!['\\', '\\']
    } else if n == 0x08 {
        seq!['\\', 'b']
    } else if n == 0x09 {
        seq!['\\', 't']
    } else if n == 0x0a {
        seq!['\\', 'n']
    } else if n == 0x0c {
        seq!['\\', 'f']
    } else if n == 0x0d {
        seq!['\\', 'r']
    } else if n < 0x20 {
        seq!['\\', 'u', '0', '0', hex_digit(n / 16), hex_digit(n % 16)]
    } else {
        seq![c]
    }
}

/// The characters of a string, each as `serde_json` writes it inside a string literal.
pub open spec fn escaped(s: Seq<char>) -> Seq<char>
    decreases s.len(),
{
    if s.len() == 0 {
        Seq::empty()
    } else {
        escaped(s.drop_last()) + escaped_char(s.last())
    }
}

/// The JSON string literal that `serde_json` writes for a string: the escaped characters
/// between double quotes.
pub open spec fn json_quoted(s: Seq<char>) -> Seq<char> {
    seq!['"'] + escaped(s) + seq!['"']
}

/// Parses both texts with `serde_json::from_str` into `serde_json::Value` and compares
/// the values with `==`; a text that does not parse compares unequal.
#[verifier::external_body]
pub(crate) fn json_values_equal(a: &str, b: &str) -> (r: bool)
    ensures
        r == json_value_eq(a@, b@),
{
    match (serde_json::from_str::<serde_json::Value>(a), serde_json::from_str::<serde_json::Value>(b)) {
        (Ok(x), Ok(y)) => x == y,
        _ => false,
    }
}

/// Parses the text with `serde_json::from_str`; for a JSON object, lists its entries as
/// `serde_json::Map` yields them, each value written back with `serde_json`'s compact
/// `Display`. The map is a `BTreeMap`, so the names come out strictly increasing.
#[verifier::external_body]
pub(crate) fn json_object_entries(text: &str) -> (r: Option<Vec<(String, String)>>)
    ensures
        match (r, json_object_entries_of(text@)) {
            (Some(v), Some(e)) => {
                &&& v@.len() == e.len()
                &&& forall|i: int| 0 <= i < e.len() ==> (#[trigger] v@[i]).0@ == e[i].0 && v@[i].1@ == e[i].1
                &&& forall|i: int, j: int| 0 <= i < j < e.len() ==> seq_lt(#[trigger] e[i].0, #[trigger] e[j].0)
            },
            (None, None) => true,
            _ => false,
        },
{
    match serde_json::from_str::<serde_json::Value>(text) {
        Ok(serde_json::Value::Object(m)) => Some(m.into_iter().map(|(k, v)| (k, v.to_string())).collect()),
        _ => None,
    }
}

/// `serde_json`'s string literal for `s`: the text of `serde_json::Value::String`, written
/// with `serde_json`'s escapes, which `serde_json` reads back as `s`.
#[verifier::external_body]
pub(crate) fn json_quote(s: &str) -> (r: String)
    ensures
        r@ == json_quoted(s@),
        json_string_of(r@) == Some(s@),
{
    serde_json::Value::from(s).to_string()
}

/// The integer that `serde_json` reads from a text as an `i64`, if it reads one.
pub uninterp spec fn json_i64_of(text: Seq<char>) -> Option<i64>;

/// The string that `serde_json` reads from a text as a `String`, if it reads one.
pub uninterp spec fn json_string_of(text: Seq<char>) -> Option<Seq<char>>;

/// The boolean that `serde_json` reads from a text as a `bool`, if it reads one.
pub uninterp spec fn json_bool_of(text: Seq<char>) -> Option<bool>;

/// The compact text of the `serde_json::Value` that a text parses to, if it parses.
pub uninterp spec fn json_canonical_of(text: Seq<char>) -> Option<Seq<char>>;

/// `serde_json::from_str::<i64>`, with its error dropped.
#[verifier::external_body]
pub(crate) fn json_to_i64(text: &str) -> (r: Option<i64>)
    ensures
        r == json_i64_of(text@),
{
    serde_json::from_str::<i64>(text).ok()
}

/// `serde_json::from_str::<String>`, with its error dropped.
#[verifier::external_body]
pub(crate) fn json_to_string(text: &str) -> (r: Option<String>)
    ensures
        match (r, json_string_of(text@)) {
            (Some(a), Some(b)) => a@ == b,
            (None, None) => true,
            _ => false,
        },
{
    serde_json::from_str::<String>(text).ok()
}

/// `serde_json::from_str::<bool>`, with its error dropped.
#[verifier::external_body]
pub(crate) fn json_to_bool(text: &str) -> (r: Option<bool>)
    ensures
        r == json_bool_of(text@),
{
    serde_json::from_str::<bool>(text).ok()
}

/// `serde_json::from_str::<serde_json::Value>`, written back with the value's compact
/// `Display`; `None` where the text does not parse.
#[verifier::external_body]
pub(crate) fn json_canonical(text: &str) -> (r: Option<String>)
    ensures
        match (r, json_canonical_of(text@)) {
            (Some(a), Some(b)) => a@ == b,
            (None, None) => true,
            _ => false,
        },
{
    serde_json::from_str::<serde_json::Value>(text).ok().map(|v| v.to_string())
}

/// The decimal digits of a natural number.
pub open spec fn digits(n: nat) -> Seq<char>
    decreases n,
{
    if n < 10 {
        seq![((n as int) + ('0' as int)) as char]
    } else {
        digits(n / 10) + seq![(((n % 10) as int) + ('0' as int)) as char]
    }
}

/// The decimal text of an integer, with a leading `-` where it is negative.
pub open spec fn decimal(v: int) -> Seq<char> {
    if v < 0 {
        seq!['-'] + digits((-v) as nat)
    } else {
        digits(v as nat)
    }
}

/// `i64::to_string`: the decimal text of `v`, which is also its JSON text, and which
/// `serde_json` reads back as `v`.
#[verifier::external_body]
pub(crate) fn i64_text(v: i64) -> (r: String)
    ensures
        r@ == decimal(v as int),
        json_i64_of(r@) == Some(v),
{
    v.to_string()
}

/// The JSON text of `b`, written by `serde_json::Value::Bool`: `true` or `false`, which
/// `serde_json` reads back as `b`.
#[verifier::external_body]
pub(crate) fn json_bool_text(b: bool) -> (r: String)
    ensures
        r@ == if b {
            seq!['t', 'r', 'u', 'e']
        } else {
            seq!['f', 'a', 'l', 's', 'e']
        },
        json_bool_of(r@) == Some(b),
{
    serde_json::Value::Bool(b).to_string()
}

} // verus!
