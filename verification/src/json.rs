//! JSON text for the chat index. The array and object framing is written
//! here; each string and number inside it is encoded by `serde_json`.

use vstd::prelude::*;

verus! {

/// The lowercase hexadecimal digit for `d`, below 16.
pub open spec fn hex_digit(d: int) -> char {
    if d < 10 {
        (d + 48) as char
    } else {
        (d + 87) as char
    }
}

/// How one character stands inside a JSON string: a quote, a backslash and
/// the control characters are escaped, as `\b`, `\t`, `\n`, `\f`, `\r`
/// or `\u00xx` in lowercase hexadecimal; every other character stands for
/// itself.
pub open spec fn json_escape(c: char) -> Seq<char> {
    if c == '"' {
        seq!['\\', '"']
    } else if c == '\\' {
        seq!['\\', '\\']
    } else if c == '\u{8}' {
        seq!['\\', 'b']
    } else if c == '\t' {
        seq!['\\', 't']
    } else if c == '\n' {
        seq!['\\', 'n']
    } else if c == '\u{c}' {
        seq!['\\', 'f']
    } else if c == '\r' {
        seq!['\\', 'r']
    } else if (c as int) < 32 {
        seq!['\\', 'u', '0', '0', hex_digit((c as int) / 16), hex_digit((c as int) % 16)]
    } else {
        seq![c]
    }
}

/// The characters of `s`, each as it stands inside a JSON string.
pub open spec fn json_escaped(s: Seq<char>) -> Seq<char>
    decreases s.len(),
{
    if s.len() == 0 {
        Seq::empty()
    } else {
        json_escaped(s.drop_last()) + json_escape(s.last())
    }
}

/// The JSON string literal of `s`: its escaped characters between quotes.
pub open spec fn json_string_literal(s: Seq<char>) -> Seq<char> {
    seq!['"'] + json_escaped(s) + seq!['"']
}

/// The character of the decimal digit `d`.
pub open spec fn digit_char(d: nat) -> char {
    (d + 48) as char
}

/// The decimal digits of `n`, without leading zeros.
pub open spec fn decimal(n: nat) -> Seq<char>
    decreases n,
{
    if n < 10 {
        seq![digit_char(n)]
    } else {
        decimal(n / 10).push(digit_char(n % 10))
    }
}

/// Encodes `s` as a JSON string literal.
///
/// Calls `serde_json::to_string` on a `str`. Its documentation says that it
/// fails only when a `Serialize` impl decides to fail or a map has
/// non-string keys, neither of which a `str` can do. The escaping stated in
/// `json_string_literal` is that of `format_escaped_str` and its escape
/// table: only a quote, a backslash and bytes below `0x20` are escaped.
#[verifier::external_body]
pub fn json_str(s: &str) -> (res: String)
    ensures
        res@ == json_string_literal(s@),
{
    serde_json::to_string(s).unwrap_or_default()
}

/// Encodes `n` as a JSON number.
///
/// Calls `serde_json::to_string` on a `u32`, which writes the decimal
/// digits of the number (`Formatter::write_u32`, through `itoa`); the
/// contract states that result.
#[verifier::external_body]
pub fn json_u32(n: u32) -> (res: String)
    ensures
        res@ == decimal(n as nat),
{
    serde_json::to_string(&n).unwrap_or_default()
}

} // verus!
