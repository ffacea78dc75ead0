//! Minimal JSON emitter and parser for the Matrix client-server API.
//!
//! [`JsonWriter`] builds a JSON text call by call, [`JsonParser`] reads JSON
//! bytes into a [`JsonValue`]. Numbers are 64-bit integers, strings know the
//! escapes of JSON with `\uXXXX` for single code points, and containers nest at
//! most [`MAX_DEPTH`] deep.
use crate::text::{
    ascii, byte_at, byte_range, decimal, digits_value, has_word, is_digit, push_decimal, same_bytes,
    same_text,
};
use vstd::prelude::*;
use vstd::utf8::*;

verus! {

broadcast use vstd::string::group_string_axioms;

/// Maximum nesting depth for the parser (objects and arrays).
pub const MAX_DEPTH: usize = 32;

// ---------------------------------------------------------------------------
// Errors and values
// ---------------------------------------------------------------------------

/// Errors from JSON parsing.
#[derive(Debug, Clone, Copy, PartialEq, Eq, Structural)]
pub enum JsonError {
    /// The input is empty or contains only whitespace.
    Empty,
    /// Unexpected character encountered during parsing.
    UnexpectedChar,
    /// Unterminated string literal (missing closing `"`).
    UnterminatedString,
    /// Invalid escape sequence in a string.
    InvalidEscape,
    /// Invalid Unicode escape (`\uXXXX` with non-hex digits).
    InvalidUnicodeEscape,
    /// Invalid number format.
    InvalidNumber,
    /// Invalid literal (expected `true`, `false`, or `null`).
    InvalidLiteral,
    /// Nesting depth exceeds [`MAX_DEPTH`].
    TooDeep,
    /// Expected a colon `:` after an object key.
    ExpectedColon,
    /// Expected a comma or closing bracket/brace.
    ExpectedCommaOrEnd,
    /// Trailing data after the root value.
    TrailingData,
    /// Object key is not a string.
    KeyNotString,
}

impl JsonError {
    /// What the error is called in diagnostics.
    pub open spec fn message(self) -> Seq<char> {
        match self {
            JsonError::Empty => "empty JSON input"@,
            JsonError::UnexpectedChar => "unexpected character"@,
            JsonError::UnterminatedString => "unterminated string"@,
            JsonError::InvalidEscape => "invalid escape sequence"@,
            JsonError::InvalidUnicodeEscape => "invalid unicode escape"@,
            JsonError::InvalidNumber => "invalid number"@,
            JsonError::InvalidLiteral => "invalid literal"@,
            JsonError::TooDeep => "nesting too deep"@,
            JsonError::ExpectedColon => "expected colon after key"@,
            JsonError::ExpectedCommaOrEnd => "expected comma or closing bracket"@,
            JsonError::TrailingData => "trailing data after JSON value"@,
            JsonError::KeyNotString => "object key must be a string"@,
        }
    }

    /// The diagnostic text of the error.
    pub fn to_string(&self) -> (r: String)
        ensures
            r@ == self.message(),
    {
        match self {
            JsonError::Empty => "empty JSON input".to_owned(),
            JsonError::UnexpectedChar => "unexpected character".to_owned(),
            JsonError::UnterminatedString => "unterminated string".to_owned(),
            JsonError::InvalidEscape => "invalid escape sequence".to_owned(),
            JsonError::InvalidUnicodeEscape => "invalid unicode escape".to_owned(),
            JsonError::InvalidNumber => "invalid number".to_owned(),
            JsonError::InvalidLiteral => "invalid literal".to_owned(),
            JsonError::TooDeep => "nesting too deep".to_owned(),
            JsonError::ExpectedColon => "expected colon after key".to_owned(),
            JsonError::ExpectedCommaOrEnd => "expected comma or closing bracket".to_owned(),
            JsonError::TrailingData => "trailing data after JSON value".to_owned(),
            JsonError::KeyNotString => "object key must be a string".to_owned(),
        }
    }
}

/// A parsed JSON value. Object entries keep the order of the text.
#[derive(Debug, PartialEq, Eq)]
pub enum JsonValue {
    /// A JSON null.
    Null,
    /// A JSON boolean.
    Bool(bool),
    /// A JSON number (integers only).
    Number(i64),
    /// A JSON string (unescaped).
    String(String),
    /// A JSON array.
    Array(Vec<JsonValue>),
    /// A JSON object, preserving key order.
    Object(Vec<(String, JsonValue)>),
}

/// What a [`JsonValue`] stands for.
pub enum JsonModel {
    Null,
    Bool(bool),
    Number(int),
    Text(Seq<char>),
    Array(Seq<JsonModel>),
    Object(Seq<(Seq<char>, JsonModel)>),
}

impl View for JsonValue {
    type V = JsonModel;

    open spec fn view(&self) -> JsonModel
        decreases self,
    {
        match self {
            JsonValue::Null => JsonModel::Null,
            JsonValue::Bool(b) => JsonModel::Bool(*b),
            JsonValue::Number(n) => JsonModel::Number(*n as int),
            JsonValue::String(s) => JsonModel::Text(s@),
            JsonValue::Array(a) => JsonModel::Array(
                Seq::new(
                    a@.len(),
                    |i: int|
                        if 0 <= i < a@.len() {
                            a@[i].view()
                        } else {
                            arbitrary()
                        },
                ),
            ),
            JsonValue::Object(o) => JsonModel::Object(
                Seq::new(
                    o@.len(),
                    |i: int|
                        if 0 <= i < o@.len() {
                            (o@[i].0@, o@[i].1.view())
                        } else {
                            arbitrary()
                        },
                ),
            ),
        }
    }
}

/// What the items of an array stand for.
pub open spec fn items_model(a: Seq<JsonValue>) -> Seq<JsonModel> {
    Seq::new(a.len(), |i: int| a[i]@)
}

/// What the entries of an object stand for.
pub open spec fn entries_model(o: Seq<(String, JsonValue)>) -> Seq<(Seq<char>, JsonModel)> {
    Seq::new(o.len(), |i: int| (o[i].0@, o[i].1@))
}

/// The view of an array and of an object, in terms of their parts.
pub proof fn lemma_container_views(v: JsonValue)
    ensures
        v is Array ==> v@ == JsonModel::Array(items_model(v->Array_0@)),
        v is Object ==> v@ == JsonModel::Object(entries_model(v->Object_0@)),
{
    reveal_with_fuel(<JsonValue as View>::view, 2);
    match v {
        JsonValue::Array(a) => {
            assert(v@->Array_0 =~= items_model(a@));
        },
        JsonValue::Object(o) => {
            assert(v@->Object_0 =~= entries_model(o@));
        },
        _ => {},
    }
}

// ---------------------------------------------------------------------------
// The grammar
// ---------------------------------------------------------------------------

/// Space, tab, newline and carriage return separate tokens.
pub open spec fn is_space(b: u8) -> bool {
    b == 0x20 || b == 0x09 || b == 0x0A || b == 0x0D
}

/// The first position from `p` on that holds no white space.
pub open spec fn skip_space(d: Seq<u8>, p: int) -> int
    decreases d.len() - p,
{
    if 0 <= p < d.len() && is_space(d[p]) {
        skip_space(d, p + 1)
    } else {
        p
    }
}

/// The value of a hexadecimal digit.
pub open spec fn hex_value(b: u8) -> Option<u32> {
    if 0x30 <= b <= 0x39 {
        Some((b - 0x30) as u32)
    } else if 0x61 <= b <= 0x66 {
        Some((b - 0x61 + 10) as u32)
    } else if 0x41 <= b <= 0x46 {
        Some((b - 0x41 + 10) as u32)
    } else {
        None
    }
}

/// The character with a code point, or U+FFFD where the code point has none.
pub open spec fn char_or_replacement(code: u32) -> char {
    if is_scalar(code) {
        code as char
    } else {
        '\u{FFFD}'
    }
}

/// The four hexadecimal digits of a `\u` escape, and the position after them.
pub open spec fn unicode_escape(d: Seq<u8>, p: int) -> Result<(u32, int), JsonError> {
    if p + 4 <= d.len() && hex_value(d[p]) is Some && hex_value(d[p + 1]) is Some && hex_value(
        d[p + 2],
    ) is Some && hex_value(d[p + 3]) is Some {
        Ok(
            (
                (hex_value(d[p])->0 * 0x1000 + hex_value(d[p + 1])->0 * 0x100 + hex_value(
                    d[p + 2],
                )->0 * 0x10 + hex_value(d[p + 3])->0) as u32,
                p + 4,
            ),
        )
    } else {
        Err(JsonError::InvalidUnicodeEscape)
    }
}

/// The character that an escape stands for; `p` is the position after the
/// backslash.
pub open spec fn escaped_char(d: Seq<u8>, p: int) -> Result<(char, int), JsonError> {
    match byte_at(d, p) {
        None => Err(JsonError::InvalidEscape),
        Some(b) => if b == 0x22 {
            Ok(('"', p + 1))
        } else if b == 0x5C {
            Ok(('\\', p + 1))
        } else if b == 0x2F {
            Ok(('/', p + 1))
        } else if b == 0x62 {
            Ok(('\u{08}', p + 1))
        } else if b == 0x66 {
            Ok(('\u{0C}', p + 1))
        } else if b == 0x6E {
            Ok(('\n', p + 1))
        } else if b == 0x72 {
            Ok(('\r', p + 1))
        } else if b == 0x74 {
            Ok(('\t', p + 1))
        } else if b == 0x75 {
            match unicode_escape(d, p + 1) {
                Ok((code, q)) => Ok((char_or_replacement(code), q)),
                Err(e) => Err(e),
            }
        } else {
            Err(JsonError::InvalidEscape)
        },
    }
}

/// The payload bits of the first byte of a multi-byte character, and how many
/// bytes follow it.
pub open spec fn leading_bits(b: u8) -> Option<(u32, nat)> {
    if 0xC0 <= b <= 0xDF {
        Some(((b - 0xC0) as u32, 1))
    } else if 0xE0 <= b <= 0xEF {
        Some(((b - 0xE0) as u32, 2))
    } else if 0xF0 <= b <= 0xF7 {
        Some(((b - 0xF0) as u32, 3))
    } else {
        None
    }
}

/// Joins `n` continuation bytes to the bits read so far.
pub open spec fn continued_char(d: Seq<u8>, p: int, n: nat, code: u32) -> Result<
    (char, int),
    JsonError,
>
    decreases n,
{
    if n == 0 {
        Ok((char_or_replacement(code), p))
    } else {
        match byte_at(d, p) {
            None => Err(JsonError::UnterminatedString),
            Some(b) => if 0x80 <= b <= 0xBF {
                continued_char(d, p + 1, (n - 1) as nat, (code * 64 + (b - 0x80)) as u32)
            } else {
                Err(JsonError::UnexpectedChar)
            },
        }
    }
}

/// The character at a position inside a string, and the position after it.
pub open spec fn string_char(d: Seq<u8>, p: int) -> Result<(char, int), JsonError> {
    match byte_at(d, p) {
        None => Err(JsonError::UnterminatedString),
        Some(b) => if b == 0x5C {
            escaped_char(d, p + 1)
        } else if b < 0x80 {
            Ok((b as char, p + 1))
        } else {
            match leading_bits(b) {
                Some((bits, extra)) => continued_char(d, p + 1, extra, bits),
                None => Err(JsonError::UnexpectedChar),
            }
        },
    }
}

proof fn lemma_continued_char(d: Seq<u8>, p: int, n: nat, code: u32)
    requires
        0 <= p <= d.len(),
    ensures
        continued_char(d, p, n, code) matches Ok((c, q)) ==> p <= q <= d.len(),
    decreases n,
{
    if n > 0 {
        if let Some(b) = byte_at(d, p) {
            if 0x80 <= b <= 0xBF {
                lemma_continued_char(d, p + 1, (n - 1) as nat, (code * 64 + (b - 0x80)) as u32);
            }
        }
    }
}

pub proof fn lemma_string_char_advances(d: Seq<u8>, p: int)
    requires
        0 <= p,
    ensures
        string_char(d, p) matches Ok((c, q)) ==> p < q <= d.len(),
{
    if let Some(b) = byte_at(d, p) {
        if let Some((bits, extra)) = leading_bits(b) {
            lemma_continued_char(d, p + 1, extra, bits);
        }
    }
}

/// The characters of a string up to its closing quote, and the position after
/// that quote; `p` is a position inside the string.
pub open spec fn string_body(d: Seq<u8>, p: int) -> Result<(Seq<char>, int), JsonError>
    decreases d.len() - p,
{
    if byte_at(d, p) == Some(0x22u8) {
        Ok((Seq::empty(), p + 1))
    } else {
        proof {
            if 0 <= p {
                lemma_string_char_advances(d, p);
            }
        }
        match string_char(d, p) {
            Ok((c, q)) => if 0 <= p < d.len() {
                prepend_chars(seq![c], string_body(d, q))
            } else {
                Err(JsonError::UnterminatedString)
            },
            Err(e) => Err(e),
        }
    }
}

/// A string body with characters put in front.
pub open spec fn prepend_chars(
    front: Seq<char>,
    r: Result<(Seq<char>, int), JsonError>,
) -> Result<(Seq<char>, int), JsonError> {
    match r {
        Ok((s, q)) => Ok((front + s, q)),
        Err(e) => Err(e),
    }
}

/// The first position from `p` on that holds no digit.
pub open spec fn digits_end(d: Seq<u8>, p: int) -> int
    decreases d.len() - p,
{
    if 0 <= p < d.len() && is_digit(d[p]) {
        digits_end(d, p + 1)
    } else {
        p
    }
}

/// A number: an optional minus sign and digits without a leading zero, within
/// the range of `i64`.
pub open spec fn number(d: Seq<u8>, p: int) -> Result<(JsonModel, int), JsonError> {
    let negative = byte_at(d, p) == Some(0x2Du8);
    let s = if negative {
        p + 1
    } else {
        p
    };
    let e = digits_end(d, s);
    let magnitude = digits_value(d.subrange(s, e)) as int;
    let value = if negative {
        -magnitude
    } else {
        magnitude
    };
    if e == s || (d[s] == 0x30 && e > s + 1) || !(i64::MIN <= value <= i64::MAX) {
        Err(JsonError::InvalidNumber)
    } else {
        Ok((JsonModel::Number(value), e))
    }
}

/// The bytes of `true`.
pub open spec fn word_true() -> Seq<u8> {
    seq![0x74u8, 0x72u8, 0x75u8, 0x65u8]
}

/// The bytes of `false`.
pub open spec fn word_false() -> Seq<u8> {
    seq![0x66u8, 0x61u8, 0x6Cu8, 0x73u8, 0x65u8]
}

/// The bytes of `null`.
pub open spec fn word_null() -> Seq<u8> {
    seq![0x6Eu8, 0x75u8, 0x6Cu8, 0x6Cu8]
}

/// `true` or `false`.
pub open spec fn boolean(d: Seq<u8>, p: int) -> Result<(JsonModel, int), JsonError> {
    if has_word(d, p, word_true()) {
        Ok((JsonModel::Bool(true), p + 4))
    } else if has_word(d, p, word_false()) {
        Ok((JsonModel::Bool(false), p + 5))
    } else {
        Err(JsonError::InvalidLiteral)
    }
}

/// `null`.
pub open spec fn null(d: Seq<u8>, p: int) -> Result<(JsonModel, int), JsonError> {
    if has_word(d, p, word_null()) {
        Ok((JsonModel::Null, p + 4))
    } else {
        Err(JsonError::InvalidLiteral)
    }
}

/// The value at a position (white space may precede it) inside `depth`
/// containers, and the position after it.
pub open spec fn value(d: Seq<u8>, at: int, depth: nat) -> Result<(JsonModel, int), JsonError>
    decreases 2 * MAX_DEPTH - depth, d.len() - at, 3nat,
{
    proof {
        lemma_skip_space(d, at);
    }
    let p = skip_space(d, at);
    match byte_at(d, p) {
        None => Err(JsonError::UnexpectedChar),
        Some(b) => if b == 0x22 {
            match string_body(d, p + 1) {
                Ok((s, q)) => Ok((JsonModel::Text(s), q)),
                Err(e) => Err(e),
            }
        } else if b == 0x7B {
            object(d, p, depth)
        } else if b == 0x5B {
            array(d, p, depth)
        } else if b == 0x74 || b == 0x66 {
            boolean(d, p)
        } else if b == 0x6E {
            null(d, p)
        } else if b == 0x2D || is_digit(b) {
            number(d, p)
        } else {
            Err(JsonError::UnexpectedChar)
        },
    }
}

/// The object whose opening brace stands at `p`.
pub open spec fn object(d: Seq<u8>, p: int, depth: nat) -> Result<(JsonModel, int), JsonError>
    decreases 2 * MAX_DEPTH - depth, d.len() - p, 2nat,
{
    let q = skip_space(d, p + 1);
    if depth >= MAX_DEPTH {
        Err(JsonError::TooDeep)
    } else if byte_at(d, q) == Some(0x7Du8) {
        Ok((JsonModel::Object(Seq::empty()), q + 1))
    } else {
        match entries(d, q, depth + 1) {
            Ok((es, e)) => Ok((JsonModel::Object(es), e)),
            Err(e) => Err(e),
        }
    }
}

/// One or more entries of an object, with the closing brace.
pub open spec fn entries(d: Seq<u8>, at: int, depth: nat) -> Result<
    (Seq<(Seq<char>, JsonModel)>, int),
    JsonError,
>
    decreases 2 * MAX_DEPTH - depth, d.len() - at, 1nat,
{
    let p = skip_space(d, at);
    if byte_at(d, p) != Some(0x22u8) {
        Err(JsonError::KeyNotString)
    } else {
        match string_body(d, p + 1) {
            Err(e) => Err(e),
            Ok((k, key_end)) => {
                proof {
                    lemma_skip_space(d, at);
                    if 0 <= p {
                        lemma_string_body_advances(d, p + 1);
                        lemma_skip_space(d, key_end);
                    }
                }
                let colon = skip_space(d, key_end);
                if byte_at(d, colon) != Some(0x3Au8) {
                    Err(JsonError::ExpectedColon)
                } else {
                    match value(d, colon + 1, depth) {
                        Err(e) => Err(e),
                        Ok((v, value_end)) => {
                            let q = skip_space(d, value_end);
                            if byte_at(d, q) == Some(0x7Du8) {
                                Ok((seq![(k, v)], q + 1))
                            } else if byte_at(d, q) == Some(0x2Cu8) && at < q + 1 {
                                prepend_entries(seq![(k, v)], entries(d, q + 1, depth))
                            } else {
                                Err(JsonError::ExpectedCommaOrEnd)
                            }
                        },
                    }
                }
            },
        }
    }
}

/// Entries with others put in front.
pub open spec fn prepend_entries(
    front: Seq<(Seq<char>, JsonModel)>,
    r: Result<(Seq<(Seq<char>, JsonModel)>, int), JsonError>,
) -> Result<(Seq<(Seq<char>, JsonModel)>, int), JsonError> {
    match r {
        Ok((s, q)) => Ok((front + s, q)),
        Err(e) => Err(e),
    }
}

/// The array whose opening bracket stands at `p`.
pub open spec fn array(d: Seq<u8>, p: int, depth: nat) -> Result<(JsonModel, int), JsonError>
    decreases 2 * MAX_DEPTH - depth, d.len() - p, 2nat,
{
    let q = skip_space(d, p + 1);
    if depth >= MAX_DEPTH {
        Err(JsonError::TooDeep)
    } else if byte_at(d, q) == Some(0x5Du8) {
        Ok((JsonModel::Array(Seq::empty()), q + 1))
    } else {
        match items(d, q, depth + 1) {
            Ok((vs, e)) => Ok((JsonModel::Array(vs), e)),
            Err(e) => Err(e),
        }
    }
}

/// One or more items of an array, with the closing bracket.
pub open spec fn items(d: Seq<u8>, at: int, depth: nat) -> Result<
    (Seq<JsonModel>, int),
    JsonError,
>
    decreases 2 * MAX_DEPTH - depth, d.len() - at, 4nat,
{
    match value(d, at, depth) {
        Err(e) => Err(e),
        Ok((v, value_end)) => {
            let q = skip_space(d, value_end);
            if byte_at(d, q) == Some(0x5Du8) {
                Ok((seq![v], q + 1))
            } else if byte_at(d, q) == Some(0x2Cu8) && at < q + 1 {
                prepend_items(seq![v], items(d, q + 1, depth))
            } else {
                Err(JsonError::ExpectedCommaOrEnd)
            }
        },
    }
}

/// Items with others put in front.
pub open spec fn prepend_items(
    front: Seq<JsonModel>,
    r: Result<(Seq<JsonModel>, int), JsonError>,
) -> Result<(Seq<JsonModel>, int), JsonError> {
    match r {
        Ok((s, q)) => Ok((front + s, q)),
        Err(e) => Err(e),
    }
}

/// What a whole JSON text stands for: one value with nothing but white space
/// around it.
pub open spec fn document(d: Seq<u8>) -> Result<JsonModel, JsonError> {
    if skip_space(d, 0) >= d.len() {
        Err(JsonError::Empty)
    } else {
        match value(d, 0, 0) {
            Err(e) => Err(e),
            Ok((v, q)) => if skip_space(d, q) < d.len() {
                Err(JsonError::TrailingData)
            } else {
                Ok(v)
            },
        }
    }
}

pub proof fn lemma_skip_space(d: Seq<u8>, p: int)
    ensures
        p <= skip_space(d, p),
        p <= d.len() ==> skip_space(d, p) <= d.len(),
        byte_at(d, skip_space(d, p)) matches Some(b) ==> !is_space(b),
        skip_space(d, skip_space(d, p)) == skip_space(d, p),
    decreases d.len() - p,
{
    if 0 <= p < d.len() && is_space(d[p]) {
        lemma_skip_space(d, p + 1);
    }
}

pub proof fn lemma_string_body_advances(d: Seq<u8>, p: int)
    requires
        0 <= p,
    ensures
        string_body(d, p) matches Ok((s, q)) ==> p < q <= d.len(),
    decreases d.len() - p,
{
    if byte_at(d, p) != Some(0x22u8) && p < d.len() {
        lemma_string_char_advances(d, p);
        if let Ok((c, q)) = string_char(d, p) {
            lemma_string_body_advances(d, q);
        }
    }
}

proof fn lemma_digits_end(d: Seq<u8>, p: int)
    requires
        0 <= p <= d.len(),
    ensures
        p <= digits_end(d, p) <= d.len(),
        forall|i: int| p <= i < digits_end(d, p) ==> is_digit(#[trigger] d[i]),
        digits_end(d, p) < d.len() ==> !is_digit(d[digits_end(d, p)]),
    decreases d.len() - p,
{
    if p < d.len() && is_digit(d[p]) {
        lemma_digits_end(d, p + 1);
    }
}

/// White space in front of a value does not matter.
proof fn lemma_value_skips(d: Seq<u8>, at: int, depth: nat)
    ensures
        value(d, skip_space(d, at), depth) == value(d, at, depth),
{
    lemma_skip_space(d, at);
}

/// A value takes at least one byte and ends within the text.
pub proof fn lemma_value_advances(d: Seq<u8>, at: int, depth: nat)
    requires
        0 <= at <= d.len(),
    ensures
        value(d, at, depth) matches Ok((v, q)) ==> at < q <= d.len(),
    decreases 2 * MAX_DEPTH - depth, d.len() - at, 3nat,
{
    lemma_skip_space(d, at);
    let p = skip_space(d, at);
    if let Some(b) = byte_at(d, p) {
        lemma_string_body_advances(d, p + 1);
        lemma_skip_space(d, p + 1);
        if b == 0x2D {
            lemma_digits_end(d, p + 1);
        } else {
            lemma_digits_end(d, p);
        }
        if depth < MAX_DEPTH {
            let q = skip_space(d, p + 1);
            if b == 0x7B && byte_at(d, q) != Some(0x7Du8) {
                lemma_entries_advance(d, q, depth + 1);
            }
            if b == 0x5B && byte_at(d, q) != Some(0x5Du8) {
                lemma_items_advance(d, q, depth + 1);
            }
        }
    }
}

proof fn lemma_entries_advance(d: Seq<u8>, at: int, depth: nat)
    requires
        0 <= at <= d.len(),
    ensures
        entries(d, at, depth) matches Ok((v, q)) ==> at < q <= d.len(),
    decreases 2 * MAX_DEPTH - depth, d.len() - at, 1nat,
{
    lemma_skip_space(d, at);
    let p = skip_space(d, at);
    if byte_at(d, p) == Some(0x22u8) {
        lemma_string_body_advances(d, p + 1);
        if let Ok((k, key_end)) = string_body(d, p + 1) {
            lemma_skip_space(d, key_end);
            let colon = skip_space(d, key_end);
            if byte_at(d, colon) == Some(0x3Au8) {
                lemma_value_advances(d, colon + 1, depth);
                if let Ok((v, value_end)) = value(d, colon + 1, depth) {
                    lemma_skip_space(d, value_end);
                    let q = skip_space(d, value_end);
                    if byte_at(d, q) == Some(0x2Cu8) {
                        lemma_entries_advance(d, q + 1, depth);
                    }
                }
            }
        }
    }
}

proof fn lemma_items_advance(d: Seq<u8>, at: int, depth: nat)
    requires
        0 <= at <= d.len(),
    ensures
        items(d, at, depth) matches Ok((v, q)) ==> at < q <= d.len(),
    decreases 2 * MAX_DEPTH - depth, d.len() - at, 4nat,
{
    lemma_value_advances(d, at, depth);
    if let Ok((v, value_end)) = value(d, at, depth) {
        lemma_skip_space(d, value_end);
        let q = skip_space(d, value_end);
        if byte_at(d, q) == Some(0x2Cu8) {
            lemma_items_advance(d, q + 1, depth);
        }
    }
}

// ---------------------------------------------------------------------------
// The parser
// ---------------------------------------------------------------------------

/// Recursive-descent JSON parser over a complete input.
pub struct JsonParser<'a> {
    /// The input bytes.
    data: &'a [u8],
    /// Current read position.
    pos: usize,
    /// Current nesting depth (incremented on `{` and `[`).
    depth: usize,
}

/// How a parse result shows what the grammar gives at a position.
pub open spec fn shows(
    r: Result<JsonValue, JsonError>,
    pos: usize,
    g: Result<(JsonModel, int), JsonError>,
) -> bool {
    match g {
        Ok((m, q)) => r is Ok && r->Ok_0@ == m && pos == q,
        Err(e) => r == Err::<JsonValue, JsonError>(e),
    }
}

impl<'a> JsonParser<'a> {
    pub closed spec fn input(&self) -> Seq<u8> {
        self.data@
    }

    pub closed spec fn position(&self) -> usize {
        self.pos
    }

    pub closed spec fn nesting(&self) -> usize {
        self.depth
    }

    /// The read position lies within the input and the nesting within its limit.
    pub open spec fn wf(&self) -> bool {
        self.position() <= self.input().len() <= usize::MAX && self.nesting() <= MAX_DEPTH
    }

    /// Parse a JSON value from the given bytes.
    pub fn parse(data: &'a [u8]) -> (r: Result<JsonValue, JsonError>)
        ensures
            match document(data@) {
                Ok(m) => r is Ok && r->Ok_0@ == m,
                Err(e) => r == Err::<JsonValue, JsonError>(e),
            },
    {
        assert(data@.len() == data.len());
        let mut parser = Self { data, pos: 0, depth: 0 };
        parser.skip_whitespace();
        if parser.pos >= parser.data.len() {
            return Err(JsonError::Empty);
        }
        proof {
            lemma_skip_space(data@, 0);
            lemma_value_skips(data@, 0, 0);
        }
        let v = match parser.parse_value() {
            Ok(v) => v,
            Err(e) => {
                return Err(e);
            },
        };
        parser.skip_whitespace();
        if parser.pos < parser.data.len() {
            return Err(JsonError::TrailingData);
        }
        Ok(v)
    }

    /// Parse a single JSON value at the current position.
    pub fn parse_value(&mut self) -> (r: Result<JsonValue, JsonError>)
        requires
            old(self).wf(),
        ensures
            final(self).input() == old(self).input(),
            r is Ok ==> final(self).wf() && final(self).nesting() == old(self).nesting(),
            shows(
                r,
                final(self).position(),
                value(old(self).input(), old(self).position() as int, old(self).nesting() as nat),
            ),
        decreases MAX_DEPTH - old(self).nesting(), old(self).input().len() - old(self).position(), 2nat,
    {
        let ghost d = self.data@;
        let ghost at = self.pos as int;
        proof {
            lemma_skip_space(d, at);
            lemma_value_advances(d, at, self.depth as nat);
        }
        self.skip_whitespace();
        match self.peek() {
            None => Err(JsonError::UnexpectedChar),
            Some(byte) => {
                if byte == 0x22 {
                    match self.parse_string() {
                        Ok(s) => Ok(JsonValue::String(s)),
                        Err(e) => Err(e),
                    }
                } else if byte == 0x7B {
                    self.parse_object()
                } else if byte == 0x5B {
                    self.parse_array()
                } else if byte == 0x74 || byte == 0x66 {
                    self.parse_bool()
                } else if byte == 0x6E {
                    self.parse_null()
                } else if byte == 0x2D || (0x30 <= byte && byte <= 0x39) {
                    self.parse_number()
                } else {
                    Err(JsonError::UnexpectedChar)
                }
            },
        }
    }

    /// Parse a JSON string (the opening `"` is at the current position).
    pub fn parse_string(&mut self) -> (r: Result<String, JsonError>)
        requires
            old(self).wf(),
            old(self).position() < old(self).input().len(),
        ensures
            final(self).input() == old(self).input(),
            r is Ok ==> final(self).wf() && final(self).nesting() == old(self).nesting(),
            match string_body(old(self).input(), old(self).position() + 1) {
                Ok((s, q)) => r is Ok && r->Ok_0@ == s && final(self).position() == q,
                Err(e) => r == Err::<String, JsonError>(e),
            },
    {
        self.advance();
        let ghost d = self.data@;
        let ghost start = self.pos as int;
        let mut s = String::new();
        proof {
            assert(Seq::<char>::empty() + string_text(string_body(d, start)) =~= string_text(
                string_body(d, start),
            ));
        }
        loop
            invariant
                self.wf(),
                self.data@ == d,
                d == old(self).input(),
                self.depth == old(self).nesting(),
                start == old(self).position() + 1,
                string_body(d, start) == prepend_chars(s@, string_body(d, self.pos as int)),
            decreases d.len() - self.pos,
        {
            let ghost p = self.pos as int;
            let ghost s0 = s@;
            proof {
                lemma_string_char_advances(d, p);
            }
            let byte = match self.next_byte() {
                Some(b) => b,
                None => {
                    return Err(JsonError::UnterminatedString);
                },
            };
            if byte == 0x22 {
                assert(s0 + Seq::<char>::empty() =~= s0);
                return Ok(s);
            }
            if byte == 0x5C {
                let esc = match self.next_byte() {
                    Some(b) => b,
                    None => {
                        return Err(JsonError::InvalidEscape);
                    },
                };
                if esc == 0x22 {
                    s.push('"');
                } else if esc == 0x5C {
                    s.push('\\');
                } else if esc == 0x2F {
                    s.push('/');
                } else if esc == 0x62 {
                    s.push('\u{08}');
                } else if esc == 0x66 {
                    s.push('\u{0C}');
                } else if esc == 0x6E {
                    s.push('\n');
                } else if esc == 0x72 {
                    s.push('\r');
                } else if esc == 0x74 {
                    s.push('\t');
                } else if esc == 0x75 {
                    let cp = match self.parse_unicode_escape() {
                        Ok(cp) => cp,
                        Err(e) => {
                            return Err(e);
                        },
                    };
                    s.push(char_for(cp));
                } else {
                    return Err(JsonError::InvalidEscape);
                }
            } else if byte < 0x80 {
                s.push(byte as char);
            } else {
                let (bits, extra) = match decode_utf8_leading(byte) {
                    Ok(l) => l,
                    Err(e) => {
                        return Err(e);
                    },
                };
                let c = match self.parse_continuation(bits, extra) {
                    Ok(c) => c,
                    Err(e) => {
                        return Err(e);
                    },
                };
                s.push(c);
            }
            proof {
                let c = s@.last();
                assert(s@ == s0.push(c));
                assert(string_char(d, p) == Ok::<(char, int), JsonError>((c, self.pos as int)));
                assert forall|t: Seq<char>| #[trigger] (s0 + (seq![c] + t)) == s@ + t by {
                    assert(s0 + (seq![c] + t) =~= s@ + t);
                }
            }
        }
    }

    /// Reads the continuation bytes of a multi-byte character.
    fn parse_continuation(&mut self, bits: u32, extra: usize) -> (r: Result<char, JsonError>)
        requires
            old(self).wf(),
            extra <= 3,
            extra == 1 ==> bits < 32,
            extra == 2 ==> bits < 16,
            extra == 3 ==> bits < 8,
        ensures
            final(self).input() == old(self).input(),
            final(self).wf(),
            final(self).nesting() == old(self).nesting(),
            match continued_char(
                old(self).input(),
                old(self).position() as int,
                extra as nat,
                bits,
            ) {
                Ok((c, q)) => r == Ok::<char, JsonError>(c) && final(self).position() == q,
                Err(e) => r == Err::<char, JsonError>(e),
            },
    {
        let ghost d = self.data@;
        let ghost start = self.pos as int;
        let mut code: u32 = bits;
        let mut left: usize = extra;
        while left > 0
            invariant
                self.wf(),
                self.data@ == d,
                d == old(self).input(),
                start == old(self).position(),
                self.depth == old(self).nesting(),
                left <= 3,
                left == 1 ==> code < 32 * 64 * 64,
                left == 2 ==> code < 16 * 64,
                left == 3 ==> code < 8,
                continued_char(d, start, extra as nat, bits) == continued_char(
                    d,
                    self.pos as int,
                    left as nat,
                    code,
                ),
            decreases left,
        {
            match self.next_byte() {
                None => {
                    return Err(JsonError::UnterminatedString);
                },
                Some(cont) => {
                    if cont < 0x80 || cont > 0xBF {
                        return Err(JsonError::UnexpectedChar);
                    }
                    code = code * 64 + (cont - 0x80) as u32;
                },
            }
            left -= 1;
        }
        Ok(char_for(code))
    }

    /// Parse a `\uXXXX` Unicode escape (the `\u` has already been consumed).
    pub fn parse_unicode_escape(&mut self) -> (r: Result<u32, JsonError>)
        requires
            old(self).wf(),
        ensures
            final(self).input() == old(self).input(),
            final(self).wf(),
            final(self).nesting() == old(self).nesting(),
            match unicode_escape(old(self).input(), old(self).position() as int) {
                Ok((code, q)) => r == Ok::<u32, JsonError>(code) && final(self).position() == q,
                Err(e) => r == Err::<u32, JsonError>(e),
            },
    {
        let ghost d = self.data@;
        let ghost start = self.pos as int;
        let mut cp: u32 = 0;
        let mut i: usize = 0;
        while i < 4
            invariant
                i <= 4,
                self.wf(),
                self.data@ == d,
                d == old(self).input(),
                start == old(self).position(),
                self.depth == old(self).nesting(),
                self.pos == start + i,
                forall|j: int| 0 <= j < i ==> #[trigger] hex_value(d[start + j]) is Some,
                i == 0 ==> cp == 0,
                i == 1 ==> cp == hex_value(d[start])->0 && cp < 0x10,
                i == 2 ==> cp == hex_value(d[start])->0 * 0x10 + hex_value(d[start + 1])->0 && cp
                    < 0x100,
                i == 3 ==> cp == hex_value(d[start])->0 * 0x100 + hex_value(d[start + 1])->0 * 0x10
                    + hex_value(d[start + 2])->0 && cp < 0x1000,
                i == 4 ==> cp == hex_value(d[start])->0 * 0x1000 + hex_value(d[start + 1])->0
                    * 0x100 + hex_value(d[start + 2])->0 * 0x10 + hex_value(d[start + 3])->0,
            decreases 4 - i,
        {
            let b = match self.next_byte() {
                Some(b) => b,
                None => {
                    return Err(JsonError::InvalidUnicodeEscape);
                },
            };
            let digit = match hex_digit(b) {
                Some(n) => n,
                None => {
                    assert(hex_value(d[start + i]) is None);
                    return Err(JsonError::InvalidUnicodeEscape);
                },
            };
            assert(hex_value(d[start + i]) == Some(digit as u32));
            cp = cp * 16 + digit as u32;
            i += 1;
        }
        assert(hex_value(d[start + 0]) is Some && hex_value(d[start + 1]) is Some && hex_value(
            d[start + 2],
        ) is Some && hex_value(d[start + 3]) is Some);
        Ok(cp)
    }

    /// Parse a JSON object (its `{` is at the current position).
    pub fn parse_object(&mut self) -> (r: Result<JsonValue, JsonError>)
        requires
            old(self).wf(),
            old(self).position() < old(self).input().len(),
        ensures
            final(self).input() == old(self).input(),
            r is Ok ==> final(self).wf() && final(self).nesting() == old(self).nesting(),
            shows(
                r,
                final(self).position(),
                object(old(self).input(), old(self).position() as int, old(self).nesting() as nat),
            ),
        decreases MAX_DEPTH - old(self).nesting(), old(self).input().len() - old(self).position(), 1nat,
    {
        let ghost d = self.data@;
        let ghost outer = self.depth as nat;
        self.advance();
        if self.depth >= MAX_DEPTH {
            return Err(JsonError::TooDeep);
        }
        self.depth += 1;
        let mut found: Vec<(String, JsonValue)> = Vec::new();
        proof {
            lemma_skip_space(d, self.pos as int);
        }
        self.skip_whitespace();
        if self.peek() == Some(0x7Du8) {
            self.advance();
            self.depth -= 1;
            let v = JsonValue::Object(found);
            proof {
                lemma_container_views(v);
                assert(entries_model(found@) =~= Seq::empty());
            }
            return Ok(v);
        }
        let ghost start = self.pos as int;
        proof {
            lemma_prepend_nothing(d, start, outer + 1);
            assert(entries_model(found@) =~= Seq::empty());
        }
        loop
            invariant
                self.wf(),
                self.data@ == d,
                d == old(self).input(),
                outer == old(self).nesting(),
                self.depth == outer + 1,
                old(self).position() < self.pos,
                object(d, old(self).position() as int, outer) == (match entries(
                    d,
                    start,
                    outer + 1,
                ) {
                    Ok((es, e)) => Ok::<(JsonModel, int), JsonError>((JsonModel::Object(es), e)),
                    Err(e) => Err(e),
                }),
                entries(d, start, outer + 1) == prepend_entries(
                    entries_model(found@),
                    entries(d, self.pos as int, outer + 1),
                ),
            decreases d.len() - self.pos,
        {
            let ghost before = found@;
            let ghost at = self.pos as int;
            proof {
                lemma_skip_space(d, at);
            }
            self.skip_whitespace();
            if self.peek() != Some(0x22u8) {
                return Err(JsonError::KeyNotString);
            }
            proof {
                lemma_string_body_advances(d, self.pos + 1);
            }
            let key = match self.parse_string() {
                Ok(k) => k,
                Err(e) => {
                    return Err(e);
                },
            };
            proof {
                lemma_skip_space(d, self.pos as int);
            }
            self.skip_whitespace();
            if self.next_byte() != Some(0x3Au8) {
                return Err(JsonError::ExpectedColon);
            }
            let ghost value_at = self.pos as int;
            proof {
                lemma_skip_space(d, value_at);
                lemma_value_skips(d, value_at, outer + 1);
                lemma_value_advances(d, value_at, outer + 1);
            }
            self.skip_whitespace();
            let value = match self.parse_value() {
                Ok(v) => v,
                Err(e) => {
                    return Err(e);
                },
            };
            let ghost entry = (key@, value@);
            found.push((key, value));
            proof {
                lemma_skip_space(d, self.pos as int);
                assert(entries_model(found@) =~= entries_model(before).push(entry));
            }
            self.skip_whitespace();
            match self.peek() {
                Some(0x2Cu8) => {
                    self.advance();
                    proof {
                        lemma_prepend_entry(
                            entries_model(before),
                            entry,
                            entries(d, self.pos as int, outer + 1),
                        );
                    }
                },
                Some(0x7Du8) => {
                    self.advance();
                    self.depth -= 1;
                    let v = JsonValue::Object(found);
                    proof {
                        lemma_container_views(v);
                        assert(entries_model(before) + seq![entry] =~= entries_model(found@));
                    }
                    return Ok(v);
                },
                _ => {
                    return Err(JsonError::ExpectedCommaOrEnd);
                },
            }
        }
    }

    /// Parse a JSON array (its `[` is at the current position).
    pub fn parse_array(&mut self) -> (r: Result<JsonValue, JsonError>)
        requires
            old(self).wf(),
            old(self).position() < old(self).input().len(),
        ensures
            final(self).input() == old(self).input(),
            r is Ok ==> final(self).wf() && final(self).nesting() == old(self).nesting(),
            shows(
                r,
                final(self).position(),
                array(old(self).input(), old(self).position() as int, old(self).nesting() as nat),
            ),
        decreases MAX_DEPTH - old(self).nesting(), old(self).input().len() - old(self).position(), 1nat,
    {
        let ghost d = self.data@;
        let ghost outer = self.depth as nat;
        self.advance();
        if self.depth >= MAX_DEPTH {
            return Err(JsonError::TooDeep);
        }
        self.depth += 1;
        let mut found: Vec<JsonValue> = Vec::new();
        proof {
            lemma_skip_space(d, self.pos as int);
        }
        self.skip_whitespace();
        if self.peek() == Some(0x5Du8) {
            self.advance();
            self.depth -= 1;
            let v = JsonValue::Array(found);
            proof {
                lemma_container_views(v);
                assert(items_model(found@) =~= Seq::empty());
            }
            return Ok(v);
        }
        let ghost start = self.pos as int;
        proof {
            lemma_prepend_nothing(d, start, outer + 1);
            assert(items_model(found@) =~= Seq::empty());
        }
        loop
            invariant
                self.wf(),
                self.data@ == d,
                d == old(self).input(),
                outer == old(self).nesting(),
                self.depth == outer + 1,
                old(self).position() < self.pos,
                array(d, old(self).position() as int, outer) == (match items(d, start, outer + 1) {
                    Ok((vs, e)) => Ok::<(JsonModel, int), JsonError>((JsonModel::Array(vs), e)),
                    Err(e) => Err(e),
                }),
                items(d, start, outer + 1) == prepend_items(
                    items_model(found@),
                    items(d, self.pos as int, outer + 1),
                ),
            decreases d.len() - self.pos,
        {
            let ghost before = found@;
            let ghost at = self.pos as int;
            proof {
                lemma_skip_space(d, at);
                lemma_value_skips(d, at, outer + 1);
                lemma_value_advances(d, at, outer + 1);
            }
            self.skip_whitespace();
            let value = match self.parse_value() {
                Ok(v) => v,
                Err(e) => {
                    return Err(e);
                },
            };
            let ghost item = value@;
            found.push(value);
            proof {
                lemma_skip_space(d, self.pos as int);
                assert(items_model(found@) =~= items_model(before).push(item));
            }
            self.skip_whitespace();
            match self.peek() {
                Some(0x2Cu8) => {
                    self.advance();
                    proof {
                        lemma_prepend_item(
                            items_model(before),
                            item,
                            items(d, self.pos as int, outer + 1),
                        );
                    }
                },
                Some(0x5Du8) => {
                    self.advance();
                    self.depth -= 1;
                    let v = JsonValue::Array(found);
                    proof {
                        lemma_container_views(v);
                        assert(items_model(before) + seq![item] =~= items_model(found@));
                    }
                    return Ok(v);
                },
                _ => {
                    return Err(JsonError::ExpectedCommaOrEnd);
                },
            }
        }
    }

    /// Whether the unread input starts with `word`.
    fn at_word(&self, word: &[u8]) -> (r: bool)
        requires
            self.wf(),
        ensures
            r == has_word(self.input(), self.position() as int, word@),
    {
        if self.data.len() - self.pos < word.len() {
            return false;
        }
        same_bytes(byte_range(self.data, self.pos, self.pos + word.len()), word)
    }

    /// Parse a JSON boolean (`true` or `false`).
    pub fn parse_bool(&mut self) -> (r: Result<JsonValue, JsonError>)
        requires
            old(self).wf(),
        ensures
            final(self).wf(),
            final(self).input() == old(self).input(),
            final(self).nesting() == old(self).nesting(),
            shows(
                r,
                final(self).position(),
                boolean(old(self).input(), old(self).position() as int),
            ),
    {
        let yes: [u8; 4] = [0x74, 0x72, 0x75, 0x65];
        let no: [u8; 5] = [0x66, 0x61, 0x6C, 0x73, 0x65];
        assert(yes@ =~= word_true());
        assert(no@ =~= word_false());
        if self.at_word(yes.as_slice()) {
            self.pos += 4;
            Ok(JsonValue::Bool(true))
        } else if self.at_word(no.as_slice()) {
            self.pos += 5;
            Ok(JsonValue::Bool(false))
        } else {
            Err(JsonError::InvalidLiteral)
        }
    }

    /// Parse a JSON null.
    pub fn parse_null(&mut self) -> (r: Result<JsonValue, JsonError>)
        requires
            old(self).wf(),
        ensures
            final(self).wf(),
            final(self).input() == old(self).input(),
            final(self).nesting() == old(self).nesting(),
            shows(r, final(self).position(), null(old(self).input(), old(self).position() as int)),
    {
        let word: [u8; 4] = [0x6E, 0x75, 0x6C, 0x6C];
        assert(word@ =~= word_null());
        if self.at_word(word.as_slice()) {
            self.pos += 4;
            Ok(JsonValue::Null)
        } else {
            Err(JsonError::InvalidLiteral)
        }
    }

    /// Parse a JSON number (integers only, no leading zero but `0` itself).
    pub fn parse_number(&mut self) -> (r: Result<JsonValue, JsonError>)
        requires
            old(self).wf(),
        ensures
            final(self).wf(),
            final(self).input() == old(self).input(),
            final(self).nesting() == old(self).nesting(),
            shows(r, final(self).position(), number(old(self).input(), old(self).position() as int)),
    {
        let ghost d = self.data@;
        let negative = self.peek() == Some(0x2Du8);
        if negative {
            self.advance();
        }
        let start = self.pos;
        proof {
            lemma_digits_end(d, start as int);
            assert(d.subrange(start as int, start as int) =~= Seq::empty());
        }
        let mut magnitude: u64 = 0;
        let mut overflow = false;
        while self.pos < self.data.len() && 0x30 <= self.data[self.pos] && self.data[self.pos]
            <= 0x39
            invariant
                self.wf(),
                self.data@ == d,
                d == old(self).input(),
                self.depth == old(self).nesting(),
                start <= self.pos,
                digits_end(d, start as int) == digits_end(d, self.pos as int),
                !overflow ==> magnitude == digits_value(d.subrange(start as int, self.pos as int)),
                overflow ==> digits_value(d.subrange(start as int, self.pos as int)) > u64::MAX,
            decreases d.len() - self.pos,
        {
            let digit = (self.data[self.pos] - 0x30) as u64;
            proof {
                let longer = d.subrange(start as int, self.pos + 1);
                assert(longer.drop_last() =~= d.subrange(start as int, self.pos as int));
                assert(longer.last() == d[self.pos as int]);
            }
            match magnitude.checked_mul(10) {
                Some(m) => match m.checked_add(digit) {
                    Some(m) => {
                        magnitude = m;
                    },
                    None => {
                        overflow = true;
                    },
                },
                None => {
                    overflow = true;
                },
            }
            self.pos += 1;
        }
        if self.pos == start {
            return Err(JsonError::InvalidNumber);
        }
        if self.data[start] == 0x30 && self.pos > start + 1 {
            return Err(JsonError::InvalidNumber);
        }
        if overflow {
            return Err(JsonError::InvalidNumber);
        }
        if negative {
            if magnitude > 0x8000_0000_0000_0000 {
                return Err(JsonError::InvalidNumber);
            }
            Ok(JsonValue::Number((0 - magnitude as i128) as i64))
        } else {
            if magnitude > 0x7FFF_FFFF_FFFF_FFFF {
                return Err(JsonError::InvalidNumber);
            }
            Ok(JsonValue::Number(magnitude as i64))
        }
    }

    /// Skip whitespace characters (space, tab, newline, carriage return).
    pub fn skip_whitespace(&mut self)
        requires
            old(self).wf(),
        ensures
            final(self).wf(),
            final(self).input() == old(self).input(),
            final(self).nesting() == old(self).nesting(),
            final(self).position() == skip_space(old(self).input(), old(self).position() as int),
    {
        let ghost start = self.pos as int;
        while self.pos < self.data.len() && (self.data[self.pos] == 0x20 || self.data[self.pos]
            == 0x09 || self.data[self.pos] == 0x0A || self.data[self.pos] == 0x0D)
            invariant
                self.wf(),
                self.data@ == old(self).input(),
                self.depth == old(self).nesting(),
                skip_space(self.data@, start) == skip_space(self.data@, self.pos as int),
            decreases self.data@.len() - self.pos,
        {
            self.pos += 1;
        }
    }

    /// Peek at the byte at the current position without advancing.
    pub fn peek(&self) -> (r: Option<u8>)
        ensures
            r == byte_at(self.input(), self.position() as int),
    {
        if self.pos < self.data.len() {
            Some(self.data[self.pos])
        } else {
            None
        }
    }

    /// Read the byte at the current position and advance.
    pub fn next_byte(&mut self) -> (r: Option<u8>)
        requires
            old(self).wf(),
        ensures
            final(self).wf(),
            final(self).input() == old(self).input(),
            final(self).nesting() == old(self).nesting(),
            r == byte_at(old(self).input(), old(self).position() as int),
            final(self).position() == old(self).position() + (if r is Some {
                1int
            } else {
                0
            }),
    {
        let b = self.peek();
        if b.is_some() {
            self.pos += 1;
        }
        b
    }

    /// Advance the position by one byte.
    pub fn advance(&mut self)
        requires
            old(self).wf(),
            old(self).position() < old(self).input().len(),
        ensures
            final(self).wf(),
            final(self).input() == old(self).input(),
            final(self).nesting() == old(self).nesting(),
            final(self).position() == old(self).position() + 1,
    {
        self.pos += 1;
    }
}

proof fn lemma_prepend_nothing(d: Seq<u8>, at: int, depth: nat)
    ensures
        prepend_entries(Seq::empty(), entries(d, at, depth)) == entries(d, at, depth),
        prepend_items(Seq::empty(), items(d, at, depth)) == items(d, at, depth),
{
    if let Ok((es, e)) = entries(d, at, depth) {
        assert(Seq::<(Seq<char>, JsonModel)>::empty() + es =~= es);
    }
    if let Ok((vs, e)) = items(d, at, depth) {
        assert(Seq::<JsonModel>::empty() + vs =~= vs);
    }
}

proof fn lemma_prepend_entry(
    front: Seq<(Seq<char>, JsonModel)>,
    entry: (Seq<char>, JsonModel),
    r: Result<(Seq<(Seq<char>, JsonModel)>, int), JsonError>,
)
    ensures
        prepend_entries(front, prepend_entries(seq![entry], r)) == prepend_entries(
            front.push(entry),
            r,
        ),
{
    if let Ok((s, q)) = r {
        assert(front + (seq![entry] + s) =~= front.push(entry) + s);
    }
}

proof fn lemma_prepend_item(
    front: Seq<JsonModel>,
    item: JsonModel,
    r: Result<(Seq<JsonModel>, int), JsonError>,
)
    ensures
        prepend_items(front, prepend_items(seq![item], r)) == prepend_items(front.push(item), r),
{
    if let Ok((s, q)) = r {
        assert(front + (seq![item] + s) =~= front.push(item) + s);
    }
}

/// The text of a string body that was read.
spec fn string_text(r: Result<(Seq<char>, int), JsonError>) -> Seq<char> {
    match r {
        Ok((s, q)) => s,
        Err(e) => Seq::empty(),
    }
}

/// The character with a code point, or U+FFFD where the code point has none.
fn char_for(code: u32) -> (c: char)
    ensures
        c == char_or_replacement(code),
{
    match char::from_u32(code) {
        Some(c) => c,
        None => '\u{FFFD}',
    }
}

/// Convert a hex ASCII character to its numeric value (0-15).
pub fn hex_digit(b: u8) -> (r: Option<u8>)
    ensures
        match hex_value(b) {
            Some(v) => r is Some && r->0 == v && v < 16,
            None => r is None,
        },
{
    if 0x30 <= b && b <= 0x39 {
        Some(b - 0x30)
    } else if 0x61 <= b && b <= 0x66 {
        Some(b - 0x61 + 10)
    } else if 0x41 <= b && b <= 0x46 {
        Some(b - 0x41 + 10)
    } else {
        None
    }
}

/// Decode the leading byte of a multi-byte UTF-8 sequence: its payload bits and
/// the number of bytes that follow.
pub fn decode_utf8_leading(byte: u8) -> (r: Result<(u32, usize), JsonError>)
    ensures
        match leading_bits(byte) {
            Some((bits, extra)) => r == Ok::<(u32, usize), JsonError>((bits, extra as usize)),
            None => r == Err::<(u32, usize), JsonError>(JsonError::UnexpectedChar),
        },
{
    if 0xC0 <= byte && byte <= 0xDF {
        Ok(((byte - 0xC0) as u32, 1))
    } else if 0xE0 <= byte && byte <= 0xEF {
        Ok(((byte - 0xE0) as u32, 2))
    } else if 0xF0 <= byte && byte <= 0xF7 {
        Ok(((byte - 0xF0) as u32, 3))
    } else {
        Err(JsonError::UnexpectedChar)
    }
}

// ---------------------------------------------------------------------------
// Accessors
// ---------------------------------------------------------------------------

/// The position of the first entry with a key.
pub open spec fn entry_index(o: Seq<(Seq<char>, JsonModel)>, key: Seq<char>, from: int) -> Option<int>
    decreases o.len() - from,
{
    if !(0 <= from < o.len()) {
        None
    } else if o[from].0 == key {
        Some(from)
    } else {
        entry_index(o, key, from + 1)
    }
}

impl JsonModel {
    /// The field of an object with a key: the first such entry.
    pub open spec fn field(self, key: Seq<char>) -> Option<JsonModel> {
        match self {
            JsonModel::Object(o) => match entry_index(o, key, 0) {
                Some(i) => Some(o[i].1),
                None => None,
            },
            _ => None,
        }
    }

    /// The text of a string.
    pub open spec fn text(self) -> Option<Seq<char>> {
        match self {
            JsonModel::Text(s) => Some(s),
            _ => None,
        }
    }
}

impl JsonValue {
    /// Return this value as a string reference, if it is a `String`.
    pub fn as_str(&self) -> (r: Option<&str>)
        ensures
            match self@.text() {
                Some(s) => r is Some && r->0@ == s,
                None => r is None,
            },
    {
        match self {
            JsonValue::String(s) => Some(s.as_str()),
            _ => None,
        }
    }

    /// Return this value as an i64, if it is a `Number`.
    pub fn as_i64(&self) -> (r: Option<i64>)
        ensures
            match self@ {
                JsonModel::Number(n) => r is Some && r->0 == n,
                _ => r is None,
            },
    {
        match self {
            JsonValue::Number(n) => Some(*n),
            _ => None,
        }
    }

    /// Return this value as a bool, if it is a `Bool`.
    pub fn as_bool(&self) -> (r: Option<bool>)
        ensures
            r == (match self@ {
                JsonModel::Bool(b) => Some(b),
                _ => None::<bool>,
            }),
    {
        match self {
            JsonValue::Bool(b) => Some(*b),
            _ => None,
        }
    }

    /// Return this value as an array reference, if it is an `Array`.
    pub fn as_array(&self) -> (r: Option<&[JsonValue]>)
        ensures
            match self@ {
                JsonModel::Array(a) => r is Some && items_model(r->0@) == a,
                _ => r is None,
            },
    {
        proof {
            lemma_container_views(*self);
        }
        match self {
            JsonValue::Array(a) => Some(a.as_slice()),
            _ => None,
        }
    }

    /// Return this value as an object reference, if it is an `Object`.
    pub fn as_object(&self) -> (r: Option<&[(String, JsonValue)]>)
        ensures
            match self@ {
                JsonModel::Object(o) => r is Some && entries_model(r->0@) == o,
                _ => r is None,
            },
    {
        proof {
            lemma_container_views(*self);
        }
        match self {
            JsonValue::Object(o) => Some(o.as_slice()),
            _ => None,
        }
    }

    /// Look up a field by key in an `Object`: the first entry with that key, or
    /// `None` if this is not an object or the key is not found.
    pub fn get(&self, key: &str) -> (r: Option<&JsonValue>)
        ensures
            match self@.field(key@) {
                Some(m) => r is Some && r->0@ == m,
                None => r is None,
            },
    {
        match self.as_object() {
            None => None,
            Some(entries) => {
                let ghost o = entries_model(entries@);
                let mut i: usize = 0;
                while i < entries.len()
                    invariant
                        i <= entries@.len(),
                        o == entries_model(entries@),
                        self@ == JsonModel::Object(o),
                        entry_index(o, key@, 0) == entry_index(o, key@, i as int),
                    decreases entries@.len() - i,
                {
                    if same_text(entries[i].0.as_str(), key) {
                        return Some(&entries[i].1);
                    }
                    i += 1;
                }
                None
            },
        }
    }

    /// Return true if this value is `Null`.
    pub fn is_null(&self) -> (r: bool)
        ensures
            r == (self@ is Null),
    {
        match self {
            JsonValue::Null => true,
            _ => false,
        }
    }
}

// ---------------------------------------------------------------------------
// The plain rendering of a value
// ---------------------------------------------------------------------------

/// The decimal text of a number.
pub open spec fn number_text(n: int) -> Seq<char> {
    if n < 0 {
        seq!['-'] + ascii(decimal((-n) as nat))
    } else {
        ascii(decimal(n as nat))
    }
}

/// Appends the decimal text of a number.
fn push_number(out: &mut String, n: i64)
    ensures
        final(out)@ == old(out)@ + number_text(n as int),
{
    let ghost before = out@;
    if n < 0 {
        out.push('-');
        let magnitude: u64 = (0 - n as i128) as u64;
        push_decimal(out, magnitude);
        assert(out@ =~= before + number_text(n as int));
    } else {
        push_decimal(out, n as u64);
    }
}

/// How many items or entries a container holds.
pub open spec fn parts(v: JsonModel) -> nat {
    match v {
        JsonModel::Array(a) => a.len(),
        JsonModel::Object(o) => o.len(),
        _ => 0,
    }
}

/// The diagnostic rendering of a value: compact JSON whose strings stand
/// unescaped between quotes.
pub open spec fn display_text(v: JsonModel) -> Seq<char>
    decreases v, parts(v) + 1,
{
    match v {
        JsonModel::Null => "null"@,
        JsonModel::Bool(b) => if b {
            "true"@
        } else {
            "false"@
        },
        JsonModel::Number(n) => number_text(n),
        JsonModel::Text(s) => seq!['"'] + s + seq!['"'],
        JsonModel::Array(a) => seq!['['] + display_items(v, a.len()) + seq![']'],
        JsonModel::Object(o) => seq!['{'] + display_entries(v, o.len()) + seq!['}'],
    }
}

/// The first `n` items of an array, separated by commas.
pub open spec fn display_items(v: JsonModel, n: nat) -> Seq<char>
    decreases v, n,
{
    match v {
        JsonModel::Array(a) => if n == 0 || n > a.len() {
            Seq::empty()
        } else {
            display_items(v, (n - 1) as nat) + (if n > 1 {
                seq![',']
            } else {
                Seq::empty()
            }) + display_text(a[n - 1])
        },
        _ => Seq::empty(),
    }
}

/// The first `n` entries of an object, separated by commas.
pub open spec fn display_entries(v: JsonModel, n: nat) -> Seq<char>
    decreases v, n,
{
    match v {
        JsonModel::Object(o) => if n == 0 || n > o.len() {
            Seq::empty()
        } else {
            display_entries(v, (n - 1) as nat) + (if n > 1 {
                seq![',']
            } else {
                Seq::empty()
            }) + seq!['"'] + o[n - 1].0 + "\":"@ + display_text(o[n - 1].1)
        },
        _ => Seq::empty(),
    }
}

impl JsonValue {
    /// The diagnostic text of the value.
    pub fn to_string(&self) -> (r: String)
        ensures
            r@ == display_text(self@),
    {
        let mut out = String::new();
        self.display_into(&mut out);
        assert(Seq::<char>::empty() + display_text(self@) =~= display_text(self@));
        out
    }

    /// Appends the diagnostic text of the value.
    fn display_into(&self, out: &mut String)
        ensures
            final(out)@ == old(out)@ + display_text(self@),
        decreases *self,
    {
        let ghost before = out@;
        let ghost v = self@;
        proof {
            lemma_container_views(*self);
        }
        match self {
            JsonValue::Null => {
                out.append("null");
            },
            JsonValue::Bool(b) => {
                out.append(if *b { "true" } else { "false" });
            },
            JsonValue::Number(n) => {
                push_number(out, *n);
            },
            JsonValue::String(s) => {
                out.push('"');
                out.append(s.as_str());
                out.push('"');
                assert(out@ =~= before + display_text(v));
            },
            JsonValue::Array(a) => {
                out.push('[');
                let mut i: usize = 0;
                while i < a.len()
                    invariant
                        i <= a@.len(),
                        *self == JsonValue::Array(*a),
                        v == JsonModel::Array(items_model(a@)),
                        out@ == before + (seq!['['] + display_items(v, i as nat)),
                    decreases a@.len() - i,
                {
                    let ghost so_far = out@;
                    if i > 0 {
                        out.push(',');
                    }
                    let ghost comma = if i > 0 {
                        seq![',']
                    } else {
                        Seq::<char>::empty()
                    };
                    assert(out@ =~= so_far + comma);
                    assert(decreases_to!(*self => self->Array_0@[i as int]));
                    a[i].display_into(out);
                    i += 1;
                    assert(out@ =~= before + (seq!['['] + display_items(v, i as nat)));
                }
                out.push(']');
                assert(out@ =~= before + display_text(v));
            },
            JsonValue::Object(o) => {
                out.push('{');
                let mut i: usize = 0;
                while i < o.len()
                    invariant
                        i <= o@.len(),
                        *self == JsonValue::Object(*o),
                        v == JsonModel::Object(entries_model(o@)),
                        out@ == before + (seq!['{'] + display_entries(v, i as nat)),
                    decreases o@.len() - i,
                {
                    let ghost so_far = out@;
                    if i > 0 {
                        out.push(',');
                    }
                    let ghost comma = if i > 0 {
                        seq![',']
                    } else {
                        Seq::<char>::empty()
                    };
                    assert(out@ =~= so_far + comma);
                    out.push('"');
                    out.append(o[i].0.as_str());
                    out.append("\":");
                    assert(decreases_to!(*self => self->Object_0@[i as int].1));
                    o[i].1.display_into(out);
                    i += 1;
                    assert(out@ =~= before + (seq!['{'] + display_entries(v, i as nat)));
                }
                out.push('}');
                assert(out@ =~= before + display_text(v));
            },
        }
    }
}

impl JsonValue {
    /// The same value once more.
    fn copied(&self) -> (r: JsonValue)
        ensures
            r@ == self@,
        decreases *self,
    {
        proof {
            lemma_container_views(*self);
        }
        match self {
            JsonValue::Null => JsonValue::Null,
            JsonValue::Bool(b) => JsonValue::Bool(*b),
            JsonValue::Number(n) => JsonValue::Number(*n),
            JsonValue::String(s) => JsonValue::String(s.as_str().to_owned()),
            JsonValue::Array(a) => {
                let mut items: Vec<JsonValue> = Vec::new();
                let mut i: usize = 0;
                while i < a.len()
                    invariant
                        i <= a@.len(),
                        items@.len() == i,
                        *self == JsonValue::Array(*a),
                        forall|j: int| 0 <= j < i ==> (#[trigger] items@[j])@ == a@[j]@,
                    decreases a@.len() - i,
                {
                    assert(decreases_to!(*self => self->Array_0@[i as int]));
                    items.push(a[i].copied());
                    i += 1;
                }
                assert(items_model(items@) =~= items_model(a@));
                let r = JsonValue::Array(items);
                proof {
                    lemma_container_views(r);
                }
                r
            },
            JsonValue::Object(o) => {
                let mut entries: Vec<(String, JsonValue)> = Vec::new();
                let mut i: usize = 0;
                while i < o.len()
                    invariant
                        i <= o@.len(),
                        entries@.len() == i,
                        *self == JsonValue::Object(*o),
                        forall|j: int|
                            0 <= j < i ==> (#[trigger] entries@[j]).0@ == o@[j].0@
                                && entries@[j].1@ == o@[j].1@,
                    decreases o@.len() - i,
                {
                    assert(decreases_to!(*self => self->Object_0@[i as int].1));
                    let value = o[i].1.copied();
                    entries.push((o[i].0.as_str().to_owned(), value));
                    i += 1;
                }
                assert(entries_model(entries@) =~= entries_model(o@));
                let r = JsonValue::Object(entries);
                proof {
                    lemma_container_views(r);
                }
                r
            },
        }
    }
}

impl Clone for JsonValue {
    fn clone(&self) -> (r: JsonValue)
        ensures
            r@ == self@,
    {
        self.copied()
    }
}

// ---------------------------------------------------------------------------
// The writer
// ---------------------------------------------------------------------------

/// The kind of container that the writer is in.
#[derive(Debug, Clone, Copy, PartialEq, Eq, Structural)]
pub enum WriterContext {
    /// Inside a JSON object.
    Object,
    /// Inside a JSON array.
    Array,
}

/// A hexadecimal digit as a character.
pub open spec fn nibble_char(n: u8) -> char {
    if n <= 9 {
        (0x30 + n) as char
    } else if n <= 15 {
        (0x61 + n - 10) as char
    } else {
        '0'
    }
}

/// How a character is written inside a string.
pub open spec fn escape_char(c: char) -> Seq<char> {
    if c == '"' {
        seq!['\\', '"']
    } else if c == '\\' {
        seq!['\\', '\\']
    } else if c == '\n' {
        seq!['\\', 'n']
    } else if c == '\r' {
        seq!['\\', 'r']
    } else if c == '\t' {
        seq!['\\', 't']
    } else if c == '\u{08}' {
        seq!['\\', 'b']
    } else if c == '\u{0C}' {
        seq!['\\', 'f']
    } else if (c as u32) < 0x20 {
        seq!['\\', 'u', '0', '0', nibble_char((c as u8) / 16), nibble_char((c as u8) % 16)]
    } else {
        seq![c]
    }
}

/// How a text is written inside a string.
pub open spec fn escape(s: Seq<char>) -> Seq<char>
    decreases s.len(),
{
    if s.len() == 0 {
        Seq::empty()
    } else {
        escape(s.drop_last()) + escape_char(s.last())
    }
}

/// What the writer has written, and the open containers with whether each
/// already holds something, the innermost last.
#[verifier::ext_equal]
pub struct WriterModel {
    pub text: Seq<char>,
    pub levels: Seq<(WriterContext, bool)>,
}

impl WriterModel {
    /// Nothing written, no container open.
    pub open spec fn empty() -> WriterModel {
        WriterModel { text: Seq::empty(), levels: Seq::empty() }
    }

    /// The comma that separates what comes next from what the container holds.
    pub open spec fn comma(self) -> Seq<char> {
        if self.levels.len() > 0 && self.levels.last().1 {
            seq![',']
        } else {
            Seq::empty()
        }
    }

    /// What stands in front of a value: items of an array are separated by
    /// commas, entries of an object by the comma in front of their key.
    pub open spec fn before_value(self) -> Seq<char> {
        if self.levels.len() > 0 && self.levels.last().0 == WriterContext::Array {
            self.comma()
        } else {
            Seq::empty()
        }
    }

    /// The innermost container now holds something.
    pub open spec fn counted(self) -> WriterModel {
        WriterModel {
            text: self.text,
            levels: if self.levels.len() > 0 {
                self.levels.update(self.levels.len() - 1, (self.levels.last().0, true))
            } else {
                self.levels
            },
        }
    }

    /// After a complete value with the given text.
    pub open spec fn value(self, t: Seq<char>) -> WriterModel {
        WriterModel { text: self.text + self.before_value() + t, levels: self.levels }.counted()
    }

    /// After the opening of a container.
    pub open spec fn open(self, ctx: WriterContext) -> WriterModel {
        WriterModel {
            text: self.text + self.before_value() + seq![
                match ctx {
                    WriterContext::Object => '{',
                    WriterContext::Array => '[',
                },
            ],
            levels: self.levels.push((ctx, false)),
        }
    }

    /// After an object key.
    pub open spec fn key(self, name: Seq<char>) -> WriterModel {
        WriterModel {
            text: self.text + self.comma() + seq!['"'] + escape(name) + seq!['"', ':'],
            levels: self.levels,
        }
    }

    /// After the end of the innermost container.
    pub open spec fn end(self) -> WriterModel {
        if self.levels.len() == 0 {
            self
        } else {
            WriterModel {
                text: self.text + seq![
                    match self.levels.last().0 {
                        WriterContext::Object => '}',
                        WriterContext::Array => ']',
                    },
                ],
                levels: self.levels.drop_last(),
            }.counted()
        }
    }
}

/// One open container of a writer.
#[derive(Debug, Clone, Copy)]
struct Level {
    /// Object or array.
    ctx: WriterContext,
    /// Number of values written at this level.
    count: usize,
}

/// A streaming JSON emitter that builds a JSON text call by call and inserts
/// the commas itself.
#[derive(Debug)]
pub struct JsonWriter {
    /// The output being built.
    buf: String,
    /// The open containers, the innermost last.
    stack: Vec<Level>,
}

impl View for JsonWriter {
    type V = WriterModel;

    closed spec fn view(&self) -> WriterModel {
        WriterModel {
            text: self.buf@,
            levels: Seq::new(
                self.stack@.len(),
                |i: int| (self.stack@[i].ctx, self.stack@[i].count > 0),
            ),
        }
    }
}

impl JsonWriter {
    /// Create a new writer with an empty output buffer.
    pub fn new() -> (w: Self)
        ensures
            w@ == WriterModel::empty(),
    {
        let w = JsonWriter { buf: String::new(), stack: Vec::new() };
        assert(w@ =~= WriterModel::empty());
        w
    }

    /// Start a JSON object (`{`).
    pub fn object_start(&mut self)
        ensures
            final(self)@ == old(self)@.open(WriterContext::Object),
    {
        self.pre_value();
        self.buf.push('{');
        self.stack.push(Level { ctx: WriterContext::Object, count: 0 });
        assert(self@ =~= old(self)@.open(WriterContext::Object));
    }

    /// Start a JSON array (`[`).
    pub fn array_start(&mut self)
        ensures
            final(self)@ == old(self)@.open(WriterContext::Array),
    {
        self.pre_value();
        self.buf.push('[');
        self.stack.push(Level { ctx: WriterContext::Array, count: 0 });
        assert(self@ =~= old(self)@.open(WriterContext::Array));
    }

    /// Write an object key, with the comma that separates it from the entry
    /// before it.
    pub fn key(&mut self, name: &str)
        ensures
            final(self)@ == old(self)@.key(name@),
    {
        self.maybe_comma();
        self.buf.push('"');
        escape_string_into(&mut self.buf, name);
        self.buf.push('"');
        self.buf.push(':');
        assert(self@ =~= old(self)@.key(name@));
    }

    /// Write a string value.
    pub fn string_value(&mut self, value: &str)
        ensures
            final(self)@ == old(self)@.value(seq!['"'] + escape(value@) + seq!['"']),
    {
        self.pre_value();
        self.buf.push('"');
        escape_string_into(&mut self.buf, value);
        self.buf.push('"');
        self.post_value();
        assert(self@ =~= old(self)@.value(seq!['"'] + escape(value@) + seq!['"']));
    }

    /// Write a number value.
    pub fn number_value(&mut self, value: i64)
        ensures
            final(self)@ == old(self)@.value(number_text(value as int)),
    {
        self.pre_value();
        push_number(&mut self.buf, value);
        self.post_value();
        assert(self@ =~= old(self)@.value(number_text(value as int)));
    }

    /// Write a boolean value.
    pub fn bool_value(&mut self, value: bool)
        ensures
            final(self)@ == old(self)@.value(
                if value {
                    "true"@
                } else {
                    "false"@
                },
            ),
    {
        self.raw_value(if value { "true" } else { "false" });
    }

    /// Write a null value.
    pub fn null_value(&mut self)
        ensures
            final(self)@ == old(self)@.value("null"@),
    {
        self.raw_value("null");
    }

    /// Write a raw JSON text directly into the output. The caller answers for
    /// its being valid JSON.
    pub fn raw_value(&mut self, raw: &str)
        ensures
            final(self)@ == old(self)@.value(raw@),
    {
        self.pre_value();
        self.buf.append(raw);
        self.post_value();
        assert(self@ =~= old(self)@.value(raw@));
    }

    /// End the current object or array; without one, nothing happens.
    pub fn end(&mut self)
        ensures
            final(self)@ == old(self)@.end(),
    {
        match self.stack.pop() {
            Some(level) => {
                match level.ctx {
                    WriterContext::Object => {
                        self.buf.push('}');
                    },
                    WriterContext::Array => {
                        self.buf.push(']');
                    },
                }
                self.post_value();
                assert(self@ =~= old(self)@.end());
            },
            None => {
                assert(self@ =~= old(self)@);
            },
        }
    }

    /// Consume the writer and return the built JSON text.
    pub fn finish(self) -> (r: String)
        ensures
            r@ == self@.text,
    {
        self.buf
    }

    /// The output so far.
    pub fn to_string(&self) -> (r: String)
        ensures
            r@ == self@.text,
    {
        self.buf.clone()
    }

    /// The output so far as bytes.
    pub fn as_bytes(&self) -> (r: &[u8])
        ensures
            r@ == encode_utf8(self@.text),
    {
        self.buf.as_str().as_bytes()
    }

    /// The current length of the output in bytes.
    pub fn len(&self) -> (r: usize)
        ensures
            r == encode_utf8(self@.text).len(),
    {
        self.as_bytes().len()
    }

    /// Whether nothing has been written.
    pub fn is_empty(&self) -> (r: bool)
        ensures
            r == (self@.text.len() == 0),
    {
        self.buf.as_str().is_empty()
    }

    /// Insert a comma before the next value or key if needed.
    fn maybe_comma(&mut self)
        ensures
            final(self)@.text == old(self)@.text + old(self)@.comma(),
            final(self)@.levels == old(self)@.levels,
            final(self).stack == old(self).stack,
    {
        let n: usize = self.stack.len();
        if n > 0 && self.stack[n - 1].count > 0 {
            self.buf.push(',');
        }
        assert(self@.text =~= old(self)@.text + old(self)@.comma());
        assert(self@.levels =~= old(self)@.levels);
    }

    /// In array context, insert a comma if needed.
    fn pre_value(&mut self)
        ensures
            final(self)@.text == old(self)@.text + old(self)@.before_value(),
            final(self)@.levels == old(self)@.levels,
            final(self).stack == old(self).stack,
    {
        let n: usize = self.stack.len();
        if n > 0 && self.stack[n - 1].ctx == WriterContext::Array {
            self.maybe_comma();
        } else {
            assert(self@.text =~= old(self)@.text + old(self)@.before_value());
        }
    }

    /// Count one more value at the current level.
    fn post_value(&mut self)
        ensures
            final(self)@ == old(self)@.counted(),
    {
        let n: usize = self.stack.len();
        if n > 0 {
            let level = self.stack[n - 1];
            self.stack[n - 1] = Level { ctx: level.ctx, count: level.count.saturating_add(1) };
        }
        assert(self@ =~= old(self)@.counted());
    }
}

/// Escape a text for JSON output, appending the escaped characters to `out`.
pub fn escape_string_into(out: &mut String, s: &str)
    ensures
        final(out)@ == old(out)@ + escape(s@),
{
    let ghost before = out@;
    for c in it: s.chars()
        invariant
            it.seq() == s@,
            out@ == before + escape(s@.take(it.index() as int)),
    {
        let ghost so_far = out@;
        proof {
            let i = it.index() as int;
            assert(s@.take(i + 1).drop_last() =~= s@.take(i));
            assert(s@.take(i + 1).last() == c);
        }
        if c == '"' {
            out.push('\\');
            out.push('"');
        } else if c == '\\' {
            out.push('\\');
            out.push('\\');
        } else if c == '\n' {
            out.push('\\');
            out.push('n');
        } else if c == '\r' {
            out.push('\\');
            out.push('r');
        } else if c == '\t' {
            out.push('\\');
            out.push('t');
        } else if c == '\u{08}' {
            out.push('\\');
            out.push('b');
        } else if c == '\u{0C}' {
            out.push('\\');
            out.push('f');
        } else if (c as u32) < 0x20 {
            out.push('\\');
            out.push('u');
            out.push('0');
            out.push('0');
            let byte: u8 = c as u8;
            out.push(hex_char(byte / 16));
            out.push(hex_char(byte % 16));
        } else {
            out.push(c);
        }
        assert(out@ =~= so_far + escape_char(c));
        assert(out@ =~= before + escape(s@.take(it.index() + 1)));
    }
    assert(s@.take(s@.len() as int) =~= s@);
}

/// Convert a nibble (0-15) to its hex character.
pub fn hex_char(n: u8) -> (c: char)
    ensures
        c == nibble_char(n),
{
    if n <= 9 {
        (0x30 + n) as char
    } else if n <= 15 {
        (0x61 + n - 10) as char
    } else {
        '0'
    }
}

} // verus!
