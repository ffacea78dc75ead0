//! What the JSON texts promise: characters, numbers, white space, nesting and errors.
use crate::json_laws::{render, render_entries, render_items};
use crate::json_mini::{
    array, digits_end, display_entries, display_items, display_text, document, entries, escape,
    escape_char, items, number, object, parts, skip_space, string_body, string_char, value,
    JsonError, JsonModel,
};
use crate::text::{all_digits, digits_value, is_digit};
use vstd::prelude::*;

verus! {

// ---------------------------------------------------------------------------
// Characters
// ---------------------------------------------------------------------------

/// Law: a visible ASCII character stands for itself, both ways, but for the quote and the
/// backslash; every character behind ASCII is written as it is.
pub proof fn law_plain_characters_stand_for_themselves(d: Seq<u8>, p: int, c: char)
    requires
        0 <= p < d.len(),
    ensures
        0x20 <= d[p] < 0x7F && d[p] != 0x22 && d[p] != 0x5C ==> string_char(d, p) == Ok::<
            (char, int),
            JsonError,
        >((d[p] as char, p + 1)),
        c as u32 >= 0x20 && c != '"' && c != '\\' ==> escape_char(c) == seq![c],
{
}

/// Law: a backslash and a letter stand for one character: the quote, the two slashes, and the
/// five control characters with a letter of their own; other letters are refused.
pub proof fn law_escapes_stand_for_one_character(d: Seq<u8>, p: int)
    requires
        0 <= p,
        p + 1 < d.len(),
        d[p] == 0x5C,
    ensures
        ({
            let read = string_char(d, p);
            let b = d[p + 1] as char;
            &&& b == '"' ==> read == Ok::<(char, int), JsonError>(('"', p + 2))
            &&& b == '\\' ==> read == Ok::<(char, int), JsonError>(('\\', p + 2))
            &&& b == '/' ==> read == Ok::<(char, int), JsonError>(('/', p + 2))
            &&& b == 'b' ==> read == Ok::<(char, int), JsonError>(('\u{08}', p + 2))
            &&& b == 'f' ==> read == Ok::<(char, int), JsonError>(('\u{0C}', p + 2))
            &&& b == 'n' ==> read == Ok::<(char, int), JsonError>(('\n', p + 2))
            &&& b == 'r' ==> read == Ok::<(char, int), JsonError>(('\r', p + 2))
            &&& b == 't' ==> read == Ok::<(char, int), JsonError>(('\t', p + 2))
            &&& b != '"' && b != '\\' && b != '/' && b != 'b' && b != 'f' && b != 'n' && b != 'r'
                && b != 't' && b != 'u' ==> read == Err::<(char, int), JsonError>(
                JsonError::InvalidEscape,
            )
        }),
{
}

/// Whether a byte is a hexadecimal digit, in either case, of a value.
pub open spec fn is_hex(b: u8, v: int) -> bool {
    ||| 0 <= v <= 9 && b == 0x30 + v
    ||| 10 <= v <= 15 && b == 0x41 + v - 10
    ||| 10 <= v <= 15 && b == 0x61 + v - 10
}

/// Law: four hexadecimal digits behind `\u` stand for the character with that number, or for
/// the replacement character where it is half of a pair.
pub proof fn law_hexadecimal_escapes_give_the_number(
    d: Seq<u8>,
    p: int,
    a: int,
    b: int,
    c: int,
    e: int,
)
    requires
        0 <= p,
        p + 5 < d.len(),
        d[p] == 0x5C,
        d[p + 1] == 0x75,
        is_hex(d[p + 2], a),
        is_hex(d[p + 3], b),
        is_hex(d[p + 4], c),
        is_hex(d[p + 5], e),
    ensures
        ({
            let n = a * 4096 + b * 256 + c * 16 + e;
            string_char(d, p) matches Ok((read, q)) && q == p + 6 && read as u32 == if 0xD800 <= n
                <= 0xDFFF {
                0xFFFD
            } else {
                n
            }
        }),
{
}

/// Law: a byte that is no hexadecimal digit in a `\u` escape is an error of its own.
pub proof fn law_other_digits_are_no_escape(d: Seq<u8>, p: int, at: int)
    requires
        0 <= p,
        p + 5 < d.len(),
        d[p] == 0x5C,
        d[p + 1] == 0x75,
        p + 2 <= at <= p + 5,
        forall|v: int| !is_hex(d[at], v),
    ensures
        string_char(d, p) == Err::<(char, int), JsonError>(JsonError::InvalidUnicodeEscape),
{
    let b = d[at];
    assert(!is_hex(b, b - 0x30) && !is_hex(b, b - 0x41 + 10) && !is_hex(b, b - 0x61 + 10));
    assert(at == p + 2 || at == p + 3 || at == p + 4 || at == p + 5);
}

/// Law: what has no place in a string is written as an escape: the quote and the backslash
/// behind a backslash, five control characters by their letter, the others by their number.
pub proof fn law_control_characters_are_escaped(c: char)
    ensures
        escape_char('"') == seq!['\\', '"'],
        escape_char('\\') == seq!['\\', '\\'],
        escape_char('\u{08}') == seq!['\\', 'b'],
        escape_char('\u{0C}') == seq!['\\', 'f'],
        escape_char('\n') == seq!['\\', 'n'],
        escape_char('\r') == seq!['\\', 'r'],
        escape_char('\t') == seq!['\\', 't'],
        (c as u32) < 0x20 && c != '\u{08}' && c != '\u{0C}' && c != '\n' && c != '\r' && c != '\t'
            ==> {
            let e = escape_char(c);
            &&& e.len() == 6
            &&& e.take(4) == seq!['\\', 'u', '0', '0']
            &&& is_hex(e[4] as u8, (c as u32 / 16) as int)
            &&& is_hex(e[5] as u8, (c as u32 % 16) as int)
        },
{
    if (c as u32) < 0x20 && c != '\u{08}' && c != '\u{0C}' && c != '\n' && c != '\r' && c != '\t' {
        assert(escape_char(c).take(4) =~= seq!['\\', 'u', '0', '0']);
    }
}

/// Law: texts are escaped character by character.
pub proof fn law_texts_are_escaped_one_by_one(a: Seq<char>, c: char)
    ensures
        escape(a.push(c)) == escape(a) + escape_char(c),
        escape(Seq::empty()) == Seq::<char>::empty(),
{
    assert(a.push(c).drop_last() =~= a);
}

/// Law: a string ends at its first quote that stands for itself, and one that does not end is
/// an error.
pub proof fn law_strings_end_at_the_quote(d: Seq<u8>, p: int)
    requires
        0 <= p <= d.len(),
    ensures
        p < d.len() && d[p] == 0x22 ==> string_body(d, p) == Ok::<(Seq<char>, int), JsonError>(
            (Seq::empty(), p + 1),
        ),
        p == d.len() ==> string_body(d, p) == Err::<(Seq<char>, int), JsonError>(
            JsonError::UnterminatedString,
        ),
        p < d.len() && d[p] != 0x22 ==> (string_char(d, p) matches Ok((c, q)) ==> match string_body(
            d,
            q,
        ) {
            Ok((rest, end)) => string_body(d, p) == Ok::<(Seq<char>, int), JsonError>(
                (seq![c] + rest, end),
            ),
            Err(e) => string_body(d, p) == Err::<(Seq<char>, int), JsonError>(e),
        }),
{
}

// ---------------------------------------------------------------------------
// Numbers
// ---------------------------------------------------------------------------

proof fn lemma_digits_end(d: Seq<u8>, p: int, e: int)
    requires
        0 <= p <= e <= d.len(),
        forall|i: int| p <= i < e ==> is_digit(#[trigger] d[i]),
        e < d.len() ==> !is_digit(d[e]),
    ensures
        digits_end(d, p) == e,
    decreases e - p,
{
    if p < e {
        lemma_digits_end(d, p + 1, e);
    }
}

/// Law: digits that end where another character stands are the number they spell, with a minus
/// in front the negated number. A leading zero, no digit at all and a number of more than 64
/// bits are refused.
pub proof fn law_digits_spell_their_number(d: Seq<u8>, p: int, e: int)
    requires
        0 <= p <= e <= d.len(),
        all_digits(d.subrange(p, e)),
        e < d.len() ==> !is_digit(d[e]),
        p < d.len() ==> d[p] != 0x2D,
    ensures
        ({
            let n = digits_value(d.subrange(p, e)) as int;
            let refused = Err::<(JsonModel, int), JsonError>(JsonError::InvalidNumber);
            &&& e == p ==> number(d, p) == refused
            &&& e > p + 1 && d[p] == 0x30 ==> number(d, p) == refused
            &&& n > 0x7FFF_FFFF_FFFF_FFFF ==> number(d, p) == refused
            &&& e > p && (d[p] != 0x30 || e == p + 1) && n <= 0x7FFF_FFFF_FFFF_FFFF ==> number(
                d,
                p,
            ) == Ok::<(JsonModel, int), JsonError>((JsonModel::Number(n), e))
            &&& p > 0 && d[p - 1] == 0x2D ==> {
                &&& e == p ==> number(d, p - 1) == refused
                &&& e > p + 1 && d[p] == 0x30 ==> number(d, p - 1) == refused
                &&& n > 0x8000_0000_0000_0000 ==> number(d, p - 1) == refused
                &&& e > p && (d[p] != 0x30 || e == p + 1) && n <= 0x8000_0000_0000_0000 ==> number(
                    d,
                    p - 1,
                ) == Ok::<(JsonModel, int), JsonError>((JsonModel::Number(-n), e))
            }
        }),
{
    let w = d.subrange(p, e);
    assert forall|i: int| p <= i < e implies is_digit(#[trigger] d[i]) by {
        assert(is_digit(w[i - p]));
    }
    lemma_digits_end(d, p, e);
}

// ---------------------------------------------------------------------------
// White space and nesting
// ---------------------------------------------------------------------------

/// Whether a byte is a space, a tab, a line feed or a carriage return.
pub open spec fn is_blank(b: u8) -> bool {
    b as char == ' ' || b as char == '\t' || b as char == '\n' || b as char == '\r'
}

/// Law: white space in front of a value does not matter, and only white space is skipped.
pub proof fn law_white_space_in_front_does_not_matter(d: Seq<u8>, p: int, q: int, depth: nat)
    requires
        0 <= p <= q <= d.len(),
        forall|i: int| p <= i < q ==> is_blank(#[trigger] d[i]),
    ensures
        skip_space(d, p) == skip_space(d, q),
        q < d.len() && !is_blank(d[q]) ==> skip_space(d, p) == q,
        q == d.len() ==> skip_space(d, p) == d.len(),
        value(d, p, depth) == value(d, q, depth),
    decreases q - p,
{
    if p < q {
        law_white_space_in_front_does_not_matter(d, p + 1, q, depth);
        assert(is_blank(d[p]));
        assert(skip_space(d, p) == skip_space(d, p + 1));
    }
}

/// Law: a document of nothing but white space is empty; one whose value is followed by anything
/// but white space has trailing data; else it is its value.
pub proof fn law_a_document_is_one_value(d: Seq<u8>, q: int)
    requires
        0 <= q <= d.len(),
    ensures
        (forall|i: int| 0 <= i < d.len() ==> is_blank(#[trigger] d[i])) ==> document(d) == Err::<
            JsonModel,
            JsonError,
        >(JsonError::Empty),
        !(forall|i: int| 0 <= i < d.len() ==> is_blank(#[trigger] d[i])) ==> match value(d, 0, 0) {
            Ok((v, end)) => end == q ==> {
                &&& (forall|i: int| q <= i < d.len() ==> is_blank(#[trigger] d[i])) ==> document(d)
                    == Ok::<JsonModel, JsonError>(v)
                &&& !(forall|i: int| q <= i < d.len() ==> is_blank(#[trigger] d[i])) ==> document(
                    d,
                ) == Err::<JsonModel, JsonError>(JsonError::TrailingData)
            },
            Err(e) => document(d) == Err::<JsonModel, JsonError>(e),
        },
{
    lemma_blank(d, 0);
    lemma_blank(d, q);
}

proof fn lemma_blank(d: Seq<u8>, p: int)
    requires
        0 <= p <= d.len(),
    ensures
        skip_space(d, p) >= d.len() <==> (forall|i: int|
            p <= i < d.len() ==> is_blank(#[trigger] d[i])),
    decreases d.len() - p,
{
    if p < d.len() {
        lemma_blank(d, p + 1);
        if is_blank(d[p]) {
            assert(skip_space(d, p) == skip_space(d, p + 1));
        }
    }
}

/// Law: thirty-two containers in one another are read and the thirty-third is refused.
pub proof fn law_nesting_ends_at_the_limit(d: Seq<u8>, p: int, depth: nat)
    requires
        0 <= p < d.len(),
    ensures
        depth >= 32 ==> array(d, p, depth) == Err::<(JsonModel, int), JsonError>(
            JsonError::TooDeep,
        ) && object(d, p, depth) == Err::<(JsonModel, int), JsonError>(JsonError::TooDeep),
        depth < 32 && p + 1 < d.len() && d[p + 1] == 0x5D ==> array(d, p, depth) == Ok::<
            (JsonModel, int),
            JsonError,
        >((JsonModel::Array(Seq::empty()), p + 2)),
        depth < 32 && p + 1 < d.len() && d[p + 1] == 0x7D ==> object(d, p, depth) == Ok::<
            (JsonModel, int),
            JsonError,
        >((JsonModel::Object(Seq::empty()), p + 2)),
{
}

/// Law: a text that opens more than thirty-two arrays is too deep, whatever follows.
pub proof fn law_deep_texts_are_refused(d: Seq<u8>)
    requires
        d.len() > 32,
        forall|i: int| 0 <= i <= 32 ==> #[trigger] d[i] == 0x5B,
    ensures
        document(d) == Err::<JsonModel, JsonError>(JsonError::TooDeep),
{
    lemma_deep(d, 0);
    assert(skip_space(d, 0) == 0);
}

proof fn lemma_deep(d: Seq<u8>, p: int)
    requires
        d.len() > 32,
        0 <= p <= 32,
        forall|i: int| 0 <= i <= 32 ==> #[trigger] d[i] == 0x5B,
    ensures
        value(d, p, p as nat) == Err::<(JsonModel, int), JsonError>(JsonError::TooDeep),
    decreases 32 - p,
{
    assert(d[p] == 0x5B);
    assert(skip_space(d, p) == p);
    assert(value(d, p, p as nat) == array(d, p, p as nat));
    if p < 32 {
        lemma_deep(d, p + 1);
        assert(d[p + 1] == 0x5B);
        assert(skip_space(d, p + 1) == p + 1);
        assert(items(d, p + 1, (p + 1) as nat) == Err::<(Seq<JsonModel>, int), JsonError>(
            JsonError::TooDeep,
        ));
    }
}

// ---------------------------------------------------------------------------
// Values and their errors
// ---------------------------------------------------------------------------

/// Law: the first character of a value tells what it is, and a character with which none begins
/// is refused.
pub proof fn law_the_first_character_tells_the_value(d: Seq<u8>, p: int, depth: nat)
    requires
        0 <= p < d.len(),
        !is_blank(d[p]),
    ensures
        ({
            let c = d[p] as char;
            let read = value(d, p, depth);
            &&& read matches Ok((v, q)) ==> {
                &&& c == '"' <==> v is Text
                &&& c == '{' <==> v is Object
                &&& c == '[' <==> v is Array
                &&& c == 't' <==> v == JsonModel::Bool(true)
                &&& c == 'f' <==> v == JsonModel::Bool(false)
                &&& c == 'n' <==> v is Null
                &&& c == '-' || is_digit(d[p]) <==> v is Number
            }
            &&& !(c == '"' || c == '{' || c == '[' || c == 't' || c == 'f' || c == 'n' || c == '-'
                || is_digit(d[p])) ==> read == Err::<(JsonModel, int), JsonError>(
                JsonError::UnexpectedChar,
            )
        }),
{
    assert(skip_space(d, p) == p);
    if d[p] == 0x74 {
        lemma_words(d, p);
    }
    if d[p] == 0x66 {
        lemma_words(d, p);
    }
}

proof fn lemma_words(d: Seq<u8>, p: int)
    requires
        0 <= p < d.len(),
    ensures
        crate::text::has_word(d, p, crate::json_mini::word_true()) ==> d[p] == 0x74,
        crate::text::has_word(d, p, crate::json_mini::word_false()) ==> d[p] == 0x66,
{
    if crate::text::has_word(d, p, crate::json_mini::word_true()) {
        assert(d.subrange(p, p + 4)[0] == d[p]);
    }
    if crate::text::has_word(d, p, crate::json_mini::word_false()) {
        assert(d.subrange(p, p + 5)[0] == d[p]);
    }
}

/// Law: a word that begins like one of the three literals and is none is refused as such.
pub proof fn law_literals_are_read_whole(d: Seq<u8>, p: int, depth: nat)
    requires
        0 <= p,
        p + 4 <= d.len(),
    ensures
        d[p] == 0x74 ==> value(d, p, depth) == (if d[p + 1] == 0x72 && d[p + 2] == 0x75 && d[p + 3]
            == 0x65 {
            Ok::<(JsonModel, int), JsonError>((JsonModel::Bool(true), p + 4))
        } else {
            Err(JsonError::InvalidLiteral)
        }),
        d[p] == 0x6E ==> value(d, p, depth) == (if d[p + 1] == 0x75 && d[p + 2] == 0x6C && d[p + 3]
            == 0x6C {
            Ok::<(JsonModel, int), JsonError>((JsonModel::Null, p + 4))
        } else {
            Err(JsonError::InvalidLiteral)
        }),
        d[p] == 0x66 && p + 5 <= d.len() ==> value(d, p, depth) == (if d[p + 1] == 0x61 && d[p + 2]
            == 0x6C && d[p + 3] == 0x73 && d[p + 4] == 0x65 {
            Ok::<(JsonModel, int), JsonError>((JsonModel::Bool(false), p + 5))
        } else {
            Err(JsonError::InvalidLiteral)
        }),
{
    assert(d[p] == 0x74 || d[p] == 0x6E || d[p] == 0x66 ==> skip_space(d, p) == p);
    let four = d.subrange(p, p + 4);
    assert(four[0] == d[p] && four[1] == d[p + 1] && four[2] == d[p + 2] && four[3] == d[p + 3]);
    if d[p] == 0x74 && d[p + 1] == 0x72 && d[p + 2] == 0x75 && d[p + 3] == 0x65 {
        assert(four =~= crate::json_mini::word_true());
    }
    if d[p] == 0x6E && d[p + 1] == 0x75 && d[p + 2] == 0x6C && d[p + 3] == 0x6C {
        assert(four =~= crate::json_mini::word_null());
    }
    if p + 5 <= d.len() {
        let five = d.subrange(p, p + 5);
        assert(five[0] == d[p] && five[1] == d[p + 1] && five[2] == d[p + 2] && five[3] == d[p + 3]
            && five[4] == d[p + 4]);
        if d[p] == 0x66 && d[p + 1] == 0x61 && d[p + 2] == 0x6C && d[p + 3] == 0x73 && d[p + 4]
            == 0x65 {
            assert(five =~= crate::json_mini::word_false());
        }
    }
}

/// Law: items are parted by commas and end at the bracket; what follows an item otherwise is
/// refused, and so is the error of an item.
pub proof fn law_items_are_parted_by_commas(d: Seq<u8>, p: int, depth: nat, q: int)
    requires
        0 <= p <= d.len(),
        p <= q <= d.len(),
        q < d.len() ==> !is_blank(d[q]),
    ensures
        match value(d, p, depth) {
            Err(e) => items(d, p, depth) == Err::<(Seq<JsonModel>, int), JsonError>(e),
            Ok((v, end)) => p < end <= q && (forall|i: int|
                end <= i < q ==> is_blank(#[trigger] d[i])) ==> {
                &&& q < d.len() && d[q] == 0x5D ==> items(d, p, depth) == Ok::<
                    (Seq<JsonModel>, int),
                    JsonError,
                >((seq![v], q + 1))
                &&& q < d.len() && d[q] == 0x2C ==> match items(d, q + 1, depth) {
                    Ok((rest, e)) => items(d, p, depth) == Ok::<(Seq<JsonModel>, int), JsonError>(
                        (seq![v] + rest, e),
                    ),
                    Err(e) => items(d, p, depth) == Err::<(Seq<JsonModel>, int), JsonError>(e),
                }
                &&& q == d.len() || (d[q] != 0x5D && d[q] != 0x2C) ==> items(d, p, depth) == Err::<
                    (Seq<JsonModel>, int),
                    JsonError,
                >(JsonError::ExpectedCommaOrEnd)
            },
        },
{
    if let Ok((v, end)) = value(d, p, depth) {
        if p < end <= q && (forall|i: int| end <= i < q ==> is_blank(#[trigger] d[i])) {
            law_white_space_in_front_does_not_matter(d, end, q, depth);
        }
    }
}

/// Law: a key has to be a string, with a colon behind it.
pub proof fn law_keys_are_strings_with_a_colon(d: Seq<u8>, p: int, depth: nat, colon: int)
    requires
        0 <= p < d.len(),
        !is_blank(d[p]),
        p < colon <= d.len(),
        colon < d.len() ==> !is_blank(d[colon]),
    ensures
        d[p] != 0x22 ==> entries(d, p, depth) == Err::<
            (Seq<(Seq<char>, JsonModel)>, int),
            JsonError,
        >(JsonError::KeyNotString),
        d[p] == 0x22 ==> match string_body(d, p + 1) {
            Err(e) => entries(d, p, depth) == Err::<(Seq<(Seq<char>, JsonModel)>, int), JsonError>(
                e,
            ),
            Ok((k, end)) => p < end <= colon && (forall|i: int|
                end <= i < colon ==> is_blank(#[trigger] d[i])) && (colon == d.len() || d[colon]
                != 0x3A) ==> entries(d, p, depth) == Err::<
                (Seq<(Seq<char>, JsonModel)>, int),
                JsonError,
            >(JsonError::ExpectedColon),
        },
{
    assert(skip_space(d, p) == p);
    if d[p] == 0x22 {
        if let Ok((k, end)) = string_body(d, p + 1) {
            if p < end <= colon && (forall|i: int|
                end <= i < colon ==> is_blank(#[trigger] d[i])) {
                law_white_space_in_front_does_not_matter(d, end, colon, depth);
            }
        }
    }
}

// ---------------------------------------------------------------------------
// The plain rendering
// ---------------------------------------------------------------------------

/// Whether every text and key of a value is written without an escape.
pub open spec fn is_plain(v: JsonModel) -> bool
    decreases v,
{
    match v {
        JsonModel::Text(s) => escape(s) == s,
        JsonModel::Array(a) => forall|i: int| 0 <= i < a.len() ==> is_plain(#[trigger] a[i]),
        JsonModel::Object(o) => forall|i: int|
            0 <= i < o.len() ==> escape((#[trigger] o[i]).0) == o[i].0 && is_plain(o[i].1),
        _ => true,
    }
}

/// Law: a value without escapes is shown as its JSON text.
pub proof fn law_plain_values_are_shown_as_written(v: JsonModel)
    requires
        is_plain(v),
    ensures
        display_text(v) == render(v),
    decreases v, parts(v) + 1,
{
    match v {
        JsonModel::Array(a) => {
            lemma_plain_items(v, a.len());
        },
        JsonModel::Object(o) => {
            lemma_plain_entries(v, o.len());
        },
        _ => {},
    }
}

proof fn lemma_plain_items(v: JsonModel, n: nat)
    requires
        v is Array,
        is_plain(v),
        n <= v->Array_0.len(),
    ensures
        display_items(v, n) == render_items(v, n),
    decreases v, n,
{
    if n > 0 {
        lemma_plain_items(v, (n - 1) as nat);
        assert(is_plain(v->Array_0[n - 1]));
        law_plain_values_are_shown_as_written(v->Array_0[n - 1]);
    }
}

proof fn lemma_plain_entries(v: JsonModel, n: nat)
    requires
        v is Object,
        is_plain(v),
        n <= v->Object_0.len(),
    ensures
        display_entries(v, n) == render_entries(v, n),
    decreases v, n,
{
    if n > 0 {
        lemma_plain_entries(v, (n - 1) as nat);
        let (k, item) = v->Object_0[n - 1];
        assert(escape(k) == k && is_plain(item));
        law_plain_values_are_shown_as_written(item);
        reveal_strlit("\":");
        assert("\":"@ =~= seq!['"', ':']);
        assert(display_entries(v, n) =~= render_entries(v, n));
    }
}

} // verus!
