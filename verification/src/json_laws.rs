//! What the JSON writer and the JSON parser promise each other.
use crate::json_mini::{
    continued_char, digits_end, document, entries, escape, escape_char, hex_value, items, number,
    number_text, parts, skip_space, string_body, string_char, value, word_false, word_null,
    word_true, JsonError, JsonModel, WriterContext, WriterModel, MAX_DEPTH,
};
use crate::text::{
    ascii, byte_at, decimal, digits_value, has_word, is_digit, lemma_decimal_digits,
    lemma_encode_ascii, lemma_encode_concat,
};
use vstd::prelude::*;
use vstd::utf8::*;

verus! {

broadcast use vstd::string::group_string_axioms;

// ---------------------------------------------------------------------------
// What the writer writes
// ---------------------------------------------------------------------------

/// The JSON text of a value.
pub open spec fn render(v: JsonModel) -> Seq<char>
    decreases v, parts(v) + 1,
{
    match v {
        JsonModel::Null => "null"@,
        JsonModel::Bool(b) => if b {
            "true"@
        } else {
            "false"@
        },
        JsonModel::Number(n) => number_text(n),
        JsonModel::Text(s) => seq!['"'] + escape(s) + seq!['"'],
        JsonModel::Array(a) => seq!['['] + render_items(v, a.len()) + seq![']'],
        JsonModel::Object(o) => seq!['{'] + render_entries(v, o.len()) + seq!['}'],
    }
}

/// The comma in front of the part with a number, counted from one.
pub open spec fn separator(n: nat) -> Seq<char> {
    if n > 1 {
        seq![',']
    } else {
        Seq::empty()
    }
}

/// The text of the first `n` items of an array.
pub open spec fn render_items(v: JsonModel, n: nat) -> Seq<char>
    decreases v, n,
{
    match v {
        JsonModel::Array(a) => if n == 0 || n > a.len() {
            Seq::empty()
        } else {
            render_items(v, (n - 1) as nat) + separator(n) + render(a[n - 1])
        },
        _ => Seq::empty(),
    }
}

/// The text of the first `n` entries of an object.
pub open spec fn render_entries(v: JsonModel, n: nat) -> Seq<char>
    decreases v, n,
{
    match v {
        JsonModel::Object(o) => if n == 0 || n > o.len() {
            Seq::empty()
        } else {
            render_entries(v, (n - 1) as nat) + separator(n) + render_key(o[n - 1].0) + render(
                o[n - 1].1,
            )
        },
        _ => Seq::empty(),
    }
}

/// The text of an object key with its colon.
pub open spec fn render_key(k: Seq<char>) -> Seq<char> {
    seq!['"'] + escape(k) + seq!['"', ':']
}

/// The writer after the calls that write a value: one call for a scalar; for a
/// container its start, its parts in order (an entry is a key and its value)
/// and `end`.
pub open spec fn written(w: WriterModel, v: JsonModel) -> WriterModel
    decreases v, parts(v) + 1,
{
    match v {
        JsonModel::Null => w.value("null"@),
        JsonModel::Bool(b) => w.value(
            if b {
                "true"@
            } else {
                "false"@
            },
        ),
        JsonModel::Number(n) => w.value(number_text(n)),
        JsonModel::Text(s) => w.value(seq!['"'] + escape(s) + seq!['"']),
        JsonModel::Array(a) => written_items(w.open(WriterContext::Array), v, a.len()).end(),
        JsonModel::Object(o) => written_entries(w.open(WriterContext::Object), v, o.len()).end(),
    }
}

/// The writer after the calls that write the first `n` items of an array.
pub open spec fn written_items(w: WriterModel, v: JsonModel, n: nat) -> WriterModel
    decreases v, n,
{
    match v {
        JsonModel::Array(a) => if n == 0 || n > a.len() {
            w
        } else {
            written(written_items(w, v, (n - 1) as nat), a[n - 1])
        },
        _ => w,
    }
}

/// The writer after the calls that write the first `n` entries of an object.
pub open spec fn written_entries(w: WriterModel, v: JsonModel, n: nat) -> WriterModel
    decreases v, n,
{
    match v {
        JsonModel::Object(o) => if n == 0 || n > o.len() {
            w
        } else {
            written(written_entries(w, v, (n - 1) as nat).key(o[n - 1].0), o[n - 1].1)
        },
        _ => w,
    }
}

/// Law: the calls that write a value append exactly the value's JSON text,
/// separated from what the surrounding container already holds.
pub proof fn law_writer_renders(w: WriterModel, v: JsonModel)
    ensures
        written(w, v) == w.value(render(v)),
    decreases v, parts(v) + 1,
{
    match v {
        JsonModel::Array(a) => {
            let o = w.open(WriterContext::Array);
            lemma_items_written(w, v, a.len());
            let inner = written_items(o, v, a.len());
            assert(inner.levels.drop_last() =~= w.levels);
            assert(inner.end() =~= w.value(render(v)));
        },
        JsonModel::Object(es) => {
            let o = w.open(WriterContext::Object);
            lemma_entries_written(w, v, es.len());
            let inner = written_entries(o, v, es.len());
            assert(inner.levels.drop_last() =~= w.levels);
            assert(inner.end() =~= w.value(render(v)));
        },
        _ => {},
    }
}

proof fn lemma_items_written(w: WriterModel, v: JsonModel, n: nat)
    requires
        v is Array,
        n <= v->Array_0.len(),
    ensures
        written_items(w.open(WriterContext::Array), v, n) == (WriterModel {
            text: w.open(WriterContext::Array).text + render_items(v, n),
            levels: w.levels.push((WriterContext::Array, n > 0)),
        }),
    decreases v, n,
{
    let o = w.open(WriterContext::Array);
    if n == 0 {
        assert(o.text + render_items(v, 0) =~= o.text);
    } else {
        let before = written_items(o, v, (n - 1) as nat);
        let item = v->Array_0[n - 1];
        lemma_items_written(w, v, (n - 1) as nat);
        law_writer_renders(before, item);
        assert(before.before_value() =~= separator(n));
        assert(before.value(render(item)) =~= WriterModel {
            text: o.text + render_items(v, n),
            levels: w.levels.push((WriterContext::Array, true)),
        });
    }
}

proof fn lemma_entries_written(w: WriterModel, v: JsonModel, n: nat)
    requires
        v is Object,
        n <= v->Object_0.len(),
    ensures
        written_entries(w.open(WriterContext::Object), v, n) == (WriterModel {
            text: w.open(WriterContext::Object).text + render_entries(v, n),
            levels: w.levels.push((WriterContext::Object, n > 0)),
        }),
    decreases v, n,
{
    let o = w.open(WriterContext::Object);
    if n == 0 {
        assert(o.text + render_entries(v, 0) =~= o.text);
    } else {
        let before = written_entries(o, v, (n - 1) as nat);
        let (k, item) = v->Object_0[n - 1];
        lemma_entries_written(w, v, (n - 1) as nat);
        law_writer_renders(before.key(k), item);
        assert(before.comma() =~= separator(n));
        assert(before.key(k).before_value() =~= Seq::<char>::empty());
        assert(before.key(k).value(render(item)) =~= WriterModel {
            text: o.text + render_entries(v, n),
            levels: w.levels.push((WriterContext::Object, true)),
        });
    }
}

// ---------------------------------------------------------------------------
// What the parser reads back
// ---------------------------------------------------------------------------

/// Whether a value inside `depth` containers is one that the parser can give
/// back: its numbers fit 64 bits and its containers nest no deeper than the
/// limit.
pub open spec fn readable(v: JsonModel, depth: nat) -> bool
    decreases v,
{
    match v {
        JsonModel::Number(n) => i64::MIN <= n <= i64::MAX,
        JsonModel::Array(a) => depth < MAX_DEPTH && forall|i: int|
            0 <= i < a.len() ==> readable(#[trigger] a[i], depth + 1),
        JsonModel::Object(o) => depth < MAX_DEPTH && forall|i: int|
            0 <= i < o.len() ==> readable((#[trigger] o[i]).1, depth + 1),
        _ => true,
    }
}

/// Law: a value that was written is read back as it was.
pub proof fn law_parse_reads_what_was_rendered(v: JsonModel)
    requires
        readable(v, 0),
    ensures
        document(encode_utf8(render(v))) == Ok::<JsonModel, JsonError>(v),
{
    let d = encode_utf8(render(v));
    assert(d.subrange(0, d.len() as int) =~= d);
    lemma_reads(d, 0, 0, v);
    lemma_starts(v);
    lemma_encode_concat(seq![render(v)[0]], render(v).drop_first());
    assert(seq![render(v)[0]] + render(v).drop_first() =~= render(v));
}

/// Law: writing a value with a fresh writer and parsing the output gives the
/// value back.
pub proof fn law_round_trip(v: JsonModel)
    requires
        readable(v, 0),
    ensures
        document(encode_utf8(written(WriterModel::empty(), v).text)) == Ok::<
            JsonModel,
            JsonError,
        >(v),
{
    law_writer_renders(WriterModel::empty(), v);
    assert(written(WriterModel::empty(), v).text =~= render(v));
    law_parse_reads_what_was_rendered(v);
}

proof fn lemma_word_split(d: Seq<u8>, p: int, a: Seq<u8>, b: Seq<u8>)
    requires
        has_word(d, p, a + b),
    ensures
        has_word(d, p, a),
        has_word(d, p + a.len(), b),
{
    let w = d.subrange(p, p + (a + b).len());
    assert(d.subrange(p, p + a.len()) =~= w.subrange(0, a.len() as int));
    assert(w.subrange(0, a.len() as int) =~= a);
    assert(d.subrange(p + a.len(), p + a.len() + b.len()) =~= w.subrange(
        a.len() as int,
        w.len() as int,
    ));
    assert(w.subrange(a.len() as int, w.len() as int) =~= b);
}

/// The text `a` followed by `b` stands in the bytes as the two after each other.
proof fn lemma_text_split(d: Seq<u8>, p: int, a: Seq<char>, b: Seq<char>)
    requires
        has_word(d, p, encode_utf8(a + b)),
    ensures
        encode_utf8(a + b).len() == encode_utf8(a).len() + encode_utf8(b).len(),
        has_word(d, p, encode_utf8(a)),
        has_word(d, p + encode_utf8(a).len(), encode_utf8(b)),
{
    lemma_encode_concat(a, b);
    lemma_word_split(d, p, encode_utf8(a), encode_utf8(b));
}

/// A single ASCII character is one byte.
proof fn lemma_ascii_char(d: Seq<u8>, p: int, c: char)
    requires
        (c as int) < 0x80,
        has_word(d, p, encode_utf8(seq![c])),
    ensures
        encode_utf8(seq![c]).len() == 1,
        byte_at(d, p) == Some(c as u8),
{
    lemma_ascii_text(seq![c]);
    let w = d.subrange(p, p + 1);
    assert(w[0] == d[p]);
}

/// ASCII texts are one byte per character.
proof fn lemma_ascii_text(t: Seq<char>)
    requires
        forall|i: int| 0 <= i < t.len() ==> 0 <= (#[trigger] t[i]) as int && (t[i] as int) < 0x80,
    ensures
        encode_utf8(t).len() == t.len(),
        forall|i: int| 0 <= i < t.len() ==> #[trigger] encode_utf8(t)[i] == t[i] as u8,
{
    assert(is_ascii_chars(t));
    is_ascii_chars_encode_utf8(t);
    assert forall|i: int| 0 <= i < t.len() implies #[trigger] encode_utf8(t)[i] == t[i] as u8 by {
        assert(t[i] as u8 == encode_utf8(t)[i]);
    }
}

/// The bytes of a word are found at their positions.
proof fn lemma_word_bytes(d: Seq<u8>, p: int, w: Seq<u8>)
    requires
        has_word(d, p, w),
    ensures
        forall|i: int| 0 <= i < w.len() ==> #[trigger] byte_at(d, p + i) == Some(w[i]),
{
    let s = d.subrange(p, p + w.len());
    assert forall|i: int| 0 <= i < w.len() implies #[trigger] byte_at(d, p + i) == Some(w[i]) by {
        assert(s[i] == d[p + i]);
    }
}

/// UTF-8 in terms of arithmetic.
proof fn lemma_scalar_bytes(c: u32)
    ensures
        has_width_1_encoding(c) ==> leading_byte_width_1(c) == c,
        has_width_2_encoding(c) ==> leading_byte_width_2(c) == 0xC0 + c / 64
            && last_continuation_byte(c) == 0x80 + c % 64,
        has_width_3_encoding(c) ==> leading_byte_width_3(c) == 0xE0 + c / 4096
            && second_last_continuation_byte(c) == 0x80 + (c / 64) % 64 && last_continuation_byte(c)
            == 0x80 + c % 64,
        has_width_4_encoding(c) ==> leading_byte_width_4(c) == 0xF0 + c / 262144
            && third_last_continuation_byte(c) == 0x80 + (c / 4096) % 64
            && second_last_continuation_byte(c) == 0x80 + (c / 64) % 64 && last_continuation_byte(c)
            == 0x80 + c % 64,
{
    assert(has_width_1_encoding(c) ==> leading_byte_width_1(c) == c) by (bit_vector);
    assert(has_width_2_encoding(c) ==> leading_byte_width_2(c) == 0xC0 + c / 64) by (bit_vector);
    assert(last_continuation_byte(c) == 0x80 + c % 64) by (bit_vector);
    assert(second_last_continuation_byte(c) == 0x80 + (c / 64) % 64) by (bit_vector);
    assert(third_last_continuation_byte(c) == 0x80 + (c / 4096) % 64) by (bit_vector);
    assert(has_width_3_encoding(c) ==> leading_byte_width_3(c) == 0xE0 + c / 4096) by (bit_vector);
    assert(has_width_4_encoding(c) ==> leading_byte_width_4(c) == 0xF0 + c / 262144) by (bit_vector);
}

/// A character that stands for itself is read back.
proof fn lemma_reads_plain_char(d: Seq<u8>, p: int, c: char)
    requires
        (c as u32) >= 0x20,
        c != '"',
        c != '\\',
        has_word(d, p, encode_utf8(seq![c])),
    ensures
        byte_at(d, p) is Some,
        byte_at(d, p) != Some(0x22u8),
        string_char(d, p) == Ok::<(char, int), JsonError>((c, p + encode_utf8(seq![c]).len())),
{
    let u = c as u32;
    let w = encode_utf8(seq![c]);
    assert(seq![c].drop_first() =~= Seq::empty());
    assert(encode_utf8(seq![c].drop_first()) =~= Seq::empty());
    assert(w =~= encode_scalar(u));
    char_is_scalar(c);
    char_u32_cast(c, u);
    lemma_scalar_bytes(u);
    lemma_word_bytes(d, p, w);
    assert(byte_at(d, p + 0) == Some(w[0]));
    if has_width_1_encoding(u) {
        assert(w[0] as char == c);
    } else if has_width_2_encoding(u) {
        assert(byte_at(d, p + 1) == Some(w[1]));
        reveal_with_fuel(continued_char, 2);
    } else if has_width_3_encoding(u) {
        assert(byte_at(d, p + 1) == Some(w[1]));
        assert(byte_at(d, p + 2) == Some(w[2]));
        assert(u / 64 / 64 == u / 4096);
        reveal_with_fuel(continued_char, 3);
    } else {
        assert(byte_at(d, p + 1) == Some(w[1]));
        assert(byte_at(d, p + 2) == Some(w[2]));
        assert(byte_at(d, p + 3) == Some(w[3]));
        assert(u / 64 / 64 == u / 4096);
        assert(u / 4096 / 64 == u / 262144);
        reveal_with_fuel(continued_char, 4);
    }
}

/// An escaped character is read back.
proof fn lemma_reads_char(d: Seq<u8>, p: int, c: char)
    requires
        has_word(d, p, encode_utf8(escape_char(c))),
    ensures
        byte_at(d, p) is Some,
        byte_at(d, p) != Some(0x22u8),
        string_char(d, p) == Ok::<(char, int), JsonError>(
            (c, p + encode_utf8(escape_char(c)).len()),
        ),
{
    let t = escape_char(c);
    let w = encode_utf8(t);
    if t.len() == 1 {
        assert(t =~= seq![c]);
        lemma_reads_plain_char(d, p, c);
    } else {
        lemma_ascii_text(t);
        lemma_word_bytes(d, p, w);
        assert(byte_at(d, p + 0) == Some(w[0]));
        assert(byte_at(d, p + 1) == Some(w[1]));
        if t.len() == 6 {
            let n = c as u8;
            assert(byte_at(d, p + 2) == Some(w[2]));
            assert(byte_at(d, p + 3) == Some(w[3]));
            assert(byte_at(d, p + 4) == Some(w[4]));
            assert(byte_at(d, p + 5) == Some(w[5]));
            assert(hex_value(w[4]) == Some((n / 16) as u32));
            assert(hex_value(w[5]) == Some((n % 16) as u32));
            char_u32_cast(c, n as u32);
        }
    }
}

/// Escaping works from the front as well as from the back.
proof fn lemma_escape_front(s: Seq<char>)
    requires
        s.len() > 0,
    ensures
        escape(s) == escape_char(s[0]) + escape(s.drop_first()),
    decreases s.len(),
{
    if s.len() == 1 {
        assert(s.drop_last() =~= Seq::empty());
        assert(s.drop_first() =~= Seq::empty());
        assert(escape(s) =~= escape_char(s[0]) + escape(s.drop_first()));
    } else {
        lemma_escape_front(s.drop_last());
        assert(s.drop_last().drop_first() =~= s.drop_first().drop_last());
        assert(escape(s) =~= escape_char(s[0]) + escape(s.drop_first()));
    }
}

/// An escaped text with its closing quote is read back.
proof fn lemma_reads_string(d: Seq<u8>, p: int, s: Seq<char>)
    requires
        has_word(d, p, encode_utf8(escape(s))),
        byte_at(d, p + encode_utf8(escape(s)).len()) == Some(0x22u8),
    ensures
        string_body(d, p) == Ok::<(Seq<char>, int), JsonError>(
            (s, p + encode_utf8(escape(s)).len() + 1),
        ),
    decreases s.len(),
{
    if s.len() == 0 {
        assert(s =~= Seq::empty());
    } else {
        lemma_escape_front(s);
        let a = escape_char(s[0]);
        let b = escape(s.drop_first());
        lemma_text_split(d, p, a, b);
        lemma_reads_char(d, p, s[0]);
        lemma_reads_string(d, p + encode_utf8(a).len(), s.drop_first());
        assert(seq![s[0]] + s.drop_first() =~= s);
    }
}

/// A quoted text is read back.
proof fn lemma_reads_quoted(d: Seq<u8>, p: int, s: Seq<char>)
    requires
        has_word(d, p, encode_utf8(seq!['"'] + escape(s) + seq!['"'])),
    ensures
        byte_at(d, p) == Some(0x22u8),
        string_body(d, p + 1) == Ok::<(Seq<char>, int), JsonError>(
            (s, p + encode_utf8(seq!['"'] + escape(s) + seq!['"']).len()),
        ),
{
    lemma_text_split(d, p, seq!['"'] + escape(s), seq!['"']);
    lemma_text_split(d, p, seq!['"'], escape(s));
    lemma_ascii_char(d, p, '"');
    lemma_ascii_char(d, p + encode_utf8(seq!['"'] + escape(s)).len(), '"');
    lemma_reads_string(d, p + 1, s);
}

/// Digits that end at a non-digit are found in full.
proof fn lemma_digits_found(d: Seq<u8>, p: int, w: Seq<u8>)
    requires
        has_word(d, p, w),
        forall|i: int| 0 <= i < w.len() ==> is_digit(#[trigger] w[i]),
        byte_at(d, p + w.len()) matches Some(b) ==> !is_digit(b),
    ensures
        digits_end(d, p) == p + w.len(),
    decreases w.len(),
{
    if w.len() > 0 {
        lemma_word_bytes(d, p, w);
        assert(byte_at(d, p + 0) == Some(w[0]));
        assert(seq![w[0]] + w.drop_first() =~= w);
        lemma_word_split(d, p, seq![w[0]], w.drop_first());
        lemma_digits_found(d, p + 1, w.drop_first());
    }
}

/// Decimal digits stand for the number that they were written for, without a
/// leading zero.
proof fn lemma_decimal_value(n: nat)
    ensures
        digits_value(decimal(n)) == n,
        n >= 1 ==> decimal(n)[0] != 0x30,
        n == 0 ==> decimal(n) == seq![0x30u8],
    decreases n,
{
    if n < 10 {
        assert(decimal(n).drop_last() =~= Seq::empty());
        assert(digits_value(Seq::<u8>::empty()) == 0);
    } else {
        lemma_decimal_value(n / 10);
        lemma_decimal_digits(n / 10);
        assert(decimal(n).drop_last() =~= decimal(n / 10));
        assert(decimal(n)[0] == decimal(n / 10)[0]);
    }
}

/// A number is read back, unless a digit follows it.
proof fn lemma_reads_number(d: Seq<u8>, p: int, n: int)
    requires
        i64::MIN <= n <= i64::MAX,
        has_word(d, p, encode_utf8(number_text(n))),
        byte_at(d, p + encode_utf8(number_text(n)).len()) matches Some(b) ==> !is_digit(b),
    ensures
        byte_at(d, p) is Some,
        byte_at(d, p)->0 == 0x2D || is_digit(byte_at(d, p)->0),
        number(d, p) == Ok::<(JsonModel, int), JsonError>(
            (JsonModel::Number(n), p + encode_utf8(number_text(n)).len()),
        ),
{
    let m = (if n < 0 {
        -n
    } else {
        n
    }) as nat;
    lemma_decimal_digits(m);
    lemma_decimal_value(m);
    lemma_encode_ascii(decimal(m));
    let s = if n < 0 {
        p + 1
    } else {
        p
    };
    if n < 0 {
        lemma_text_split(d, p, seq!['-'], ascii(decimal(m)));
        lemma_ascii_char(d, p, '-');
    }
    assert(has_word(d, s, decimal(m)));
    lemma_word_bytes(d, s, decimal(m));
    assert(byte_at(d, s + 0) == Some(decimal(m)[0]));
    lemma_digits_found(d, s, decimal(m));
    assert(d.subrange(s, s + decimal(m).len()) == decimal(m));
}

/// The JSON text of a value starts with a character that is no white space.
proof fn lemma_starts(v: JsonModel)
    ensures
        render(v).len() > 0,
        0x20 < render(v)[0] as int,
        (render(v)[0] as int) < 0x80,
{
    reveal_strlit("null");
    reveal_strlit("true");
    reveal_strlit("false");
    if let JsonModel::Number(n) = v {
        let m = (if n < 0 {
            -n
        } else {
            n
        }) as nat;
        lemma_decimal_digits(m);
        if n >= 0 {
            assert(number_text(n)[0] == decimal(m)[0] as char);
        }
    }
}

/// The items of an array from `i` on, with the closing bracket.
spec fn items_from(v: JsonModel, i: int) -> Seq<char>
    decreases v->Array_0.len() - i,
{
    if 0 <= i < v->Array_0.len() - 1 {
        render(v->Array_0[i]) + seq![','] + items_from(v, i + 1)
    } else {
        render(v->Array_0[i]) + seq![']']
    }
}

proof fn lemma_items_from(v: JsonModel, i: int)
    requires
        v is Array,
        0 <= i < v->Array_0.len(),
    ensures
        render_items(v, v->Array_0.len()) + seq![']'] == render_items(v, i as nat) + separator(
            (i + 1) as nat,
        ) + items_from(v, i),
    decreases v->Array_0.len() - i,
{
    if i < v->Array_0.len() - 1 {
        lemma_items_from(v, i + 1);
        assert(render_items(v, (i + 1) as nat) + seq![','] + items_from(v, i + 1) =~= render_items(
            v,
            i as nat,
        ) + separator((i + 1) as nat) + items_from(v, i));
    } else {
        assert(render_items(v, v->Array_0.len()) + seq![']'] =~= render_items(v, i as nat)
            + separator((i + 1) as nat) + items_from(v, i));
    }
}

/// The entries of an object from `i` on, with the closing brace.
spec fn entries_from(v: JsonModel, i: int) -> Seq<char>
    decreases v->Object_0.len() - i,
{
    if 0 <= i < v->Object_0.len() - 1 {
        render_key(v->Object_0[i].0) + render(v->Object_0[i].1) + seq![','] + entries_from(v, i + 1)
    } else {
        render_key(v->Object_0[i].0) + render(v->Object_0[i].1) + seq!['}']
    }
}

proof fn lemma_entries_from(v: JsonModel, i: int)
    requires
        v is Object,
        0 <= i < v->Object_0.len(),
    ensures
        render_entries(v, v->Object_0.len()) + seq!['}'] == render_entries(v, i as nat) + separator(
            (i + 1) as nat,
        ) + entries_from(v, i),
    decreases v->Object_0.len() - i,
{
    if i < v->Object_0.len() - 1 {
        lemma_entries_from(v, i + 1);
        assert(render_entries(v, (i + 1) as nat) + seq![','] + entries_from(v, i + 1)
            =~= render_entries(v, i as nat) + separator((i + 1) as nat) + entries_from(v, i));
    } else {
        assert(render_entries(v, v->Object_0.len()) + seq!['}'] =~= render_entries(v, i as nat)
            + separator((i + 1) as nat) + entries_from(v, i));
    }
}

/// The JSON text of a value is read back as the value.
proof fn lemma_reads(d: Seq<u8>, p: int, depth: nat, v: JsonModel)
    requires
        readable(v, depth),
        has_word(d, p, encode_utf8(render(v))),
        byte_at(d, p + encode_utf8(render(v)).len()) matches Some(b) ==> !is_digit(b),
    ensures
        value(d, p, depth) == Ok::<(JsonModel, int), JsonError>(
            (v, p + encode_utf8(render(v)).len()),
        ),
    decreases v, parts(v) + 1,
{
    let t = render(v);
    let w = encode_utf8(t);
    lemma_starts(v);
    assert(t =~= seq![t[0]] + t.drop_first());
    lemma_text_split(d, p, seq![t[0]], t.drop_first());
    lemma_ascii_char(d, p, t[0]);
    assert(skip_space(d, p) == p);
    match v {
        JsonModel::Null => {
            reveal_strlit("null");
            lemma_ascii_text(t);
            assert(w =~= word_null());
        },
        JsonModel::Bool(b) => {
            reveal_strlit("true");
            reveal_strlit("false");
            lemma_ascii_text(t);
            if b {
                assert(w =~= word_true());
            } else {
                assert(w =~= word_false());
                assert(d.subrange(p, p + 4)[0] == d[p]);
            }
        },
        JsonModel::Number(n) => {
            lemma_reads_number(d, p, n);
        },
        JsonModel::Text(s) => {
            lemma_reads_quoted(d, p, s);
        },
        JsonModel::Array(a) => {
            if a.len() == 0 {
                assert(a =~= Seq::empty());
                assert(t.drop_first() =~= seq![']']);
                lemma_ascii_char(d, p + 1, ']');
            } else {
                lemma_items_from(v, 0);
                assert(t.drop_first() =~= items_from(v, 0));
                lemma_reads_items(d, p + 1, depth + 1, v, 0);
                lemma_first_of_items(d, p + 1, v);
                assert(a.skip(0) =~= a);
            }
        },
        JsonModel::Object(o) => {
            if o.len() == 0 {
                assert(o =~= Seq::empty());
                assert(t.drop_first() =~= seq!['}']);
                lemma_ascii_char(d, p + 1, '}');
            } else {
                lemma_entries_from(v, 0);
                assert(t.drop_first() =~= entries_from(v, 0));
                lemma_reads_entries(d, p + 1, depth + 1, v, 0);
                lemma_first_of_entries(d, p + 1, v);
                assert(o.skip(0) =~= o);
            }
        },
    }
}

/// What stands behind the bracket of a non-empty array.
proof fn lemma_first_of_items(d: Seq<u8>, p: int, v: JsonModel)
    requires
        v is Array,
        v->Array_0.len() > 0,
        has_word(d, p, encode_utf8(items_from(v, 0))),
    ensures
        byte_at(d, p) is Some,
        byte_at(d, p) != Some(0x5Du8),
        skip_space(d, p) == p,
{
    let first = v->Array_0[0];
    let t = items_from(v, 0);
    lemma_starts(first);
    assert(t =~= seq![render(first)[0]] + t.drop_first());
    lemma_text_split(d, p, seq![render(first)[0]], t.drop_first());
    lemma_ascii_char(d, p, render(first)[0]);
    lemma_starts_a_value(first);
}

/// No value starts with a closing bracket.
proof fn lemma_starts_a_value(v: JsonModel)
    ensures
        render(v).len() > 0,
        render(v)[0] != ']',
{
    lemma_starts(v);
    reveal_strlit("null");
    reveal_strlit("true");
    reveal_strlit("false");
    if let JsonModel::Number(n) = v {
        let m = (if n < 0 {
            -n
        } else {
            n
        }) as nat;
        lemma_decimal_digits(m);
        if n >= 0 {
            assert(number_text(n)[0] == decimal(m)[0] as char);
        }
    }
}

/// What stands behind the brace of a non-empty object.
proof fn lemma_first_of_entries(d: Seq<u8>, p: int, v: JsonModel)
    requires
        v is Object,
        v->Object_0.len() > 0,
        has_word(d, p, encode_utf8(entries_from(v, 0))),
    ensures
        byte_at(d, p) == Some(0x22u8),
        skip_space(d, p) == p,
{
    let t = entries_from(v, 0);
    assert(t =~= seq!['"'] + t.drop_first());
    lemma_text_split(d, p, seq!['"'], t.drop_first());
    lemma_ascii_char(d, p, '"');
}

/// The items of an array from `i` on are read back.
proof fn lemma_reads_items(d: Seq<u8>, p: int, depth: nat, v: JsonModel, i: int)
    requires
        v is Array,
        0 <= i < v->Array_0.len(),
        forall|j: int|
            0 <= j < v->Array_0.len() ==> readable(#[trigger] v->Array_0[j], depth),
        has_word(d, p, encode_utf8(items_from(v, i))),
    ensures
        items(d, p, depth) == Ok::<(Seq<JsonModel>, int), JsonError>(
            (v->Array_0.skip(i), p + encode_utf8(items_from(v, i)).len()),
        ),
    decreases v, v->Array_0.len() - i,
{
    let a = v->Array_0;
    let item = a[i];
    let first = render(item);
    let q = p + encode_utf8(first).len();
    if i < a.len() - 1 {
        let rest = items_from(v, i + 1);
        assert(first + seq![','] + rest =~= first + (seq![','] + rest));
        lemma_text_split(d, p, first, seq![','] + rest);
        lemma_text_split(d, q, seq![','], rest);
        lemma_ascii_char(d, q, ',');
        lemma_reads(d, p, depth, item);
        lemma_reads_items(d, q + 1, depth, v, i + 1);
        assert(skip_space(d, q) == q);
        assert(seq![item] + a.skip(i + 1) =~= a.skip(i));
    } else {
        lemma_text_split(d, p, first, seq![']']);
        lemma_ascii_char(d, q, ']');
        lemma_reads(d, p, depth, item);
        assert(skip_space(d, q) == q);
        assert(a.skip(i) =~= seq![item]);
    }
}

/// The entries of an object from `i` on are read back.
proof fn lemma_reads_entries(d: Seq<u8>, p: int, depth: nat, v: JsonModel, i: int)
    requires
        v is Object,
        0 <= i < v->Object_0.len(),
        forall|j: int|
            0 <= j < v->Object_0.len() ==> readable((#[trigger] v->Object_0[j]).1, depth),
        has_word(d, p, encode_utf8(entries_from(v, i))),
    ensures
        entries(d, p, depth) == Ok::<(Seq<(Seq<char>, JsonModel)>, int), JsonError>(
            (v->Object_0.skip(i), p + encode_utf8(entries_from(v, i)).len()),
        ),
    decreases v, v->Object_0.len() - i,
{
    let o = v->Object_0;
    let (k, item) = o[i];
    let quoted = seq!['"'] + escape(k) + seq!['"'];
    let first = render(item);
    let last = i == o.len() - 1;
    let rest = if last {
        seq!['}']
    } else {
        seq![','] + entries_from(v, i + 1)
    };
    let t = entries_from(v, i);
    assert(t =~= quoted + (seq![':'] + (first + rest)));
    lemma_text_split(d, p, quoted, seq![':'] + (first + rest));
    let c = p + encode_utf8(quoted).len();
    lemma_text_split(d, c, seq![':'], first + rest);
    lemma_ascii_char(d, c, ':');
    lemma_text_split(d, c + 1, first, rest);
    let q = c + 1 + encode_utf8(first).len();
    lemma_reads_quoted(d, p, k);
    assert(skip_space(d, p) == p);
    assert(skip_space(d, c) == c);
    if last {
        lemma_ascii_char(d, q, '}');
        lemma_reads(d, c + 1, depth, item);
        assert(skip_space(d, q) == q);
        assert(o.skip(i) =~= seq![(k, item)]);
    } else {
        lemma_text_split(d, q, seq![','], entries_from(v, i + 1));
        lemma_ascii_char(d, q, ',');
        lemma_reads(d, c + 1, depth, item);
        lemma_reads_entries(d, q + 1, depth, v, i + 1);
        assert(skip_space(d, q) == q);
        assert(seq![(k, item)] + o.skip(i + 1) =~= o.skip(i));
    }
}

} // verus!
