//! What HTTP requests and responses promise on the wire.
use crate::http_client::{
    blank_line, crlf, has_line_break, header_breaks, header_bytes, header_index, header_line,
    header_value, headers_bytes, headers_from, http_slash, line_end, response, response_head,
    stated_length, status_line, three_digits, HttpError, RequestModel, ResponseModel,
};
use crate::text::{
    ascii, decimal, decimal_number, first_word, has_word, is_white, lemma_decimal_digits,
    lemma_encode_ascii, lemma_encode_concat, lemma_first_word, lemma_first_word_is, trimmed,
};
use crate::text_laws::{
    law_decimal_reads_back, law_first_byte_is_found, law_only_case_is_ignored,
    law_trimming_takes_the_white_space_around, same_but_for_case,
};
use vstd::prelude::*;
use vstd::utf8::*;

verus! {

broadcast use vstd::string::group_string_axioms;

// ---------------------------------------------------------------------------
// Responses
// ---------------------------------------------------------------------------

/// What is found in a text is found at the same place when the text goes on.
proof fn lemma_first_word_prefix(d: Seq<u8>, e: Seq<u8>, word: Seq<u8>, n: int)
    requires
        word.len() > 0,
        0 <= n <= d.len(),
        n <= e.len(),
        d.take(n) == e.take(n),
        first_word(d, word, 0) matches Some(p) && p + word.len() <= n,
    ensures
        first_word(e, word, 0) == first_word(d, word, 0),
{
    lemma_first_word(d, word, 0);
    let p = first_word(d, word, 0)->0;
    assert forall|q: int| 0 <= q <= p implies has_word(e, q, word) == #[trigger] has_word(
        d,
        q,
        word,
    ) by {
        assert(d.subrange(q, q + word.len()) =~= d.take(n).subrange(q, q + word.len()));
        assert(e.subrange(q, q + word.len()) =~= e.take(n).subrange(q, q + word.len()));
    }
    assert(has_word(e, p, word));
    assert forall|q: int| 0 <= q < p implies !#[trigger] has_word(e, q, word) by {
        assert(!has_word(d, q, word));
    }
    lemma_first_word_is(e, word, 0, p);
}

/// Law: a response takes no more bytes than there are, and exactly its header
/// block, the empty line and its body.
pub proof fn law_consumed_is_head_and_body(d: Seq<u8>)
    requires
        response(d) is Ok,
    ensures
        response(d)->Ok_0.consumed <= d.len(),
        first_word(d, blank_line(), 0) is Some,
        response(d)->Ok_0.consumed == first_word(d, blank_line(), 0)->0 + 4
            + response(d)->Ok_0.body.len(),
{
    lemma_first_word(d, blank_line(), 0);
}

/// Law: the bytes that a response took are the response: what follows them in
/// the receive buffer can be drained without a change.
pub proof fn law_consumed_bytes_are_the_response(d: Seq<u8>)
    requires
        response(d) is Ok,
    ensures
        response(d.take(response(d)->Ok_0.consumed)) == response(d),
{
    law_consumed_is_head_and_body(d);
    lemma_first_word(d, blank_line(), 0);
    let m = response(d)->Ok_0;
    let e = d.take(m.consumed);
    let h = first_word(d, blank_line(), 0)->0;
    assert(e.take(m.consumed) =~= d.take(m.consumed));
    lemma_first_word_prefix(d, e, blank_line(), m.consumed);
    assert(e.take(h) =~= d.take(h));
    assert(e.subrange(h + 4, m.consumed) =~= d.subrange(h + 4, m.consumed));
    assert(m.consumed == d.len() ==> e =~= d);
}

/// Law: where a response states its length, bytes behind it change nothing.
pub proof fn law_trailing_bytes_are_left_alone(d: Seq<u8>, extra: Seq<u8>)
    requires
        response(d) is Ok,
        header_value(response(d)->Ok_0.headers, "content-length"@) is Some,
    ensures
        response(d + extra) == response(d),
{
    law_consumed_is_head_and_body(d);
    lemma_first_word(d, blank_line(), 0);
    let m = response(d)->Ok_0;
    let e = d + extra;
    let h = first_word(d, blank_line(), 0)->0;
    let n = d.len() as int;
    assert(e.take(n) =~= d.take(n));
    lemma_first_word_prefix(d, e, blank_line(), n);
    assert(e.take(h) =~= d.take(h));
    assert(e.subrange(h + 4, m.consumed) =~= d.subrange(h + 4, m.consumed));
}

/// Law: a response that states its length is not there before its last byte is: every
/// shorter part of its bytes is incomplete.
pub proof fn law_shorter_input_is_incomplete(d: Seq<u8>, n: int)
    requires
        response(d) is Ok,
        header_value(response(d)->Ok_0.headers, "content-length"@) is Some,
        0 <= n < response(d)->Ok_0.consumed,
    ensures
        response(d.take(n)) == Err::<ResponseModel, HttpError>(HttpError::Incomplete),
{
    law_consumed_is_head_and_body(d);
    lemma_first_word(d, blank_line(), 0);
    let e = d.take(n);
    let h = first_word(d, blank_line(), 0)->0;
    lemma_first_word(e, blank_line(), 0);
    if let Some(p) = first_word(e, blank_line(), 0) {
        assert(d.take(n) =~= e.take(n));
        lemma_first_word_prefix(e, d, blank_line(), n);
        assert(e.take(h) =~= d.take(h));
    }
}

/// Law: without an empty line in it, input is never more than incomplete.
pub proof fn law_no_blank_line_is_incomplete(d: Seq<u8>)
    requires
        forall|p: int| 0 <= p ==> !#[trigger] has_word(d, p, blank_line()),
    ensures
        response(d) == Err::<ResponseModel, HttpError>(HttpError::Incomplete),
{
    lemma_first_word(d, blank_line(), 0);
}

// ---------------------------------------------------------------------------
// Requests
// ---------------------------------------------------------------------------

/// Every CR is followed by one more byte, and the byte after that is no CR:
/// lines end, and none is empty.
spec fn tidy(s: Seq<u8>) -> bool {
    forall|q: int|
        #![trigger s[q]]
        0 <= q < s.len() && s[q] == 0x0D ==> q + 1 < s.len() && (q + 2 < s.len() ==> s[q + 2]
            != 0x0D)
}

/// Lines put behind each other stay lines.
proof fn lemma_tidy_concat(a: Seq<u8>, b: Seq<u8>)
    requires
        tidy(a),
        tidy(b),
        b.len() > 0 ==> b[0] != 0x0D,
    ensures
        tidy(a + b),
{
    let s = a + b;
    assert forall|q: int| #![trigger s[q]] 0 <= q < s.len() && s[q] == 0x0D implies q + 1 < s.len()
        && (q + 2 < s.len() ==> s[q + 2] != 0x0D) by {
        if q < a.len() {
            assert(a[q] == 0x0D);
            if q + 2 < a.len() {
                assert(s[q + 2] == a[q + 2]);
            } else if q + 2 < s.len() {
                assert(s[q + 2] == b[0]);
            }
        } else {
            assert(b[q - a.len()] == 0x0D);
            if q + 2 < s.len() {
                assert(s[q + 2] == b[q - a.len() + 2]);
            }
        }
    }
}

/// A line without line breaks in it, with its terminator.
proof fn lemma_tidy_line(body: Seq<u8>)
    requires
        body.len() > 0,
        !has_line_break(body),
    ensures
        tidy(body + crlf()),
        (body + crlf())[0] != 0x0D,
{
    let s = body + crlf();
    assert forall|q: int| #![trigger s[q]] 0 <= q < s.len() && s[q] == 0x0D implies q + 1 < s.len()
        && (q + 2 < s.len() ==> s[q + 2] != 0x0D) by {
        if q < body.len() {
            assert(body[q] == 0x0D);
        }
    }
    assert(s[0] == body[0]);
}

/// Texts without line breaks put behind each other have none.
proof fn lemma_no_break_concat(a: Seq<u8>, b: Seq<u8>)
    requires
        !has_line_break(a),
        !has_line_break(b),
    ensures
        !has_line_break(a + b),
{
    let s = a + b;
    if has_line_break(s) {
        let i = choose|i: int| 0 <= i < s.len() && (#[trigger] s[i] == 0x0D || s[i] == 0x0A);
        if i < a.len() {
            assert(a[i] == s[i]);
        } else {
            assert(b[i - a.len()] == s[i]);
        }
    }
}

/// An ASCII text without line breaks is encoded without line breaks.
proof fn lemma_plain_text(t: Seq<char>)
    requires
        forall|i: int|
            0 <= i < t.len() ==> 0x20 <= (#[trigger] t[i]) as int && (t[i] as int) < 0x80,
    ensures
        encode_utf8(t).len() == t.len(),
        !has_line_break(encode_utf8(t)),
{
    assert(is_ascii_chars(t));
    is_ascii_chars_encode_utf8(t);
    let s = encode_utf8(t);
    assert forall|i: int| 0 <= i < s.len() implies #[trigger] s[i] != 0x0D && s[i] != 0x0A by {
        assert(t[i] as u8 == s[i]);
    }
}

proof fn lemma_header_lines(hs: Seq<(Seq<char>, Seq<char>)>)
    requires
        forall|i: int| 0 <= i < hs.len() ==> !header_breaks(#[trigger] hs[i]),
    ensures
        tidy(headers_bytes(hs)),
        headers_bytes(hs).len() > 0 ==> headers_bytes(hs)[0] != 0x0D,
    decreases hs.len(),
{
    if hs.len() > 0 {
        let h = hs.last();
        let rest = hs.drop_last();
        assert forall|i: int| 0 <= i < rest.len() implies !header_breaks(#[trigger] rest[i]) by {
            assert(rest[i] == hs[i]);
        }
        lemma_header_lines(rest);
        reveal_strlit(": ");
        lemma_plain_text(": "@);
        let body = encode_utf8(h.0) + encode_utf8(": "@) + encode_utf8(h.1);
        lemma_no_break_concat(encode_utf8(h.0), encode_utf8(": "@));
        lemma_no_break_concat(encode_utf8(h.0) + encode_utf8(": "@), encode_utf8(h.1));
        lemma_tidy_line(body);
        assert(header_bytes(h) =~= body + crlf());
        lemma_tidy_concat(headers_bytes(rest), header_bytes(h));
    }
}

/// Law: no field of a request can end the header block or slip an empty line
/// into it: the first empty line on the wire is the one behind the last header.
pub proof fn law_head_ends_where_it_should(m: RequestModel)
    requires
        m.fault() is None,
    ensures
        first_word(m.wire(), blank_line(), 0) == Some(m.head().len() - 2),
{
    let head = m.head();
    let wire = m.wire();
    reveal_strlit("GET");
    reveal_strlit("POST");
    reveal_strlit("PUT");
    reveal_strlit("DELETE");
    reveal_strlit(" ");
    reveal_strlit(" HTTP/1.1");
    reveal_strlit("Host: ");
    reveal_strlit("Content-Length: ");
    lemma_plain_text(m.method.name());
    lemma_plain_text(" "@);
    lemma_plain_text(" HTTP/1.1"@);
    lemma_plain_text("Host: "@);
    lemma_plain_text("Content-Length: "@);
    let a = encode_utf8(m.method.name());
    let b = encode_utf8(" "@);
    let c = encode_utf8(m.path);
    let d = encode_utf8(" HTTP/1.1"@);
    lemma_no_break_concat(a, b);
    lemma_no_break_concat(a + b, c);
    lemma_no_break_concat(a + b + c, d);
    lemma_tidy_line(a + b + c + d);
    assert(m.request_line() =~= (a + b + c + d) + crlf());
    let e = encode_utf8("Host: "@);
    let f = encode_utf8(m.host);
    lemma_no_break_concat(e, f);
    lemma_tidy_line(e + f);
    assert(m.host_line() =~= (e + f) + crlf());
    lemma_tidy_concat(m.request_line(), m.host_line());
    let g = encode_utf8("Content-Length: "@);
    let n = decimal(m.body_len());
    lemma_decimal_digits(m.body_len());
    lemma_no_break_concat(g, n);
    lemma_tidy_line(g + n);
    assert(m.adds_content_length() ==> m.length_line() =~= (g + n) + crlf());
    lemma_tidy_concat(m.request_line() + m.host_line(), m.length_line());
    lemma_header_lines(m.headers);
    lemma_tidy_concat(
        m.request_line() + m.host_line() + m.length_line(),
        headers_bytes(m.headers),
    );
    assert(tidy(head));
    lemma_head_end(m);
    let p = head.len() - 2;
    assert(wire.subrange(p, p + 4) =~= blank_line());
    assert forall|q: int| 0 <= q < p implies !#[trigger] has_word(wire, q, blank_line()) by {
        if has_word(wire, q, blank_line()) {
            let w = wire.subrange(q, q + 4);
            assert(w[0] == wire[q] && w[2] == wire[q + 2]);
            assert(head[q] == 0x0D);
            assert(head[q + 2] == wire[q + 2]);
        }
    }
    lemma_first_word_is(wire, blank_line(), 0, p);
}

/// The header block ends with a line terminator.
proof fn lemma_head_end(m: RequestModel)
    ensures
        m.head().len() >= 2,
        m.head()[m.head().len() - 2] == 0x0D,
        m.head()[m.head().len() - 1] == 0x0A,
{
    let head = m.head();
    let hs = m.headers;
    if hs.len() > 0 {
        let last = header_bytes(hs.last());
        assert(head =~= (m.request_line() + m.host_line() + m.length_line() + headers_bytes(
            hs.drop_last(),
        )) + last);
    } else {
        assert(headers_bytes(hs) =~= Seq::empty());
    }
}

// ---------------------------------------------------------------------------
// Responses read back
// ---------------------------------------------------------------------------

/// Whether bytes hold neither CR nor LF.
pub open spec fn on_one_line(s: Seq<u8>) -> bool {
    forall|i: int| 0 <= i < s.len() ==> #[trigger] s[i] != 0x0D && s[i] != 0x0A
}

/// Whether a text is empty or has no white space at its ends.
pub open spec fn is_trim(s: Seq<char>) -> bool {
    s.len() > 0 ==> !is_white(s[0]) && !is_white(s.last())
}

/// Whether a name and a value can stand in a header line: the name is not empty and has no
/// colon, neither breaks the line nor has white space around it. The value may have colons.
pub open spec fn is_header(h: (Seq<char>, Seq<char>)) -> bool {
    &&& h.0.len() > 0
    &&& is_trim(h.0)
    &&& is_trim(h.1)
    &&& on_one_line(encode_utf8(h.0))
    &&& on_one_line(encode_utf8(h.1))
    &&& forall|i: int| 0 <= i < encode_utf8(h.0).len() ==> #[trigger] encode_utf8(h.0)[i] != 0x3A
}

/// A header line without its end: the name, a colon, a space and the value.
pub open spec fn line_of(h: (Seq<char>, Seq<char>)) -> Seq<u8> {
    encode_utf8(h.0) + seq![0x3Au8, 0x20u8] + encode_utf8(h.1)
}

/// Header lines, each with its end.
pub open spec fn lines_of(hs: Seq<(Seq<char>, Seq<char>)>) -> Seq<u8>
    decreases hs.len(),
{
    if hs.len() == 0 {
        Seq::empty()
    } else {
        line_of(hs[0]) + seq![0x0Du8, 0x0Au8] + lines_of(hs.drop_first())
    }
}

proof fn lemma_space_value(value: Seq<char>)
    ensures
        encode_utf8(seq![' '] + value) == seq![0x20u8] + encode_utf8(value),
{
    lemma_encode_concat(seq![' '], value);
    lemma_encode_ascii(seq![0x20u8]);
    assert(ascii(seq![0x20u8]) =~= seq![' ']);
}

/// Law: a header line is read back as the name and the value that it was written with,
/// colons in the value and all.
pub proof fn law_header_lines_read_back(name: Seq<char>, value: Seq<char>)
    requires
        is_header((name, value)),
    ensures
        header_line(line_of((name, value))) == Ok::<(Seq<char>, Seq<char>), HttpError>(
            (name, value),
        ),
{
    let n = encode_utf8(name);
    let v = encode_utf8(value);
    let line = line_of((name, value));
    let c = n.len() as int;
    assert(line[c] == 0x3A);
    assert forall|i: int| 0 <= i < c implies #[trigger] line[i] != 0x3A by {
        assert(line[i] == n[i]);
    }
    law_first_byte_is_found(line, 0x3A, c);
    assert(line.take(c) =~= n);
    assert(line.skip(c + 1) =~= seq![0x20u8] + v);
    lemma_space_value(value);
    encode_utf8_valid_utf8(name);
    encode_utf8_decode_utf8(name);
    encode_utf8_valid_utf8(seq![' '] + value);
    encode_utf8_decode_utf8(seq![' '] + value);
    let none = Seq::<char>::empty();
    law_trimming_takes_the_white_space_around(none, name, none);
    assert(none + name + none =~= name);
    law_trimming_takes_the_white_space_around(seq![' '], value, none);
    assert(seq![' '] + value + none =~= seq![' '] + value);
    assert(c > 0) by {
        if c == 0 {
            assert(decode_utf8(n) == name);
            assert(n =~= Seq::empty());
        }
    }
}

/// Law: a line without a colon is no header, and neither is one that starts with it.
pub proof fn law_lines_without_a_name_are_refused(line: Seq<u8>)
    requires
        (forall|i: int| 0 <= i < line.len() ==> #[trigger] line[i] != 0x3A) || (line.len() > 0
            && line[0] == 0x3A),
    ensures
        header_line(line) == Err::<(Seq<char>, Seq<char>), HttpError>(HttpError::MalformedHeader),
{
    crate::text_laws::law_first_byte_is_the_first(line, 0x3A);
}

proof fn lemma_line_of(h: (Seq<char>, Seq<char>))
    requires
        is_header(h),
    ensures
        line_of(h).len() >= 2,
        on_one_line(line_of(h)),
{
    let line = line_of(h);
    assert forall|i: int| 0 <= i < line.len() implies #[trigger] line[i] != 0x0D && line[i]
        != 0x0A by {
        let n = encode_utf8(h.0);
        if i < n.len() {
            assert(line[i] == n[i]);
        } else if i >= n.len() + 2 {
            assert(line[i] == encode_utf8(h.1)[i - n.len() - 2]);
        }
    }
}

/// Where no line end stands in a stretch, none is found in it.
proof fn lemma_no_line_end(d: Seq<u8>, from: int, to: int)
    requires
        0 <= from <= to <= d.len(),
        on_one_line(d.subrange(from, to)),
    ensures
        forall|q: int| from <= q < to ==> !#[trigger] has_word(d, q, crlf()),
{
    assert forall|q: int| from <= q < to implies !#[trigger] has_word(d, q, crlf()) by {
        if has_word(d, q, crlf()) {
            assert(d.subrange(q, q + 2)[0] == d[q]);
            assert(crlf()[0] == 0x0D);
            assert(d.subrange(from, to)[q - from] == d[q]);
        }
    }
}

proof fn lemma_headers_read_back(d: Seq<u8>, pos: int, hs: Seq<(Seq<char>, Seq<char>)>, n: nat)
    requires
        0 <= pos <= d.len(),
        hs.len() > 0,
        forall|i: int| 0 <= i < hs.len() ==> is_header(#[trigger] hs[i]),
        n + hs.len() <= 64,
        d.skip(pos) + crlf() == lines_of(hs),
    ensures
        headers_from(d, pos, n) == Ok::<Seq<(Seq<char>, Seq<char>)>, HttpError>(hs),
    decreases hs.len(),
{
    let h = hs[0];
    let rest = hs.drop_first();
    let line = line_of(h);
    assert(is_header(h));
    lemma_line_of(h);
    let all = lines_of(hs);
    assert(all =~= line + crlf() + lines_of(rest));
    assert(d.skip(pos).len() == all.len() - 2);
    assert forall|i: int| 0 <= i < d.len() - pos implies #[trigger] d[pos + i] == all[i] by {
        assert((d.skip(pos) + crlf())[i] == d.skip(pos)[i]);
    }
    let e = pos + line.len();
    assert(all.len() >= line.len() + 2);
    assert(d.subrange(pos, e) =~= line) by {
        assert forall|i: int| 0 <= i < line.len() implies d.subrange(pos, e)[i] == line[i] by {
            assert(d[pos + i] == all[i]);
        }
    }
    lemma_no_line_end(d, pos, e);
    assert(!has_word(d, pos, crlf()));
    law_header_lines_read_back(h.0, h.1);
    lemma_first_word(d, crlf(), pos);
    if rest.len() == 0 {
        assert(lines_of(rest).len() == 0);
        assert(d.len() == e);
        assert(first_word(d, crlf(), pos) is None) by {
            if let Some(p) = first_word(d, crlf(), pos) {
                assert(has_word(d, p, crlf()));
            }
        }
        assert(line_end(d, pos) == e);
        assert(headers_from(d, d.len() as int, n + 1) == Ok::<
            Seq<(Seq<char>, Seq<char>)>,
            HttpError,
        >(Seq::empty()));
        assert(seq![h] + Seq::<(Seq<char>, Seq<char>)>::empty() =~= hs);
    } else {
        lemma_lines_len(rest);
        let next = e + 2;
        assert(d.subrange(e, next) =~= crlf()) by {
            assert(d[pos + line.len()] == all[line.len() as int]);
            assert(d[pos + line.len() + 1] == all[line.len() as int + 1]);
        }
        lemma_first_word_is(d, crlf(), pos, e);
        assert(d.skip(next) + crlf() =~= lines_of(rest)) by {
            let l = lines_of(rest);
            assert((d.skip(next) + crlf()).len() == l.len());
            assert forall|i: int| 0 <= i < l.len() implies (d.skip(next) + crlf())[i] == l[i] by {
                assert(l[i] == all[line.len() + 2 + i]);
                if i < l.len() - 2 {
                    assert(d[pos + (line.len() + 2 + i)] == all[line.len() + 2 + i]);
                } else {
                    assert((d.skip(pos) + crlf())[line.len() + 2 + i] == crlf()[i - (l.len() - 2)]);
                }
            }
        }
        assert forall|i: int| 0 <= i < rest.len() implies is_header(#[trigger] rest[i]) by {
            assert(rest[i] == hs[i + 1]);
        }
        lemma_headers_read_back(d, next, rest, n + 1);
        assert(seq![h] + rest =~= hs);
    }
}

proof fn lemma_lines_len(hs: Seq<(Seq<char>, Seq<char>)>)
    requires
        hs.len() > 0,
    ensures
        lines_of(hs).len() >= 4,
{
    let rest = lines_of(hs.drop_first());
    assert(lines_of(hs) == line_of(hs[0]) + seq![0x0Du8, 0x0Au8] + rest);
    assert(line_of(hs[0]).len() >= 2);
}

proof fn lemma_lines_tidy(hs: Seq<(Seq<char>, Seq<char>)>)
    requires
        forall|i: int| 0 <= i < hs.len() ==> is_header(#[trigger] hs[i]),
    ensures
        tidy(lines_of(hs)),
        lines_of(hs).len() > 0 ==> lines_of(hs).len() >= 4 && lines_of(hs)[0] != 0x0D && lines_of(
            hs,
        )[lines_of(hs).len() - 2] == 0x0D && lines_of(hs)[lines_of(hs).len() - 1] == 0x0A,
    decreases hs.len(),
{
    if hs.len() > 0 {
        let rest = hs.drop_first();
        assert forall|i: int| 0 <= i < rest.len() implies is_header(#[trigger] rest[i]) by {
            assert(rest[i] == hs[i + 1]);
        }
        lemma_lines_tidy(rest);
        assert(is_header(hs[0]));
        lemma_line_of(hs[0]);
        lemma_tidy_line(line_of(hs[0]));
        lemma_tidy_concat(line_of(hs[0]) + crlf(), lines_of(rest));
        assert(lines_of(hs) =~= (line_of(hs[0]) + crlf()) + lines_of(rest));
    }
}

/// A status line: the protocol, a space, three digits and what follows them.
pub open spec fn status_text(version: Seq<u8>, code: int, reason: Seq<u8>) -> Seq<u8> {
    seq![0x48u8, 0x54u8, 0x54u8, 0x50u8, 0x2Fu8] + version + seq![
        0x20u8,
        (0x30 + code / 100) as u8,
        (0x30 + code / 10 % 10) as u8,
        (0x30 + code % 10) as u8,
    ] + reason
}

/// Whether a version and a reason can stand in a status line.
pub open spec fn fits_status_line(version: Seq<u8>, reason: Seq<u8>) -> bool {
    &&& version.len() >= 3
    &&& on_one_line(version)
    &&& on_one_line(reason)
    &&& forall|i: int| 0 <= i < version.len() ==> #[trigger] version[i] != 0x20
}

/// The bytes up to and with the line end of the last header.
pub open spec fn head_text(
    version: Seq<u8>,
    code: int,
    reason: Seq<u8>,
    hs: Seq<(Seq<char>, Seq<char>)>,
) -> Seq<u8> {
    status_text(version, code, reason) + seq![0x0Du8, 0x0Au8] + lines_of(hs)
}

proof fn lemma_status_line(version: Seq<u8>, code: int, reason: Seq<u8>, more: Seq<u8>)
    requires
        fits_status_line(version, reason),
        0 <= code <= 999,
        more.len() == 0 || (more.len() >= 2 && more[0] == 0x0D && more[1] == 0x0A),
    ensures
        status_line(status_text(version, code, reason) + more) == (if 100 <= code <= 599 {
            Ok::<(int, int), HttpError>(
                (
                    code,
                    status_text(version, code, reason).len() + (if more.len() > 0 {
                        2int
                    } else {
                        0
                    }),
                ),
            )
        } else {
            Err::<(int, int), HttpError>(HttpError::InvalidStatusCode)
        }),
        on_one_line(status_text(version, code, reason)),
        status_text(version, code, reason).len() >= 12,
{
    let line = status_text(version, code, reason);
    let block = line + more;
    let k = 5 + version.len() as int;
    assert forall|i: int| 0 <= i < line.len() implies #[trigger] line[i] != 0x0D && line[i]
        != 0x0A by {
        if 5 <= i < k {
            assert(line[i] == version[i - 5]);
        } else if i >= k + 4 {
            assert(line[i] == reason[i - k - 4]);
        }
    }
    assert(block.subrange(0, line.len() as int) =~= line);
    lemma_no_line_end(block, 0, line.len() as int);
    lemma_first_word(block, crlf(), 0);
    if more.len() > 0 {
        assert(block.subrange(line.len() as int, line.len() as int + 2) =~= crlf());
        lemma_first_word_is(block, crlf(), 0, line.len() as int);
    } else {
        if let Some(p) = first_word(block, crlf(), 0) {
            assert(has_word(block, p, crlf()));
        }
    }
    assert(line_end(block, 0) == line.len());
    assert(block.take(line.len() as int) =~= line);
    assert(line[k] == 0x20);
    assert forall|i: int| 0 <= i < k implies #[trigger] line[i] != 0x20 by {
        if i >= 5 {
            assert(line[i] == version[i - 5]);
        }
    }
    law_first_byte_is_found(line, 0x20, k);
    assert(line.subrange(0, 5) =~= http_slash());
    let three = line.subrange(k + 1, k + 4);
    assert(three =~= seq![
        (0x30 + code / 100) as u8,
        (0x30 + code / 10 % 10) as u8,
        (0x30 + code % 10) as u8,
    ]);
    assert(three_digits(three) == Some(code)) by {
        assert(0 <= code / 100 <= 9 && 0 <= code / 10 % 10 <= 9 && 0 <= code % 10 <= 9);
        assert(code == (code / 100) * 100 + (code / 10 % 10) * 10 + code % 10);
    }
}

proof fn lemma_head_found(
    version: Seq<u8>,
    code: int,
    reason: Seq<u8>,
    hs: Seq<(Seq<char>, Seq<char>)>,
    tail: Seq<u8>,
)
    requires
        fits_status_line(version, reason),
        0 <= code <= 999,
        forall|i: int| 0 <= i < hs.len() ==> is_header(#[trigger] hs[i]),
    ensures
        ({
            let head = head_text(version, code, reason, hs);
            let wire = head + seq![0x0Du8, 0x0Au8] + tail;
            &&& head.len() >= 14
            &&& first_word(wire, blank_line(), 0) == Some(head.len() - 2)
        }),
{
    let line = status_text(version, code, reason);
    let head = head_text(version, code, reason, hs);
    let wire = head + seq![0x0Du8, 0x0Au8] + tail;
    lemma_status_line(version, code, reason, Seq::empty());
    lemma_tidy_line(line);
    lemma_lines_tidy(hs);
    lemma_tidy_concat(line + crlf(), lines_of(hs));
    assert(head =~= (line + crlf()) + lines_of(hs));
    let p = head.len() - 2;
    assert(head[p] == 0x0D && head[p + 1] == 0x0A);
    assert(wire.subrange(p, p + 4) =~= blank_line());
    assert forall|q: int| 0 <= q < p implies !#[trigger] has_word(wire, q, blank_line()) by {
        if has_word(wire, q, blank_line()) {
            let w = wire.subrange(q, q + 4);
            assert(w[0] == wire[q] && w[2] == wire[q + 2]);
            assert(head[q] == 0x0D);
            assert(head[q + 2] == wire[q + 2]);
        }
    }
    lemma_first_word_is(wire, blank_line(), 0, p);
}

proof fn lemma_head_read_back(
    version: Seq<u8>,
    code: int,
    reason: Seq<u8>,
    hs: Seq<(Seq<char>, Seq<char>)>,
)
    requires
        fits_status_line(version, reason),
        100 <= code <= 599,
        hs.len() <= 64,
        forall|i: int| 0 <= i < hs.len() ==> is_header(#[trigger] hs[i]),
        stated_length(hs) is Ok,
    ensures
        ({
            let head = head_text(version, code, reason, hs);
            response_head(head.take(head.len() - 2)) == Ok::<
                (int, Seq<(Seq<char>, Seq<char>)>, Option<nat>),
                HttpError,
            >((code, hs, stated_length(hs)->Ok_0))
        }),
{
    let line = status_text(version, code, reason);
    let head = head_text(version, code, reason, hs);
    let block = head.take(head.len() - 2);
    if hs.len() == 0 {
        assert(block =~= line + Seq::<u8>::empty());
        lemma_status_line(version, code, reason, Seq::empty());
        assert(block.skip(line.len() as int) =~= Seq::<u8>::empty());
        assert(headers_from(Seq::<u8>::empty(), 0, 0) == Ok::<
            Seq<(Seq<char>, Seq<char>)>,
            HttpError,
        >(Seq::empty()));
        assert(hs =~= Seq::empty());
    } else {
        lemma_lines_len(hs);
        lemma_lines_tidy(hs);
        let l = lines_of(hs);
        let d = l.take(l.len() - 2);
        let more = crlf() + d;
        assert(block =~= line + more);
        lemma_status_line(version, code, reason, more);
        assert(block.skip(line.len() as int + 2) =~= d);
        assert(d.skip(0) =~= d);
        assert(d + crlf() =~= l);
        lemma_headers_read_back(d, 0, hs, 0);
    }
}

/// Law: a response is read back as it was written: the status from its three digits, every
/// header with its name and value in order, and a body of the stated length. What stands
/// behind the body is left alone.
pub proof fn law_responses_read_back(
    version: Seq<u8>,
    code: int,
    reason: Seq<u8>,
    hs: Seq<(Seq<char>, Seq<char>)>,
    body: Seq<u8>,
    extra: Seq<u8>,
)
    requires
        fits_status_line(version, reason),
        100 <= code <= 599,
        hs.len() <= 64,
        forall|i: int| 0 <= i < hs.len() ==> is_header(#[trigger] hs[i]),
        head_text(version, code, reason, hs).len() <= 16_386,
        body.len() <= 1_048_576,
        stated_length(hs) == Ok::<Option<nat>, HttpError>(Some(body.len())),
    ensures
        response(head_text(version, code, reason, hs) + seq![0x0Du8, 0x0Au8] + (body + extra))
            == Ok::<ResponseModel, HttpError>(
            ResponseModel {
                status: code,
                headers: hs,
                body,
                consumed: (head_text(version, code, reason, hs).len() + 2 + body.len()) as int,
            },
        ),
{
    let head = head_text(version, code, reason, hs);
    let wire = head + seq![0x0Du8, 0x0Au8] + (body + extra);
    lemma_head_found(version, code, reason, hs, body + extra);
    let h = head.len() - 2;
    assert(wire.take(h) =~= head.take(h));
    lemma_head_read_back(version, code, reason, hs);
    let start = h + 4;
    assert(wire.subrange(start, start + body.len()) =~= body);
}

/// Law: a response without a stated length has everything behind the empty line as its body.
pub proof fn law_responses_without_a_length_read_back(
    version: Seq<u8>,
    code: int,
    reason: Seq<u8>,
    hs: Seq<(Seq<char>, Seq<char>)>,
    body: Seq<u8>,
)
    requires
        fits_status_line(version, reason),
        100 <= code <= 599,
        hs.len() <= 64,
        forall|i: int| 0 <= i < hs.len() ==> is_header(#[trigger] hs[i]),
        head_text(version, code, reason, hs).len() <= 16_386,
        body.len() <= 1_048_576,
        forall|i: int|
            0 <= i < hs.len() ==> !same_but_for_case(
                encode_utf8((#[trigger] hs[i]).0),
                encode_utf8("content-length"@),
            ),
    ensures
        response(head_text(version, code, reason, hs) + seq![0x0Du8, 0x0Au8] + body) == Ok::<
            ResponseModel,
            HttpError,
        >(
            ResponseModel {
                status: code,
                headers: hs,
                body,
                consumed: (head_text(version, code, reason, hs).len() + 2 + body.len()) as int,
            },
        ),
{
    let head = head_text(version, code, reason, hs);
    let wire = head + seq![0x0Du8, 0x0Au8] + body;
    lemma_no_header(hs, "content-length"@, 0);
    lemma_head_found(version, code, reason, hs, body);
    let h = head.len() - 2;
    assert(wire.take(h) =~= head.take(h));
    lemma_head_read_back(version, code, reason, hs);
    assert(wire.skip(h + 4) =~= body);
}

/// Law: a status outside 100 to 599 is refused, whatever follows.
pub proof fn law_other_statuses_are_refused(
    version: Seq<u8>,
    code: int,
    reason: Seq<u8>,
    hs: Seq<(Seq<char>, Seq<char>)>,
    tail: Seq<u8>,
)
    requires
        fits_status_line(version, reason),
        0 <= code < 100 || 600 <= code <= 999,
        forall|i: int| 0 <= i < hs.len() ==> is_header(#[trigger] hs[i]),
        head_text(version, code, reason, hs).len() <= 16_386,
    ensures
        response(head_text(version, code, reason, hs) + seq![0x0Du8, 0x0Au8] + tail) == Err::<
            ResponseModel,
            HttpError,
        >(HttpError::InvalidStatusCode),
{
    let line = status_text(version, code, reason);
    let head = head_text(version, code, reason, hs);
    let wire = head + seq![0x0Du8, 0x0Au8] + tail;
    lemma_head_found(version, code, reason, hs, tail);
    let h = head.len() - 2;
    let block = head.take(h);
    assert(wire.take(h) =~= block);
    lemma_lines_tidy(hs);
    if hs.len() == 0 {
        assert(block =~= line + Seq::<u8>::empty());
        lemma_status_line(version, code, reason, Seq::empty());
    } else {
        lemma_lines_len(hs);
        let l = lines_of(hs);
        let more = crlf() + l.take(l.len() - 2);
        assert(block =~= line + more);
        lemma_status_line(version, code, reason, more);
    }
}

/// Law: a header block beyond 16384 bytes is refused, and so is a stated body beyond a
/// mebibyte.
pub proof fn law_large_responses_are_refused(
    version: Seq<u8>,
    code: int,
    reason: Seq<u8>,
    hs: Seq<(Seq<char>, Seq<char>)>,
    tail: Seq<u8>,
)
    requires
        fits_status_line(version, reason),
        100 <= code <= 599,
        hs.len() <= 64,
        forall|i: int| 0 <= i < hs.len() ==> is_header(#[trigger] hs[i]),
    ensures
        head_text(version, code, reason, hs).len() > 16_386 ==> response(
            head_text(version, code, reason, hs) + seq![0x0Du8, 0x0Au8] + tail,
        ) == Err::<ResponseModel, HttpError>(HttpError::HeaderBlockTooLarge),
        head_text(version, code, reason, hs).len() <= 16_386 && (stated_length(hs) matches Ok(
            Some(n),
        ) && n > 1_048_576) ==> response(
            head_text(version, code, reason, hs) + seq![0x0Du8, 0x0Au8] + tail,
        ) == Err::<ResponseModel, HttpError>(HttpError::BodyTooLarge),
{
    let head = head_text(version, code, reason, hs);
    let wire = head + seq![0x0Du8, 0x0Au8] + tail;
    lemma_head_found(version, code, reason, hs, tail);
    let h = head.len() - 2;
    assert(wire.take(h) =~= head.take(h));
    if stated_length(hs) is Ok {
        lemma_head_read_back(version, code, reason, hs);
    }
}

proof fn lemma_no_header(hs: Seq<(Seq<char>, Seq<char>)>, name: Seq<char>, from: int)
    requires
        0 <= from,
        forall|i: int|
            from <= i < hs.len() ==> !same_but_for_case(
                encode_utf8((#[trigger] hs[i]).0),
                encode_utf8(name),
            ),
    ensures
        header_index(hs, name, from) is None,
    decreases hs.len() - from,
{
    if from < hs.len() {
        law_only_case_is_ignored(encode_utf8(hs[from].0), encode_utf8(name));
        lemma_no_header(hs, name, from + 1);
    }
}

proof fn lemma_header_found(hs: Seq<(Seq<char>, Seq<char>)>, name: Seq<char>, from: int, i: int)
    requires
        0 <= from <= i < hs.len(),
        same_but_for_case(encode_utf8(hs[i].0), encode_utf8(name)),
        forall|j: int|
            from <= j < i ==> !same_but_for_case(
                encode_utf8((#[trigger] hs[j]).0),
                encode_utf8(name),
            ),
    ensures
        header_index(hs, name, from) == Some(i),
    decreases i - from,
{
    law_only_case_is_ignored(encode_utf8(hs[from].0), encode_utf8(name));
    if from < i {
        lemma_header_found(hs, name, from + 1, i);
    }
}

/// Law: a header is looked up by its name in any case of its letters, the first one counts,
/// and a name that is not there has no value.
pub proof fn law_headers_are_found_by_name(
    hs: Seq<(Seq<char>, Seq<char>)>,
    name: Seq<char>,
    i: int,
)
    requires
        0 <= i <= hs.len(),
        forall|j: int|
            0 <= j < i ==> !same_but_for_case(
                encode_utf8((#[trigger] hs[j]).0),
                encode_utf8(name),
            ),
        i < hs.len() ==> same_but_for_case(encode_utf8(hs[i].0), encode_utf8(name)),
    ensures
        i < hs.len() ==> header_value(hs, name) == Some(hs[i].1),
        i == hs.len() ==> header_value(hs, name) is None,
{
    if i < hs.len() {
        lemma_header_found(hs, name, 0, i);
    } else {
        lemma_no_header(hs, name, 0);
    }
}

/// Law: the length that a response states is the number in its first Content-Length header,
/// whatever white space stands around it; a value that is no number is refused.
pub proof fn law_stated_lengths_are_read(
    hs: Seq<(Seq<char>, Seq<char>)>,
    i: int,
    front: Seq<char>,
    n: nat,
    back: Seq<char>,
)
    requires
        0 <= i < hs.len(),
        same_but_for_case(encode_utf8(hs[i].0), encode_utf8("content-length"@)),
        forall|j: int|
            0 <= j < i ==> !same_but_for_case(
                encode_utf8((#[trigger] hs[j]).0),
                encode_utf8("content-length"@),
            ),
        forall|k: int| 0 <= k < front.len() ==> is_white(#[trigger] front[k]),
        forall|k: int| 0 <= k < back.len() ==> is_white(#[trigger] back[k]),
        n <= usize::MAX,
    ensures
        hs[i].1 == front + ascii(decimal(n)) + back ==> stated_length(hs) == Ok::<
            Option<nat>,
            HttpError,
        >(Some(n)),
        decimal_number(encode_utf8(trimmed(hs[i].1))) is None ==> stated_length(hs) == Err::<
            Option<nat>,
            HttpError,
        >(HttpError::InvalidContentLength),
{
    law_headers_are_found_by_name(hs, "content-length"@, i);
    law_decimal_reads_back(n);
    lemma_decimal_digits(n);
    let text = ascii(decimal(n));
    lemma_encode_ascii(decimal(n));
    assert(text[0] == decimal(n)[0] as char);
    assert(text.last() == decimal(n).last() as char);
    assert(!is_white(text[0]) && !is_white(text.last()));
    law_trimming_takes_the_white_space_around(front, text, back);
}

// ---------------------------------------------------------------------------
// Requests read back
// ---------------------------------------------------------------------------

/// The headers of a request on the wire: the host, the length of a body where the request
/// does not bring its own, and the request's own headers in order.
pub open spec fn sent_headers(m: RequestModel) -> Seq<(Seq<char>, Seq<char>)> {
    seq![("Host"@, m.host)] + (if m.body_len() > 0 && !(exists|i: int|
        0 <= i < m.headers.len() && same_but_for_case(
            encode_utf8((#[trigger] m.headers[i]).0),
            encode_utf8("content-length"@),
        )) {
        seq![("Content-Length"@, ascii(decimal(m.body_len())))]
    } else {
        Seq::empty()
    }) + m.headers
}

proof fn lemma_lines_concat(a: Seq<(Seq<char>, Seq<char>)>, b: Seq<(Seq<char>, Seq<char>)>)
    ensures
        lines_of(a + b) == lines_of(a) + lines_of(b),
    decreases a.len(),
{
    if a.len() == 0 {
        assert(a + b =~= b);
        assert(lines_of(a) + lines_of(b) =~= lines_of(b));
    } else {
        assert((a + b).drop_first() =~= a.drop_first() + b);
        lemma_lines_concat(a.drop_first(), b);
        assert(lines_of(a + b) =~= lines_of(a) + lines_of(b));
    }
}

proof fn lemma_colon_space()
    ensures
        encode_utf8(": "@) == seq![0x3Au8, 0x20u8],
{
    reveal_strlit(": ");
    lemma_encode_ascii(seq![0x3Au8, 0x20u8]);
    assert(ascii(seq![0x3Au8, 0x20u8]) =~= ": "@);
}

proof fn lemma_headers_are_lines(hs: Seq<(Seq<char>, Seq<char>)>)
    ensures
        headers_bytes(hs) == lines_of(hs),
    decreases hs.len(),
{
    lemma_colon_space();
    if hs.len() > 0 {
        let front = hs.drop_last();
        lemma_headers_are_lines(front);
        lemma_lines_concat(front, seq![hs.last()]);
        assert(front + seq![hs.last()] =~= hs);
        let one = seq![hs.last()];
        assert(one.drop_first() =~= Seq::empty());
        assert(lines_of(one) =~= header_bytes(hs.last())) by {
            assert(lines_of(one.drop_first()) =~= Seq::empty());
            assert(one[0] == hs.last());
        }
    }
}

/// Law: on the wire a request is its method, its path and the protocol in one line, then the
/// host, the length of its body and its own headers in their order, an empty line and the
/// body.
pub proof fn law_requests_are_written_line_by_line(m: RequestModel)
    ensures
        m.wire() == encode_utf8(m.method.name()) + seq![0x20u8] + encode_utf8(m.path) + encode_utf8(
            " HTTP/1.1"@,
        ) + seq![0x0Du8, 0x0Au8] + lines_of(sent_headers(m)) + seq![0x0Du8, 0x0Au8] + (match m.body {
            Some(b) => b,
            None => Seq::empty(),
        }),
{
    lemma_colon_space();
    lemma_headers_are_lines(m.headers);
    reveal_strlit(" ");
    reveal_strlit("Host: ");
    reveal_strlit("Host");
    reveal_strlit(": ");
    reveal_strlit("Content-Length: ");
    reveal_strlit("Content-Length");
    lemma_encode_ascii(seq![0x20u8]);
    assert(ascii(seq![0x20u8]) =~= " "@);
    assert("Host: "@ =~= "Host"@ + ": "@);
    lemma_encode_concat("Host"@, ": "@);
    assert("Content-Length: "@ =~= "Content-Length"@ + ": "@);
    lemma_encode_concat("Content-Length"@, ": "@);
    lemma_decimal_digits(m.body_len());
    lemma_encode_ascii(decimal(m.body_len()));
    let host = ("Host"@, m.host);
    let length = ("Content-Length"@, ascii(decimal(m.body_len())));
    lemma_one_line(host);
    lemma_one_line(length);
    assert(m.host_line() =~= lines_of(seq![host]));
    let middle: Seq<(Seq<char>, Seq<char>)> = if m.adds_content_length() {
        seq![length]
    } else {
        Seq::empty()
    };
    assert(m.length_line() =~= lines_of(middle));
    assert forall|i: int| 0 <= i < m.headers.len() implies crate::http_client::names_content_length(
        (#[trigger] m.headers[i]).0,
    ) == same_but_for_case(encode_utf8(m.headers[i].0), encode_utf8("content-length"@)) by {
        law_only_case_is_ignored(encode_utf8(m.headers[i].0), encode_utf8("content-length"@));
    }
    assert(sent_headers(m) =~= seq![host] + middle + m.headers) by {
        if exists|i: int|
            0 <= i < m.headers.len() && same_but_for_case(
                encode_utf8((#[trigger] m.headers[i]).0),
                encode_utf8("content-length"@),
            ) {
            let i = choose|i: int|
                0 <= i < m.headers.len() && same_but_for_case(
                    encode_utf8((#[trigger] m.headers[i]).0),
                    encode_utf8("content-length"@),
                );
            assert(crate::http_client::names_content_length(m.headers[i].0));
        }
    }
    lemma_lines_concat(seq![host], middle);
    lemma_lines_concat(seq![host] + middle, m.headers);
    assert(m.wire() =~= encode_utf8(m.method.name()) + seq![0x20u8] + encode_utf8(m.path)
        + encode_utf8(" HTTP/1.1"@) + seq![0x0Du8, 0x0Au8] + lines_of(sent_headers(m)) + seq![
        0x0Du8,
        0x0Au8,
    ] + (match m.body {
        Some(b) => b,
        None => Seq::empty(),
    }));
}

proof fn lemma_one_line(h: (Seq<char>, Seq<char>))
    ensures
        lines_of(seq![h]) == line_of(h) + seq![0x0Du8, 0x0Au8],
{
    assert(seq![h].drop_first() =~= Seq::empty());
    assert(lines_of(seq![h].drop_first()) =~= Seq::empty());
    assert(lines_of(seq![h]) =~= line_of(h) + seq![0x0Du8, 0x0Au8]);
}

/// Law: the headers that a request writes are read back as they were.
pub proof fn law_request_headers_read_back(m: RequestModel, d: Seq<u8>)
    requires
        sent_headers(m).len() <= 64,
        forall|i: int| 0 <= i < sent_headers(m).len() ==> is_header(#[trigger] sent_headers(m)[i]),
        d + seq![0x0Du8, 0x0Au8] == lines_of(sent_headers(m)),
    ensures
        headers_from(d, 0, 0) == Ok::<Seq<(Seq<char>, Seq<char>)>, HttpError>(sent_headers(m)),
{
    assert(d.skip(0) =~= d);
    lemma_headers_read_back(d, 0, sent_headers(m), 0);
}

proof fn lemma_break_inside(a: Seq<char>, c: char, b: Seq<char>)
    requires
        c == '\r' || c == '\n',
    ensures
        has_line_break(encode_utf8(a + seq![c] + b)),
{
    lemma_encode_concat(a + seq![c], b);
    lemma_encode_concat(a, seq![c]);
    let one = seq![c as u8];
    assert(ascii(one) =~= seq![c]);
    lemma_encode_ascii(one);
    let e = encode_utf8(a + seq![c] + b);
    assert(e =~= encode_utf8(a) + one + encode_utf8(b));
    let k = encode_utf8(a).len() as int;
    assert(e[k] == 0x0D || e[k] == 0x0A);
}

/// Law: a carriage return or a line feed anywhere in the path, the host, or the name or value of
/// a header keeps a request off the wire.
pub proof fn law_line_breaks_keep_a_request_off_the_wire(
    m: RequestModel,
    a: Seq<char>,
    c: char,
    b: Seq<char>,
    i: int,
)
    requires
        c == '\r' || c == '\n',
    ensures
        ({
            let t = a + seq![c] + b;
            m.path == t || m.host == t || (0 <= i < m.headers.len() && (m.headers[i].0 == t
                || m.headers[i].1 == t)) ==> m.fault() is Some
        }),
{
    lemma_break_inside(a, c, b);
    if 0 <= i < m.headers.len() && (m.headers[i].0 == a + seq![c] + b || m.headers[i].1 == a + seq![
        c,
    ] + b) {
        assert(header_breaks(m.headers[i]));
    }
}

/// Law: what keeps a request off the wire is told: an empty host or path, then a line break in
/// the path, in the host and in a header; a request of printable ASCII with both is sent.
pub proof fn law_faults_of_a_request_are_told(m: RequestModel, path: Seq<u8>, host: Seq<u8>)
    ensures
        m.host.len() == 0 ==> m.fault() == Some(HttpError::EmptyHost),
        m.host.len() > 0 && m.path.len() == 0 ==> m.fault() == Some(HttpError::EmptyPath),
        m.path == ascii(path) && m.host == ascii(host) && path.len() > 0 && host.len() > 0 && (
        forall|i: int| 0 <= i < path.len() ==> 0x20 <= #[trigger] path[i] < 0x7F) && (forall|i: int|
            0 <= i < host.len() ==> 0x20 <= #[trigger] host[i] < 0x7F) && m.headers.len() == 0
            ==> m.fault() is None,
{
    if m.path == ascii(path) && m.host == ascii(host) && (forall|i: int|
        0 <= i < path.len() ==> 0x20 <= #[trigger] path[i] < 0x7F) && (forall|i: int|
        0 <= i < host.len() ==> 0x20 <= #[trigger] host[i] < 0x7F) {
        lemma_encode_ascii(path);
        lemma_encode_ascii(host);
    }
}

} // verus!
