//! What the SMS alphabet promises.
use crate::gsm7::{
    base_code, decoded, ext_char, ext_code, gsm_char, is_packing, law_unpack_gives_what_was_packed,
    lemma_septet_at, septet_of, septets_text, text_septets, unpacked, ESCAPE,
};
use crate::sms::SmsError;
use vstd::arithmetic::power2::{lemma2_to64, pow2};
use vstd::prelude::*;

verus! {

/// Whether a character has the same code in ASCII and in the alphabet.
pub open spec fn keeps_its_code(c: char) -> bool {
    let n = c as u32;
    ||| n == 0x0A
    ||| n == 0x0D
    ||| 0x20 <= n <= 0x23
    ||| 0x25 <= n <= 0x3F
    ||| 0x41 <= n <= 0x5A
    ||| 0x61 <= n <= 0x7A
}

proof fn lemma_code_found(c: char, from: int, code: u8)
    requires
        0 <= from <= code < 128,
        code != ESCAPE,
        gsm_char(code) == c,
        forall|s: u8| from <= s < code && s != ESCAPE ==> #[trigger] gsm_char(s) != c,
    ensures
        base_code(c, from) == Some(code),
    decreases code - from,
{
    if from < code {
        assert(from == ESCAPE || gsm_char(from as u8) != c);
        lemma_code_found(c, from + 1, code);
    }
}

/// Law: letters without accents, digits, and most signs are sent under their ASCII code, in one
/// septet.
pub proof fn law_plain_letters_keep_their_code(c: char)
    requires
        keeps_its_code(c),
    ensures
        septet_of(c) == Some((false, c as u8)),
        gsm_char(c as u8) == c,
{
    let code = c as u8;
    assert(code as char == c);
    assert(gsm_char(code) == c);
    assert forall|s: u8| 0 <= s < code && s != ESCAPE implies #[trigger] gsm_char(s) != c by {}
    lemma_code_found(c, 0, code);
}

/// Law: the signs and letters that have a code of their own in the alphabet.
pub proof fn law_the_alphabet_is_the_standard_one()
    ensures
        gsm_char(0x00) == '@' && gsm_char(0x01) == '\u{A3}' && gsm_char(0x02) == '$' && gsm_char(
            0x03,
        ) == '\u{A5}',
        gsm_char(0x04) == '\u{E8}' && gsm_char(0x05) == '\u{E9}' && gsm_char(0x06) == '\u{F9}'
            && gsm_char(0x07) == '\u{EC}' && gsm_char(0x08) == '\u{F2}' && gsm_char(0x09)
            == '\u{C7}',
        gsm_char(0x0B) == '\u{D8}' && gsm_char(0x0C) == '\u{F8}' && gsm_char(0x0E) == '\u{C5}'
            && gsm_char(0x0F) == '\u{E5}',
        gsm_char(0x10) == '\u{394}' && gsm_char(0x11) == '_' && gsm_char(0x12) == '\u{3A6}'
            && gsm_char(0x13) == '\u{393}' && gsm_char(0x14) == '\u{39B}' && gsm_char(0x15)
            == '\u{3A9}' && gsm_char(0x16) == '\u{3A0}' && gsm_char(0x17) == '\u{3A8}' && gsm_char(
            0x18,
        ) == '\u{3A3}' && gsm_char(0x19) == '\u{398}' && gsm_char(0x1A) == '\u{39E}',
        gsm_char(0x1C) == '\u{C6}' && gsm_char(0x1D) == '\u{E6}' && gsm_char(0x1E) == '\u{DF}'
            && gsm_char(0x1F) == '\u{C9}' && gsm_char(0x24) == '\u{A4}' && gsm_char(0x40)
            == '\u{A1}',
        gsm_char(0x5B) == '\u{C4}' && gsm_char(0x5C) == '\u{D6}' && gsm_char(0x5D) == '\u{D1}'
            && gsm_char(0x5E) == '\u{DC}' && gsm_char(0x5F) == '\u{A7}' && gsm_char(0x60)
            == '\u{BF}',
        gsm_char(0x7B) == '\u{E4}' && gsm_char(0x7C) == '\u{F6}' && gsm_char(0x7D) == '\u{F1}'
            && gsm_char(0x7E) == '\u{FC}' && gsm_char(0x7F) == '\u{E0}',
        ext_char(0x0A) == Some('\u{0C}') && ext_char(0x14) == Some('^') && ext_char(0x28) == Some(
            '{',
        ) && ext_char(0x29) == Some('}') && ext_char(0x2F) == Some('\\') && ext_char(0x3C) == Some(
            '[',
        ) && ext_char(0x3D) == Some('~') && ext_char(0x3E) == Some(']') && ext_char(0x40) == Some(
            '|',
        ) && ext_char(0x65) == Some('\u{20AC}'),
{
}

/// Law: no two codes of the alphabet stand for the same character, and none for one of the
/// extension table; each character of that table has one code there.
pub proof fn law_codes_are_told_apart(a: u8, b: u8, c: char)
    requires
        a < 128,
        b < 128,
        a != ESCAPE,
        b != ESCAPE,
    ensures
        gsm_char(a) == gsm_char(b) ==> a == b,
        ext_char(a) == Some(c) <==> ext_code(c) == Some(a),
        ext_code(gsm_char(a)) is None,
{
}

/// Law: a character of the alphabet takes one septet, one of the extension table two, the
/// first of them the escape; others cannot be sent, and the first of these is named.
pub proof fn law_texts_are_sent_character_by_character(t: Seq<char>, c: char)
    ensures
        text_septets(t) matches Ok(s) ==> match septet_of(c) {
            Some((false, code)) => text_septets(t.push(c)) == Ok::<Seq<u8>, SmsError>(s.push(code)),
            Some((true, code)) => text_septets(t.push(c)) == Ok::<Seq<u8>, SmsError>(
                s.push(0x1B).push(code),
            ),
            None => text_septets(t.push(c)) == Err::<Seq<u8>, SmsError>(
                SmsError::Gsm7Encode(c as u32),
            ),
        },
        text_septets(t) is Err ==> text_septets(t.push(c)) == text_septets(t),
        text_septets(Seq::<char>::empty()) == Ok::<Seq<u8>, SmsError>(Seq::empty()),
{
    assert(t.push(c).drop_last() =~= t);
}

/// Law: septets are read one by one: an escape makes the next one a code of the extension
/// table, where an unknown code is a space.
pub proof fn law_septets_are_read_one_by_one(s: Seq<u8>, code: u8)
    ensures
        code != 0x1B ==> septets_text(seq![code] + s, false) == seq![gsm_char(code)] + septets_text(
            s,
            false,
        ),
        septets_text(seq![0x1Bu8, code] + s, false) == seq![
            match ext_char(code) {
                Some(c) => c,
                None => ' ',
            },
        ] + septets_text(s, false),
        septets_text(Seq::<u8>::empty(), false).len() == 0,
{
    assert((seq![code] + s).drop_first() =~= s);
    let two = seq![0x1Bu8, code] + s;
    assert(two.drop_first() =~= seq![code] + s);
    assert(two[0] == 0x1B);
    assert((seq![code] + s)[0] == code);
    assert(septets_text(two, false) == septets_text(two.drop_first(), true));
}

/// Law: fewer bytes than the septets take are refused.
pub proof fn law_short_data_is_refused(b: Seq<u8>, n: nat)
    ensures
        decoded(b, n) is Err <==> 8 * b.len() < 7 * n,
        decoded(b, n) is Err ==> decoded(b, n) == Err::<Seq<char>, SmsError>(SmsError::PduDecode),
{
}

/// Law: every character of the alphabet is sent under its code, every one of the extension
/// table under its code behind an escape, and no other character is sent.
pub proof fn law_characters_are_sent_under_their_code(code: u8, c: char)
    requires
        code < 128,
        code != ESCAPE,
    ensures
        septet_of(gsm_char(code)) == Some((false, code)),
        ext_char(code) matches Some(e) ==> septet_of(e) == Some((true, code)),
        septet_of(c) is Some ==> exists|s: u8|
            s < 128 && s != 0x1B && (#[trigger] gsm_char(s) == c || ext_char(s) == Some(c)),
{
    assert forall|s: u8| 0 <= s < code && s != ESCAPE implies #[trigger] gsm_char(s) != gsm_char(
        code,
    ) by {
        law_codes_are_told_apart(s, code, c);
    }
    law_codes_are_told_apart(code, code, c);
    lemma_code_found(gsm_char(code), 0, code);
    if let Some(e) = ext_char(code) {
        law_codes_are_told_apart(code, code, e);
    }
    if let Some((extended, s)) = septet_of(c) {
        if extended {
            assert(ext_code(c) == Some(s));
            assert(s < 128 && s != ESCAPE);
            law_codes_are_told_apart(s, s, c);
            assert(gsm_char(s) == gsm_char(s));
        } else {
            lemma_code_of(c, 0);
            assert(gsm_char(s) == c);
        }
    }
}

proof fn lemma_code_of(c: char, from: int)
    requires
        0 <= from,
    ensures
        base_code(c, from) matches Some(s) ==> s < 128 && s != ESCAPE && gsm_char(s) == c,
    decreases 128 - from,
{
    if from < 128 && (from == ESCAPE || gsm_char(from as u8) != c) {
        lemma_code_of(c, from + 1);
    }
}

/// Law: septets are packed without gaps, the low bits first: a septet stands in the byte in
/// which its first bit falls and in the one behind it.
pub proof fn law_septets_are_packed_without_gaps(b: Seq<u8>, s: Seq<u8>, i: int)
    requires
        is_packing(b, s),
        forall|k: int| 0 <= k < s.len() ==> #[trigger] s[k] < 128,
        0 <= i < s.len(),
    ensures
        7 * s.len() <= 8 * b.len() < 7 * s.len() + 8,
        ({
            let k = 7 * i / 8;
            let next = if k + 1 < b.len() {
                b[k + 1] as int
            } else {
                0
            };
            s[i] == (b[k] + 256 * next) / two_to(7 * i % 8) % 128
        }),
{
    let k = 7 * i / 8;
    let shift = 7 * i % 8;
    law_unpack_gives_what_was_packed(b, s);
    assert(unpacked(b, s.len())[i] == s[i]);
    lemma_septet_at(b, i, k, shift);
    lemma2_to64();
    assert(pow2(shift as nat) == two_to(shift));
}

/// Two to the power of a small number.
pub open spec fn two_to(n: int) -> int {
    if n == 0 {
        1
    } else if n == 1 {
        2
    } else if n == 2 {
        4
    } else if n == 3 {
        8
    } else if n == 4 {
        16
    } else if n == 5 {
        32
    } else if n == 6 {
        64
    } else {
        128
    }
}

} // verus!
