//! GSM 7-bit character codec (3GPP TS 23.038).
//!
//! The default alphabet maps 128 septets to characters. Ten more characters,
//! the euro sign among them, take two septets: an escape and a code of the
//! extension table. Septets are packed into bytes without gaps, the first into
//! the low bits.
use crate::sms::SmsError;
use vstd::arithmetic::div_mod::*;
use vstd::arithmetic::power2::*;
use vstd::prelude::*;

verus! {

broadcast use vstd::string::group_string_axioms;

/// The septet that announces a code of the extension table.
pub const ESCAPE: u8 = 0x1B;

// ---------------------------------------------------------------------------
// The tables
// ---------------------------------------------------------------------------

/// The default alphabet.
pub open spec fn gsm_char(s: u8) -> char {
    if s == 0x00 {
        '@'
    } else if s == 0x01 {
        '\u{00A3}'
    } else if s == 0x02 {
        '$'
    } else if s == 0x03 {
        '\u{00A5}'
    } else if s == 0x04 {
        '\u{00E8}'
    } else if s == 0x05 {
        '\u{00E9}'
    } else if s == 0x06 {
        '\u{00F9}'
    } else if s == 0x07 {
        '\u{00EC}'
    } else if s == 0x08 {
        '\u{00F2}'
    } else if s == 0x09 {
        '\u{00C7}'
    } else if s == 0x0B {
        '\u{00D8}'
    } else if s == 0x0C {
        '\u{00F8}'
    } else if s == 0x0E {
        '\u{00C5}'
    } else if s == 0x0F {
        '\u{00E5}'
    } else if s == 0x10 {
        '\u{0394}'
    } else if s == 0x11 {
        '_'
    } else if s == 0x12 {
        '\u{03A6}'
    } else if s == 0x13 {
        '\u{0393}'
    } else if s == 0x14 {
        '\u{039B}'
    } else if s == 0x15 {
        '\u{03A9}'
    } else if s == 0x16 {
        '\u{03A0}'
    } else if s == 0x17 {
        '\u{03A8}'
    } else if s == 0x18 {
        '\u{03A3}'
    } else if s == 0x19 {
        '\u{0398}'
    } else if s == 0x1A {
        '\u{039E}'
    } else if s == 0x1C {
        '\u{00C6}'
    } else if s == 0x1D {
        '\u{00E6}'
    } else if s == 0x1E {
        '\u{00DF}'
    } else if s == 0x1F {
        '\u{00C9}'
    } else if s == 0x24 {
        '\u{00A4}'
    } else if s == 0x40 {
        '\u{00A1}'
    } else if s == 0x5B {
        '\u{00C4}'
    } else if s == 0x5C {
        '\u{00D6}'
    } else if s == 0x5D {
        '\u{00D1}'
    } else if s == 0x5E {
        '\u{00DC}'
    } else if s == 0x5F {
        '\u{00A7}'
    } else if s == 0x60 {
        '\u{00BF}'
    } else if s == 0x7B {
        '\u{00E4}'
    } else if s == 0x7C {
        '\u{00F6}'
    } else if s == 0x7D {
        '\u{00F1}'
    } else if s == 0x7E {
        '\u{00FC}'
    } else if s == 0x7F {
        '\u{00E0}'
    } else {
        s as char
    }
}

/// The default alphabet.
pub fn gsm_to_unicode(s: u8) -> (c: char)
    requires
        s < 128,
    ensures
        c == gsm_char(s),
{
    if s == 0x00 {
        '@'
    } else if s == 0x01 {
        '\u{00A3}'
    } else if s == 0x02 {
        '$'
    } else if s == 0x03 {
        '\u{00A5}'
    } else if s == 0x04 {
        '\u{00E8}'
    } else if s == 0x05 {
        '\u{00E9}'
    } else if s == 0x06 {
        '\u{00F9}'
    } else if s == 0x07 {
        '\u{00EC}'
    } else if s == 0x08 {
        '\u{00F2}'
    } else if s == 0x09 {
        '\u{00C7}'
    } else if s == 0x0B {
        '\u{00D8}'
    } else if s == 0x0C {
        '\u{00F8}'
    } else if s == 0x0E {
        '\u{00C5}'
    } else if s == 0x0F {
        '\u{00E5}'
    } else if s == 0x10 {
        '\u{0394}'
    } else if s == 0x11 {
        '_'
    } else if s == 0x12 {
        '\u{03A6}'
    } else if s == 0x13 {
        '\u{0393}'
    } else if s == 0x14 {
        '\u{039B}'
    } else if s == 0x15 {
        '\u{03A9}'
    } else if s == 0x16 {
        '\u{03A0}'
    } else if s == 0x17 {
        '\u{03A8}'
    } else if s == 0x18 {
        '\u{03A3}'
    } else if s == 0x19 {
        '\u{0398}'
    } else if s == 0x1A {
        '\u{039E}'
    } else if s == 0x1C {
        '\u{00C6}'
    } else if s == 0x1D {
        '\u{00E6}'
    } else if s == 0x1E {
        '\u{00DF}'
    } else if s == 0x1F {
        '\u{00C9}'
    } else if s == 0x24 {
        '\u{00A4}'
    } else if s == 0x40 {
        '\u{00A1}'
    } else if s == 0x5B {
        '\u{00C4}'
    } else if s == 0x5C {
        '\u{00D6}'
    } else if s == 0x5D {
        '\u{00D1}'
    } else if s == 0x5E {
        '\u{00DC}'
    } else if s == 0x5F {
        '\u{00A7}'
    } else if s == 0x60 {
        '\u{00BF}'
    } else if s == 0x7B {
        '\u{00E4}'
    } else if s == 0x7C {
        '\u{00F6}'
    } else if s == 0x7D {
        '\u{00F1}'
    } else if s == 0x7E {
        '\u{00FC}'
    } else if s == 0x7F {
        '\u{00E0}'
    } else {
        s as char
    }
}

/// The extension table.
pub open spec fn ext_char(s: u8) -> Option<char> {
    if s == 0x0A {
        Some('\u{0C}')
    } else if s == 0x14 {
        Some('^')
    } else if s == 0x28 {
        Some('{')
    } else if s == 0x29 {
        Some('}')
    } else if s == 0x2F {
        Some('\\')
    } else if s == 0x3C {
        Some('[')
    } else if s == 0x3D {
        Some('~')
    } else if s == 0x3E {
        Some(']')
    } else if s == 0x40 {
        Some('|')
    } else if s == 0x65 {
        Some('\u{20AC}')
    } else {
        None
    }
}

/// The extension table.
pub fn ext_to_unicode(s: u8) -> (c: Option<char>)
    ensures
        c == ext_char(s),
{
    if s == 0x0A {
        Some('\u{0C}')
    } else if s == 0x14 {
        Some('^')
    } else if s == 0x28 {
        Some('{')
    } else if s == 0x29 {
        Some('}')
    } else if s == 0x2F {
        Some('\\')
    } else if s == 0x3C {
        Some('[')
    } else if s == 0x3D {
        Some('~')
    } else if s == 0x3E {
        Some(']')
    } else if s == 0x40 {
        Some('|')
    } else if s == 0x65 {
        Some('\u{20AC}')
    } else {
        None
    }
}

/// The extension table, from the character to its code.
pub open spec fn ext_code(c: char) -> Option<u8> {
    if c == '\u{0C}' {
        Some(0x0A)
    } else if c == '^' {
        Some(0x14)
    } else if c == '{' {
        Some(0x28)
    } else if c == '}' {
        Some(0x29)
    } else if c == '\\' {
        Some(0x2F)
    } else if c == '[' {
        Some(0x3C)
    } else if c == '~' {
        Some(0x3D)
    } else if c == ']' {
        Some(0x3E)
    } else if c == '|' {
        Some(0x40)
    } else if c == '\u{20AC}' {
        Some(0x65)
    } else {
        None
    }
}

/// The extension table, from the character to its code.
fn unicode_to_ext(c: char) -> (r: Option<u8>)
    ensures
        r == ext_code(c),
{
    if c == '\u{0C}' {
        Some(0x0A)
    } else if c == '^' {
        Some(0x14)
    } else if c == '{' {
        Some(0x28)
    } else if c == '}' {
        Some(0x29)
    } else if c == '\\' {
        Some(0x2F)
    } else if c == '[' {
        Some(0x3C)
    } else if c == '~' {
        Some(0x3D)
    } else if c == ']' {
        Some(0x3E)
    } else if c == '|' {
        Some(0x40)
    } else if c == '\u{20AC}' {
        Some(0x65)
    } else {
        None
    }
}

/// The first septet from `from` on that stands for a character; the escape
/// stands for none.
pub open spec fn base_code(c: char, from: int) -> Option<u8>
    decreases 128 - from,
{
    if !(0 <= from < 128) {
        None
    } else if from != ESCAPE && gsm_char(from as u8) == c {
        Some(from as u8)
    } else {
        base_code(c, from + 1)
    }
}

/// How a character is encoded: whether through the extension table, and the
/// code there.
pub open spec fn septet_of(c: char) -> Option<(bool, u8)> {
    match ext_code(c) {
        Some(code) => Some((true, code)),
        None => match base_code(c, 0) {
            Some(code) => Some((false, code)),
            None => None,
        },
    }
}

/// Convert a character to its GSM-7 septet: whether it stands in the extension
/// table, and its code.
pub fn char_to_septet(c: char) -> (r: Option<(bool, u8)>)
    ensures
        r == septet_of(c),
{
    match unicode_to_ext(c) {
        Some(code) => {
            return Some((true, code));
        },
        None => {},
    }
    let mut septet: u8 = 0;
    while septet < 128
        invariant
            septet <= 128,
            ext_code(c) is None,
            base_code(c, 0) == base_code(c, septet as int),
        decreases 128 - septet,
    {
        if septet != ESCAPE && gsm_to_unicode(septet) == c {
            return Some((false, septet));
        }
        septet += 1;
    }
    None
}

// ---------------------------------------------------------------------------
// Packing
// ---------------------------------------------------------------------------

/// The number whose binary digits are those of the septets, the first lowest.
pub open spec fn septets_value(s: Seq<u8>) -> nat
    decreases s.len(),
{
    if s.len() == 0 {
        0
    } else {
        septets_value(s.drop_last()) + s.last() as nat * pow2((7 * (s.len() - 1)) as nat)
    }
}

/// The number whose binary digits are those of the bytes, the first lowest.
pub open spec fn bytes_value(b: Seq<u8>) -> nat
    decreases b.len(),
{
    if b.len() == 0 {
        0
    } else {
        bytes_value(b.drop_last()) + b.last() as nat * pow2((8 * (b.len() - 1)) as nat)
    }
}

/// Whether bytes are septets without gaps: the fewest bytes that hold all their
/// bits, with the same binary digits.
pub open spec fn is_packing(b: Seq<u8>, s: Seq<u8>) -> bool {
    b.len() == (7 * s.len() + 7) / 8 && bytes_value(b) == septets_value(s)
}

/// The septet at a position of packed bytes.
pub open spec fn septet_at(b: Seq<u8>, i: int) -> u8 {
    ((bytes_value(b) / pow2((7 * i) as nat)) % 128) as u8
}

proof fn lemma_bytes_bound(b: Seq<u8>)
    ensures
        bytes_value(b) < pow2((8 * b.len()) as nat),
    decreases b.len(),
{
    if b.len() == 0 {
        lemma2_to64();
    } else {
        lemma_bytes_bound(b.drop_last());
        let p = pow2((8 * (b.len() - 1)) as nat);
        lemma_pow2_adds((8 * (b.len() - 1)) as nat, 8);
        lemma2_to64();
        assert(b.last() as nat * p <= 255 * p) by (nonlinear_arith)
            requires
                b.last() <= 255,
        ;
        assert(pow2((8 * b.len()) as nat) == p * 256);
    }
}

/// Bytes as what comes before a position and what comes from it on.
proof fn lemma_bytes_split(b: Seq<u8>, k: int)
    requires
        0 <= k <= b.len(),
    ensures
        bytes_value(b) == bytes_value(b.take(k)) + pow2((8 * k) as nat) * bytes_value(b.skip(k)),
    decreases b.len() - k,
{
    if k == b.len() {
        assert(b.take(k) =~= b);
        assert(b.skip(k) =~= Seq::empty());
        assert(pow2((8 * k) as nat) * 0 == 0) by (nonlinear_arith);
    } else {
        let c = b.drop_last();
        lemma_bytes_split(c, k);
        assert(c.take(k) =~= b.take(k));
        assert(c.skip(k) =~= b.skip(k).drop_last());
        let n = (b.len() - 1 - k) as nat;
        lemma_pow2_adds((8 * k) as nat, 8 * n);
        let p = pow2((8 * k) as nat);
        let q = pow2(8 * n);
        let v = bytes_value(c.skip(k));
        let x = b.last() as nat;
        assert(b.skip(k).last() == b.last());
        assert(bytes_value(b.skip(k)) == v + x * q);
        assert(p * (v + x * q) == p * v + x * (p * q)) by (nonlinear_arith);
        assert((8 * (b.len() - 1)) as nat == (8 * k) as nat + 8 * n);
    }
}

/// What stands in two bytes decides a septet.
proof fn lemma_septet_in_two_bytes(x: int, rest: int, d: int, f: int)
    requires
        d > 0,
        d * (128 * f) == 65536,
    ensures
        ((x + 65536 * rest) / d) % 128 == (x / d) % 128,
{
    let j = 128 * (f * rest);
    assert(65536 * rest == j * d) by (nonlinear_arith)
        requires
            d * (128 * f) == 65536,
            j == 128 * (f * rest),
    ;
    lemma_hoist_over_denominator(x, j, d as nat);
    lemma_mod_multiples_vanish(f * rest, x / d, 128);
}

/// The powers of two of a shift within a byte.
proof fn lemma_small_powers()
    ensures
        pow2(0) == 1,
        pow2(1) == 2,
        pow2(2) == 4,
        pow2(3) == 8,
        pow2(4) == 16,
        pow2(5) == 32,
        pow2(6) == 64,
        pow2(7) == 128,
        pow2(8) == 256,
        pow2(16) == 65536,
{
    lemma2_to64();
}

/// The byte at a position, or zero behind the end.
pub open spec fn byte_or_zero(b: Seq<u8>, k: int) -> int {
    if 0 <= k < b.len() {
        b[k] as int
    } else {
        0
    }
}

/// A septet stands in the byte where it starts and the one after it.
pub proof fn lemma_septet_at(b: Seq<u8>, i: int, k: int, shift: int)
    requires
        0 <= i,
        0 <= k < b.len(),
        0 <= shift < 8,
        7 * i == 8 * k + shift,
    ensures
        septet_at(b, i) == ((b[k] + 256 * byte_or_zero(b, k + 1)) / pow2(shift as nat) as int)
            % 128,
{
    lemma_small_powers();
    lemma_bytes_split(b, k);
    lemma_bytes_bound(b.take(k));
    let low = bytes_value(b.take(k)) as int;
    let p = pow2((8 * k) as nat) as int;
    let w = bytes_value(b.skip(k)) as int;
    lemma_pow2_pos((8 * k) as nat);
    lemma_pow2_pos(shift as nat);
    assert(bytes_value(b) as int == p * w + low);
    assert(p * w == w * p) by (nonlinear_arith);
    lemma_fundamental_div_mod_converse(bytes_value(b) as int, p, w, low);
    lemma_pow2_adds((8 * k) as nat, shift as nat);
    lemma_div_denominator(bytes_value(b) as int, p, pow2(shift as nat) as int);
    let t = b.skip(k);
    lemma_bytes_split(t, 1);
    assert(t.take(1).drop_last() =~= Seq::empty());
    assert(bytes_value(Seq::<u8>::empty()) == 0);
    assert(bytes_value(t.take(1)) == t[0]) by {
        assert(t.take(1).last() == t[0]);
        assert(t[0] as nat * pow2(0) == t[0]) by (nonlinear_arith)
            requires
                pow2(0) == 1,
        ;
    }
    let u = t.skip(1);
    let rest: int;
    if u.len() > 0 {
        lemma_bytes_split(u, 1);
        assert(u.take(1).drop_last() =~= Seq::empty());
        assert(bytes_value(u.take(1)) == u[0]) by {
            assert(u.take(1).last() == u[0]);
            assert(u[0] as nat * pow2(0) == u[0]) by (nonlinear_arith)
                requires
                    pow2(0) == 1,
            ;
        }
        rest = bytes_value(u.skip(1)) as int;
        assert(u[0] == b[k + 1]);
    } else {
        rest = 0;
        assert(u =~= Seq::empty());
    }
    let x = b[k] + 256 * byte_or_zero(b, k + 1);
    assert(pow2((8 * 1) as nat) == 256);
    assert(bytes_value(u) == byte_or_zero(b, k + 1) + 256 * rest);
    assert(bytes_value(t) == t[0] + 256 * bytes_value(u)) by {
        assert(pow2((8 * 1) as nat) * bytes_value(u) == 256 * bytes_value(u)) by (nonlinear_arith)
            requires
                pow2((8 * 1) as nat) == 256,
        ;
    }
    let second = byte_or_zero(b, k + 1);
    assert(t[0] == b[k]);
    assert(w == b[k] + 256 * (bytes_value(u) as int));
    assert(bytes_value(u) as int == second + 256 * rest);
    assert(256 * (second + 256 * rest) == 256 * second + 65536 * rest) by (nonlinear_arith);
    assert(w == x + 65536 * rest);
    lemma_pow2_adds(shift as nat, (9 - shift) as nat);
    lemma2_to64();
    let d = pow2(shift as nat) as int;
    let f = pow2((9 - shift) as nat) as int;
    assert(d * (128 * f) == 128 * (d * f)) by (nonlinear_arith);
    lemma_septet_in_two_bytes(x, rest, d, f);
}

/// Two to the power of a shift.
fn power_of_two(shift: u32) -> (r: u32)
    requires
        shift < 8,
    ensures
        r == pow2(shift as nat),
        1 <= r <= 128,
{
    proof {
        lemma_small_powers();
    }
    if shift == 0 {
        1
    } else if shift == 1 {
        2
    } else if shift == 2 {
        4
    } else if shift == 3 {
        8
    } else if shift == 4 {
        16
    } else if shift == 5 {
        32
    } else if shift == 6 {
        64
    } else {
        128
    }
}

/// Packs septets into bytes.
pub fn pack_septets(septets: &[u8]) -> (out: Vec<u8>)
    requires
        forall|i: int| 0 <= i < septets@.len() ==> #[trigger] septets@[i] < 128,
    ensures
        is_packing(out@, septets@),
{
    let ghost s = septets@;
    let mut out: Vec<u8> = Vec::new();
    let mut acc: u32 = 0;
    let mut bits: u32 = 0;
    let mut i: usize = 0;
    proof {
        lemma_small_powers();
        assert(s.take(0) =~= Seq::empty());
    }
    while i < septets.len()
        invariant
            i <= s.len(),
            s == septets@,
            forall|j: int| 0 <= j < s.len() ==> #[trigger] s[j] < 128,
            bits < 8,
            8 * out@.len() + bits == 7 * i,
            acc < pow2(bits as nat),
            septets_value(s.take(i as int)) == bytes_value(out@) + acc as nat * pow2(
                (8 * out@.len()) as nat,
            ),
        decreases s.len() - i,
    {
        let ghost p = pow2((8 * out@.len()) as nat);
        let ghost out0 = out@;
        let ghost acc0 = acc;
        let ghost bits0 = bits;
        let scale: u32 = power_of_two(bits);
        let septet: u32 = septets[i] as u32;
        proof {
            lemma_small_powers();
            let longer = s.take(i + 1);
            assert(longer.drop_last() =~= s.take(i as int));
            assert(longer.last() == s[i as int]);
            lemma_pow2_adds((8 * out@.len()) as nat, bits as nat);
            lemma_pow2_adds(bits as nat, 7);
            assert(septet * scale <= 127 * scale && septet * scale >= 0) by (nonlinear_arith)
                requires
                    septet < 128,
                    scale >= 0,
            ;
            assert(scale <= 128);
        }
        acc = acc + septet * scale;
        bits += 7;
        proof {
            assert(acc < pow2(bits as nat));
            assert(acc as nat * p == acc0 as nat * p + septet as nat * (p * scale as nat))
                by (nonlinear_arith)
                requires
                    acc == acc0 + septet * scale,
            ;
            assert((8 * out@.len()) as nat + bits0 as nat == (7 * i) as nat);
            assert(septets_value(s.take(i + 1)) == bytes_value(out@) + acc as nat * p);
        }
        if bits >= 8 {
            let low: u32 = acc % 256;
            let high: u32 = acc / 256;
            out.push(low as u8);
            proof {
                assert(out@.drop_last() =~= out0);
                lemma_pow2_adds((8 * out0.len()) as nat, 8);
                assert((8 * out@.len()) as nat == (8 * out0.len()) as nat + 8);
                assert(acc as nat * p == low as nat * p + high as nat * (p * 256))
                    by (nonlinear_arith)
                    requires
                        acc == high * 256 + low,
                ;
                lemma_pow2_adds((bits - 8) as nat, 8);
                assert(high < pow2((bits - 8) as nat));
            }
            acc = high;
            bits -= 8;
        }
        i += 1;
    }
    assert(s.take(s.len() as int) =~= s);
    if bits > 0 {
        let ghost out0 = out@;
        proof {
            lemma_small_powers();
            if bits < 7 {
                lemma_pow2_strictly_increases(bits as nat, 7);
            }
        }
        out.push(acc as u8);
        assert(out@.drop_last() =~= out0);
    } else {
        assert(acc == 0);
        assert(0 * pow2((8 * out@.len()) as nat) == 0) by (nonlinear_arith);
    }
    out
}

// ---------------------------------------------------------------------------
// Texts
// ---------------------------------------------------------------------------

/// The septets of a text; the first character that has none is the error.
pub open spec fn text_septets(t: Seq<char>) -> Result<Seq<u8>, SmsError>
    decreases t.len(),
{
    if t.len() == 0 {
        Ok(Seq::empty())
    } else {
        match text_septets(t.drop_last()) {
            Err(e) => Err(e),
            Ok(s) => match septet_of(t.last()) {
                None => Err(SmsError::Gsm7Encode(t.last() as u32)),
                Some((true, code)) => Ok(s.push(ESCAPE).push(code)),
                Some((false, code)) => Ok(s.push(code)),
            },
        }
    }
}

/// The text that septets stand for; `escaped` says whether an escape came before
/// them. An unknown code of the extension table is a space.
pub open spec fn septets_text(s: Seq<u8>, escaped: bool) -> Seq<char>
    decreases s.len(),
{
    if s.len() == 0 {
        Seq::empty()
    } else if escaped {
        seq![
            match ext_char(s[0]) {
                Some(c) => c,
                None => ' ',
            },
        ] + septets_text(s.drop_first(), false)
    } else if s[0] == ESCAPE {
        septets_text(s.drop_first(), true)
    } else {
        seq![gsm_char(s[0])] + septets_text(s.drop_first(), false)
    }
}

/// The first `n` septets of packed bytes.
pub open spec fn unpacked(b: Seq<u8>, n: nat) -> Seq<u8> {
    Seq::new(n, |i: int| septet_at(b, i))
}

/// The text in the first `n` septets of packed bytes; an error where the bytes do not
/// hold them all.
pub open spec fn decoded(b: Seq<u8>, n: nat) -> Result<Seq<char>, SmsError> {
    if b.len() < (7 * n + 7) / 8 {
        Err(SmsError::PduDecode)
    } else {
        Ok(septets_text(unpacked(b, n), false))
    }
}

/// A code of a table is a septet.
proof fn lemma_septet_range(c: char)
    ensures
        septet_of(c) matches Some((ext, code)) ==> code < 128 && (ext ==> ext_char(code) == Some(c))
            && (!ext ==> code != ESCAPE && gsm_char(code) == c),
{
    lemma_base_code(c, 0);
}

proof fn lemma_base_code(c: char, from: int)
    requires
        0 <= from,
    ensures
        base_code(c, from) matches Some(code) ==> code < 128 && code != ESCAPE && gsm_char(code)
            == c,
    decreases 128 - from,
{
    if from < 128 {
        lemma_base_code(c, from + 1);
    }
}

proof fn lemma_septets_range(t: Seq<char>)
    ensures
        text_septets(t) matches Ok(s) ==> forall|i: int|
            0 <= i < s.len() ==> #[trigger] s[i] < 128,
    decreases t.len(),
{
    if t.len() > 0 {
        lemma_septets_range(t.drop_last());
        lemma_septet_range(t.last());
    }
}

/// The septets of a text.
fn to_septets(text: &str) -> (r: Result<Vec<u8>, SmsError>)
    ensures
        match text_septets(text@) {
            Ok(s) => r is Ok && r->Ok_0@ == s,
            Err(e) => r == Err::<Vec<u8>, SmsError>(e),
        },
{
    let mut septets: Vec<u8> = Vec::new();
    let mut failed: Option<u32> = None;
    assert(text@.take(0) =~= Seq::empty());
    for c in it: text.chars()
        invariant
            it.seq() == text@,
            match failed {
                None => text_septets(text@.take(it.index() as int)) == Ok::<Seq<u8>, SmsError>(
                    septets@,
                ),
                Some(code) => text_septets(text@.take(it.index() as int)) == Err::<
                    Seq<u8>,
                    SmsError,
                >(SmsError::Gsm7Encode(code)),
            },
    {
        proof {
            let i = it.index() as int;
            assert(text@.take(i + 1).drop_last() =~= text@.take(i));
            assert(text@.take(i + 1).last() == c);
        }
        if failed.is_none() {
            match char_to_septet(c) {
                Some((is_ext, code)) => {
                    if is_ext {
                        septets.push(ESCAPE);
                    }
                    septets.push(code);
                },
                None => {
                    failed = Some(c as u32);
                },
            }
        }
    }
    assert(text@.take(text@.len() as int) =~= text@);
    match failed {
        None => Ok(septets),
        Some(code) => Err(SmsError::Gsm7Encode(code)),
    }
}

/// Encode a text into packed GSM 7-bit bytes. Characters of the extension table
/// take two septets.
pub fn encode_gsm7(text: &str) -> (r: Result<Vec<u8>, SmsError>)
    ensures
        match text_septets(text@) {
            Ok(s) => r is Ok && is_packing(r->Ok_0@, s),
            Err(e) => r == Err::<Vec<u8>, SmsError>(e),
        },
{
    match to_septets(text) {
        Ok(septets) => {
            proof {
                lemma_septets_range(text@);
            }
            Ok(pack_septets(septets.as_slice()))
        },
        Err(e) => Err(e),
    }
}

/// Decode `num_septets` septets from packed bytes. An escape and its code take
/// two septets and give one character. Truncated data is an error.
pub fn decode_gsm7(data: &[u8], num_septets: usize) -> (r: Result<String, SmsError>)
    ensures
        match decoded(data@, num_septets as nat) {
            Ok(t) => r is Ok && r->Ok_0@ == t,
            Err(e) => r == Err::<String, SmsError>(e),
        },
{
    let ghost all = unpacked(data@, num_septets as nat);
    let mut out = String::new();
    let mut i: usize = 0;
    let mut byte_index: usize = 0;
    let mut bit_shift: u32 = 0;
    let mut pending_ext = false;
    proof {
        assert(all.skip(0) =~= all);
        assert(Seq::<char>::empty() + septets_text(all, false) =~= septets_text(all, false));
    }
    while i < num_septets
        invariant
            i <= num_septets,
            all == unpacked(data@, num_septets as nat),
            bit_shift < 8,
            7 * i == 8 * byte_index + bit_shift,
            (7 * i + 7) / 8 <= data@.len(),
            septets_text(all, false) == out@ + septets_text(all.skip(i as int), pending_ext),
        decreases num_septets - i,
    {
        assert(data@.len() == data.len());
        if byte_index >= data.len() || (bit_shift > 1 && data.len() - byte_index < 2) {
            assert((7 * (i + 1) + 7) / 8 > data@.len());
            assert((7 * num_septets + 7) / 8 >= (7 * (i + 1) + 7) / 8);
            return Err(SmsError::PduDecode);
        }
        assert((7 * (i + 1) + 7) / 8 <= data@.len());
        let b0: u32 = data[byte_index] as u32;
        let b1: u32 = if byte_index + 1 < data.len() {
            data[byte_index + 1] as u32
        } else {
            0
        };
        let septet: u8 = ((b0 + 256 * b1) / power_of_two(bit_shift) % 128) as u8;
        let ghost so_far = out@;
        proof {
            lemma_septet_at(data@, i as int, byte_index as int, bit_shift as int);
            assert(all.skip(i as int)[0] == septet_at(data@, i as int));
            assert(all.skip(i as int).drop_first() =~= all.skip(i + 1));
        }
        if pending_ext {
            pending_ext = false;
            let c = match ext_to_unicode(septet) {
                Some(c) => c,
                None => ' ',
            };
            out.push(c);
            assert(out@ + septets_text(all.skip(i + 1), false) =~= so_far + (seq![c]
                + septets_text(all.skip(i + 1), false)));
        } else if septet == ESCAPE {
            pending_ext = true;
        } else {
            let c = gsm_to_unicode(septet);
            out.push(c);
            assert(out@ + septets_text(all.skip(i + 1), false) =~= so_far + (seq![c]
                + septets_text(all.skip(i + 1), false)));
        }
        i += 1;
        if bit_shift >= 1 {
            bit_shift -= 1;
            byte_index += 1;
        } else {
            bit_shift = 7;
        }
    }
    proof {
        assert(all.skip(num_septets as int) =~= Seq::empty());
        assert(out@ + Seq::<char>::empty() =~= out@);
    }
    Ok(out)
}

/// Count the septets required to encode a text.
pub fn count_gsm7_septets(text: &str) -> (r: Result<usize, SmsError>)
    requires
        2 * text@.len() <= usize::MAX,
    ensures
        match text_septets(text@) {
            Ok(s) => r is Ok && r->Ok_0 == s.len(),
            Err(e) => r == Err::<usize, SmsError>(e),
        },
{
    let mut count: usize = 0;
    let mut failed: Option<u32> = None;
    assert(text@.take(0) =~= Seq::empty());
    for c in it: text.chars()
        invariant
            it.seq() == text@,
            2 * text@.len() <= usize::MAX,
            count <= 2 * it.index(),
            match failed {
                None => text_septets(text@.take(it.index() as int)) matches Ok(s) && s.len()
                    == count,
                Some(code) => text_septets(text@.take(it.index() as int)) == Err::<
                    Seq<u8>,
                    SmsError,
                >(SmsError::Gsm7Encode(code)),
            },
    {
        proof {
            let i = it.index() as int;
            assert(text@.take(i + 1).drop_last() =~= text@.take(i));
            assert(text@.take(i + 1).last() == c);
        }
        if failed.is_none() {
            match char_to_septet(c) {
                Some((is_ext, _code)) => {
                    if is_ext {
                        count += 2;
                    } else {
                        count += 1;
                    }
                },
                None => {
                    failed = Some(c as u32);
                },
            }
        }
    }
    assert(text@.take(text@.len() as int) =~= text@);
    match failed {
        None => Ok(count),
        Some(code) => Err(SmsError::Gsm7Encode(code)),
    }
}

// ---------------------------------------------------------------------------
// Laws
// ---------------------------------------------------------------------------

proof fn lemma_septets_bound(s: Seq<u8>)
    requires
        forall|i: int| 0 <= i < s.len() ==> #[trigger] s[i] < 128,
    ensures
        septets_value(s) < pow2((7 * s.len()) as nat),
    decreases s.len(),
{
    if s.len() == 0 {
        lemma2_to64();
    } else {
        let rest = s.drop_last();
        assert forall|i: int| 0 <= i < rest.len() implies #[trigger] rest[i] < 128 by {
            assert(rest[i] == s[i]);
        }
        lemma_septets_bound(rest);
        let p = pow2((7 * (s.len() - 1)) as nat);
        lemma_pow2_adds((7 * (s.len() - 1)) as nat, 7);
        lemma2_to64();
        assert(s.last() < 128);
        assert(s.last() as nat * p <= 127 * p) by (nonlinear_arith)
            requires
                s.last() < 128,
        ;
        assert(pow2((7 * s.len()) as nat) == p * 128);
    }
}

/// The septet at a position of the packed number.
proof fn lemma_septet_of_value(s: Seq<u8>, i: int)
    requires
        forall|j: int| 0 <= j < s.len() ==> #[trigger] s[j] < 128,
        0 <= i < s.len(),
    ensures
        (septets_value(s) / pow2((7 * i) as nat)) % 128 == s[i],
    decreases s.len(),
{
    let rest = s.drop_last();
    assert forall|j: int| 0 <= j < rest.len() implies #[trigger] rest[j] < 128 by {
        assert(rest[j] == s[j]);
    }
    let last = s.len() - 1;
    let x = s.last() as int;
    let p = pow2((7 * i) as nat) as int;
    lemma_pow2_pos((7 * i) as nat);
    if i == last {
        lemma_septets_bound(rest);
        let low = septets_value(rest) as int;
        assert(septets_value(s) as int == x * p + low);
        lemma_fundamental_div_mod_converse(septets_value(s) as int, p, x, low);
        lemma_small_mod(x as nat, 128);
    } else {
        lemma_septet_of_value(rest, i);
        let n = (last - i - 1) as nat;
        lemma_pow2_adds((7 * i) as nat, 7 * n + 7);
        lemma_pow2_adds(7 * n, 7);
        lemma2_to64();
        let q = pow2(7 * n) as int;
        let v = septets_value(rest) as int;
        assert((7 * last) as nat == (7 * i) as nat + (7 * n + 7));
        let j = 128 * (q * x);
        assert(x * (p * (q * 128)) == j * p) by (nonlinear_arith)
            requires
                j == 128 * (q * x),
        ;
        assert(septets_value(s) as int == v + j * p);
        lemma_hoist_over_denominator(v, j, p as nat);
        lemma_mod_multiples_vanish(q * x, v / p, 128);
    }
}

/// Law: septets that were packed are unpacked as they were.
pub proof fn law_unpack_gives_what_was_packed(b: Seq<u8>, s: Seq<u8>)
    requires
        is_packing(b, s),
        forall|i: int| 0 <= i < s.len() ==> #[trigger] s[i] < 128,
    ensures
        unpacked(b, s.len()) == s,
{
    assert forall|i: int| 0 <= i < s.len() implies #[trigger] unpacked(b, s.len())[i] == s[i] by {
        lemma_septet_of_value(s, i);
    }
    assert(unpacked(b, s.len()) =~= s);
}

proof fn lemma_text_of_septets(t: Seq<char>, u: Seq<u8>)
    requires
        text_septets(t) is Ok,
    ensures
        septets_text(text_septets(t)->Ok_0 + u, false) == t + septets_text(u, false),
    decreases t.len(),
{
    if t.len() == 0 {
        assert(text_septets(t)->Ok_0 + u =~= u);
        assert(t + septets_text(u, false) =~= septets_text(u, false));
    } else {
        let front = t.drop_last();
        let c = t.last();
        let s = text_septets(front)->Ok_0;
        lemma_septet_range(c);
        let (ext, code) = septet_of(c)->0;
        let v = if ext {
            seq![ESCAPE, code] + u
        } else {
            seq![code] + u
        };
        assert(text_septets(t)->Ok_0 + u =~= s + v);
        lemma_text_of_septets(front, v);
        if ext {
            assert(v.drop_first() =~= seq![code] + u);
            assert((seq![code] + u).drop_first() =~= u);
            assert(septets_text(v, false) == septets_text(seq![code] + u, true));
        } else {
            assert(v.drop_first() =~= u);
        }
        assert(septets_text(v, false) =~= seq![c] + septets_text(u, false));
        assert(front + (seq![c] + septets_text(u, false)) =~= t + septets_text(u, false));
    }
}

/// Law: a text that was encoded is decoded as it was, with as many septets as the
/// text counts.
pub proof fn law_gsm7_round_trip(t: Seq<char>, b: Seq<u8>)
    requires
        text_septets(t) is Ok,
        is_packing(b, text_septets(t)->Ok_0),
    ensures
        decoded(b, text_septets(t)->Ok_0.len()) == Ok::<Seq<char>, SmsError>(t),
{
    let s = text_septets(t)->Ok_0;
    lemma_septets_range(t);
    law_unpack_gives_what_was_packed(b, s);
    lemma_text_of_septets(t, Seq::empty());
    assert(s + Seq::<u8>::empty() =~= s);
    assert(t + Seq::<char>::empty() =~= t);
}

/// Law: septets are packed in one way only.
pub proof fn law_packing_is_unique(a: Seq<u8>, b: Seq<u8>, s: Seq<u8>)
    requires
        is_packing(a, s),
        is_packing(b, s),
    ensures
        a == b,
{
    lemma_bytes_value_injective(a, b);
}

proof fn lemma_bytes_value_injective(a: Seq<u8>, b: Seq<u8>)
    requires
        a.len() == b.len(),
        bytes_value(a) == bytes_value(b),
    ensures
        a == b,
    decreases a.len(),
{
    if a.len() > 0 {
        let p = pow2((8 * (a.len() - 1)) as nat) as int;
        lemma_pow2_pos((8 * (a.len() - 1)) as nat);
        lemma_bytes_bound(a.drop_last());
        lemma_bytes_bound(b.drop_last());
        let v = bytes_value(a) as int;
        lemma_fundamental_div_mod_converse(v, p, a.last() as int, bytes_value(a.drop_last()) as int);
        lemma_fundamental_div_mod_converse(v, p, b.last() as int, bytes_value(b.drop_last()) as int);
        lemma_bytes_value_injective(a.drop_last(), b.drop_last());
        assert(a =~= a.drop_last().push(a.last()));
        assert(b =~= b.drop_last().push(b.last()));
    } else {
        assert(a =~= b);
    }
}

} // verus!
