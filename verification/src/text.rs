//! Text helpers shared by the protocol modules.
use vstd::prelude::*;
use vstd::utf8::*;

verus! {

broadcast use vstd::string::group_string_axioms;

/// `String::push`: appends one character to the end of the string.
pub assume_specification[ std::string::String::push ](s: &mut std::string::String, c: char)
    ensures
        final(s)@ == old(s)@.push(c),
;

/// `char::from_u32`: the character with this code point, or `None` where the
/// number is no Unicode scalar value.
pub assume_specification[ char::from_u32 ](code: u32) -> (c: Option<char>)
    ensures
        c == (if is_scalar(code) {
            Some(code as char)
        } else {
            None::<char>
        }),
;

/// `core::str::from_utf8`: the text that the bytes encode, or `None` where the
/// bytes are not well-formed UTF-8.
#[verifier::external_body]
pub(crate) fn utf8_text(bytes: &[u8]) -> (r: Option<&str>)
    ensures
        match r {
            Some(s) => valid_utf8(bytes@) && encode_utf8(s@) == bytes@,
            None => !valid_utf8(bytes@),
        },
{
    core::str::from_utf8(bytes).ok()
}

/// UTF-8 turns a concatenation of texts into the concatenation of their bytes.
pub proof fn lemma_encode_concat(a: Seq<char>, b: Seq<char>)
    ensures
        encode_utf8(a + b) == encode_utf8(a) + encode_utf8(b),
    decreases a.len(),
{
    if a.len() == 0 {
        assert(a + b =~= b);
    } else {
        assert((a + b).drop_first() =~= a.drop_first() + b);
        lemma_encode_concat(a.drop_first(), b);
    }
}

/// UTF-8 tells different texts apart.
pub proof fn lemma_encode_injective(a: Seq<char>, b: Seq<char>)
    requires
        encode_utf8(a) == encode_utf8(b),
    ensures
        a == b,
{
    encode_utf8_decode_utf8(a);
    encode_utf8_decode_utf8(b);
}

/// Whether two byte strings hold the same bytes.
pub fn same_bytes(a: &[u8], b: &[u8]) -> (r: bool)
    ensures
        r == (a@ == b@),
{
    if a.len() != b.len() {
        return false;
    }
    let mut i: usize = 0;
    while i < a.len()
        invariant
            i <= a.len(),
            a.len() == b.len(),
            forall|j: int| 0 <= j < i ==> a@[j] == b@[j],
        decreases a.len() - i,
    {
        if a[i] != b[i] {
            return false;
        }
        i += 1;
    }
    assert(a@ =~= b@);
    true
}

/// Whether two texts are the same.
pub fn same_text(a: &str, b: &str) -> (r: bool)
    ensures
        r == (a@ == b@),
{
    let r = same_bytes(a.as_bytes(), b.as_bytes());
    proof {
        if r {
            lemma_encode_injective(a@, b@);
        }
    }
    r
}

/// The part `[from, to)` of a byte string.
pub fn byte_range(s: &[u8], from: usize, to: usize) -> (r: &[u8])
    requires
        from <= to <= s.len(),
    ensures
        r@ == s@.subrange(from as int, to as int),
{
    vstd::slice::slice_subrange(s, from, to)
}

/// The bytes of a slice as a vector of their own.
pub fn copy_bytes(s: &[u8]) -> (v: Vec<u8>)
    ensures
        v@ == s@,
{
    vstd::slice::slice_to_vec(s)
}

/// The character of each byte of an ASCII text.
pub open spec fn ascii(bytes: Seq<u8>) -> Seq<char> {
    Seq::new(bytes.len(), |i: int| bytes[i] as char)
}

/// An ASCII text is encoded as the bytes of its characters.
pub proof fn lemma_encode_ascii(bytes: Seq<u8>)
    requires
        forall|i: int| 0 <= i < bytes.len() ==> bytes[i] < 0x80,
    ensures
        encode_utf8(ascii(bytes)) == bytes,
{
    let t = ascii(bytes);
    assert(is_ascii_chars(t));
    is_ascii_chars_encode_utf8(t);
    assert forall|i: int| 0 <= i < bytes.len() implies encode_utf8(t)[i] == bytes[i] by {
        assert(t[i] as u8 == encode_utf8(t)[i]);
    }
    assert(encode_utf8(t) =~= bytes);
}

/// An ASCII decimal digit.
pub open spec fn is_digit(b: u8) -> bool {
    0x30 <= b <= 0x39
}

/// The byte at a position, where the text reaches that far.
pub open spec fn byte_at(d: Seq<u8>, p: int) -> Option<u8> {
    if 0 <= p < d.len() {
        Some(d[p])
    } else {
        None
    }
}

/// Whether the text continues with `word` at a position.
pub open spec fn has_word(d: Seq<u8>, p: int, word: Seq<u8>) -> bool {
    0 <= p && p + word.len() <= d.len() && d.subrange(p, p + word.len()) == word
}

/// The number that decimal digits stand for.
pub open spec fn digits_value(s: Seq<u8>) -> nat
    decreases s.len(),
{
    if s.len() == 0 {
        0
    } else {
        digits_value(s.drop_last()) * 10 + (s.last() - 0x30) as nat
    }
}

/// The decimal digits of a number, as ASCII bytes, the most significant first.
pub open spec fn decimal(n: nat) -> Seq<u8>
    decreases n,
{
    if n < 10 {
        seq![(0x30 + n) as u8]
    } else {
        decimal(n / 10).push((0x30 + n % 10) as u8)
    }
}

/// Decimal digits are ASCII digits, and there is at least one.
pub proof fn lemma_decimal_digits(n: nat)
    ensures
        decimal(n).len() >= 1,
        forall|i: int| 0 <= i < decimal(n).len() ==> 0x30 <= #[trigger] decimal(n)[i] <= 0x39,
    decreases n,
{
    if n >= 10 {
        lemma_decimal_digits(n / 10);
    }
}

/// Writes the decimal digits of a number.
pub fn decimal_bytes(n: u64) -> (v: Vec<u8>)
    ensures
        v@ == decimal(n as nat),
    decreases n,
{
    if n < 10 {
        let mut v: Vec<u8> = Vec::new();
        v.push(0x30 + n as u8);
        assert(v@ =~= decimal(n as nat));
        v
    } else {
        let mut v = decimal_bytes(n / 10);
        v.push(0x30 + (n % 10) as u8);
        v
    }
}

/// Appends the decimal digits of a number to a text.
pub fn push_decimal(out: &mut String, n: u64)
    ensures
        final(out)@ == old(out)@ + ascii(decimal(n as nat)),
{
    let v = decimal_bytes(n);
    proof {
        lemma_decimal_digits(n as nat);
    }
    let ghost before = out@;
    let mut i: usize = 0;
    while i < v.len()
        invariant
            i <= v.len(),
            v@ == decimal(n as nat),
            forall|j: int| 0 <= j < v@.len() ==> 0x30 <= #[trigger] v@[j] <= 0x39,
            out@ == before + ascii(v@).take(i as int),
        decreases v.len() - i,
    {
        out.push(v[i] as char);
        i += 1;
        assert(ascii(v@).take(i as int) =~= ascii(v@).take(i - 1).push(v@[i - 1] as char));
    }
    assert(ascii(v@).take(v@.len() as int) =~= ascii(v@));
}

/// A number with at least two digits, as clocks show it.
pub open spec fn two_digits(n: nat) -> Seq<u8> {
    if n < 10 {
        seq![0x30u8] + decimal(n)
    } else {
        decimal(n)
    }
}

/// Appends a number with at least two digits to a text.
pub fn push_two_digits(out: &mut String, n: u64)
    ensures
        final(out)@ == old(out)@ + ascii(two_digits(n as nat)),
{
    let ghost before = out@;
    if n < 10 {
        out.push('0');
    }
    push_decimal(out, n);
    assert(out@ =~= before + ascii(two_digits(n as nat)));
}

/// A number with leading zeros up to a width.
pub open spec fn padded(n: nat, width: nat) -> Seq<u8> {
    let digits = decimal(n);
    if digits.len() < width {
        Seq::new((width - digits.len()) as nat, |i: int| 0x30u8) + digits
    } else {
        digits
    }
}

/// Appends a number with leading zeros up to a width to a text.
pub fn push_padded(out: &mut String, n: u64, width: usize)
    ensures
        final(out)@ == old(out)@ + ascii(padded(n as nat, width as nat)),
{
    let digits: usize = decimal_bytes(n).len();
    let ghost before = out@;
    let mut zeros: usize = 0;
    let missing: usize = if digits < width {
        width - digits
    } else {
        0
    };
    while zeros < missing
        invariant
            zeros <= missing,
            out@ == before + Seq::new(zeros as nat, |i: int| '0'),
        decreases missing - zeros,
    {
        out.push('0');
        zeros += 1;
        assert(out@ =~= before + Seq::new(zeros as nat, |i: int| '0'));
    }
    push_decimal(out, n);
    assert(out@ =~= before + ascii(padded(n as nat, width as nat)));
}

/// The text that bytes encode, or another text where they encode none.
pub open spec fn text_or(bytes: Seq<u8>, fallback: Seq<char>) -> Seq<char> {
    if valid_utf8(bytes) {
        decode_utf8(bytes)
    } else {
        fallback
    }
}

/// The text that bytes encode, or another text where they encode none.
pub fn read_text_or<'a>(bytes: &'a [u8], fallback: &'a str) -> (r: &'a str)
    ensures
        r@ == text_or(bytes@, fallback@),
{
    match utf8_text(bytes) {
        Some(s) => {
            proof {
                encode_utf8_decode_utf8(s@);
            }
            s
        },
        None => fallback,
    }
}

// ---------------------------------------------------------------------------
// Searching
// ---------------------------------------------------------------------------

/// The first position from `from` on at which `word` stands.
pub open spec fn first_word(d: Seq<u8>, word: Seq<u8>, from: int) -> Option<int>
    decreases d.len() - from,
{
    if from < 0 || from + word.len() > d.len() || d.len() == from {
        None
    } else if has_word(d, from, word) {
        Some(from)
    } else {
        first_word(d, word, from + 1)
    }
}

/// The first position is the only one that is found, and nothing stands before
/// it.
pub proof fn lemma_first_word(d: Seq<u8>, word: Seq<u8>, from: int)
    requires
        0 <= from,
        word.len() > 0,
    ensures
        match first_word(d, word, from) {
            Some(p) => from <= p && has_word(d, p, word) && forall|q: int|
                from <= q < p ==> !#[trigger] has_word(d, q, word),
            None => forall|q: int| from <= q ==> !#[trigger] has_word(d, q, word),
        },
    decreases d.len() - from,
{
    if from + word.len() <= d.len() && !has_word(d, from, word) {
        lemma_first_word(d, word, from + 1);
    }
}

/// A position with the word and none before it is the first.
pub proof fn lemma_first_word_is(d: Seq<u8>, word: Seq<u8>, from: int, p: int)
    requires
        0 <= from <= p,
        word.len() > 0,
        has_word(d, p, word),
        forall|q: int| from <= q < p ==> !#[trigger] has_word(d, q, word),
    ensures
        first_word(d, word, from) == Some(p),
{
    lemma_first_word(d, word, from);
}

/// Finds the first position from `from` on at which `word` stands.
pub fn find_word(d: &[u8], word: &[u8], from: usize) -> (r: Option<usize>)
    requires
        word@.len() > 0,
        from <= d@.len(),
    ensures
        match first_word(d@, word@, from as int) {
            Some(p) => r is Some && r->0 == p,
            None => r is None,
        },
        r matches Some(p) ==> from <= p && p + word@.len() <= d@.len(),
{
    let mut i: usize = from;
    while i < d.len() && word.len() <= d.len() - i
        invariant
            from <= i <= d@.len(),
            word@.len() > 0,
            first_word(d@, word@, from as int) == first_word(d@, word@, i as int),
        decreases d@.len() - i,
    {
        if same_bytes(byte_range(d, i, i + word.len()), word) {
            return Some(i);
        }
        i += 1;
    }
    None
}

/// The first position of a byte.
pub open spec fn first_byte(d: Seq<u8>, b: u8) -> Option<int> {
    first_word(d, seq![b], 0)
}

/// Finds the first position of a byte.
pub fn find_byte(d: &[u8], b: u8) -> (r: Option<usize>)
    ensures
        match first_byte(d@, b) {
            Some(p) => r is Some && r->0 == p,
            None => r is None,
        },
        r matches Some(p) ==> p < d@.len() && d@[p as int] == b,
{
    let word: [u8; 1] = [b];
    assert(word@ =~= seq![b]);
    let r = find_word(d, word.as_slice(), 0);
    proof {
        lemma_first_word(d@, seq![b], 0);
        if let Some(p) = r {
            assert(d@.subrange(p as int, p + 1)[0] == b);
        }
    }
    r
}

// ---------------------------------------------------------------------------
// White space
// ---------------------------------------------------------------------------

/// A character with the Unicode property `White_Space`.
pub open spec fn is_white(c: char) -> bool {
    let n = c as u32;
    ||| 0x09 <= n <= 0x0D
    ||| n == 0x20
    ||| n == 0x85
    ||| n == 0xA0
    ||| n == 0x1680
    ||| 0x2000 <= n <= 0x200A
    ||| n == 0x2028
    ||| n == 0x2029
    ||| n == 0x202F
    ||| n == 0x205F
    ||| n == 0x3000
}

/// Whether a character is white space.
pub fn white(c: char) -> (r: bool)
    ensures
        r == is_white(c),
{
    let n: u32 = c as u32;
    (0x09 <= n && n <= 0x0D) || n == 0x20 || n == 0x85 || n == 0xA0 || n == 0x1680 || (0x2000 <= n
        && n <= 0x200A) || n == 0x2028 || n == 0x2029 || n == 0x202F || n == 0x205F || n == 0x3000
}

/// A text without the white space at its start.
pub open spec fn trimmed_start(s: Seq<char>) -> Seq<char>
    decreases s.len(),
{
    if s.len() > 0 && is_white(s[0]) {
        trimmed_start(s.drop_first())
    } else {
        s
    }
}

/// A text without the white space at its end.
pub open spec fn trimmed_end(s: Seq<char>) -> Seq<char>
    decreases s.len(),
{
    if s.len() > 0 && is_white(s.last()) {
        trimmed_end(s.drop_last())
    } else {
        s
    }
}

/// A text without the white space around it.
pub open spec fn trimmed(s: Seq<char>) -> Seq<char> {
    trimmed_end(trimmed_start(s))
}

/// The text without the white space around it.
pub fn trim(s: &str) -> (r: &str)
    ensures
        r@ == trimmed(s@),
{
    let n: usize = s.unicode_len();
    let mut i: usize = 0;
    assert(s@.skip(0) =~= s@);
    while i < n && white(s.get_char(i))
        invariant
            i <= n,
            n == s@.len(),
            trimmed_start(s@) == trimmed_start(s@.skip(i as int)),
        decreases n - i,
    {
        assert(s@.skip(i as int).drop_first() =~= s@.skip(i + 1));
        i += 1;
    }
    assert(trimmed_start(s@) == s@.skip(i as int));
    let mut j: usize = n;
    assert(s@.subrange(i as int, n as int) =~= s@.skip(i as int));
    while i < j && white(s.get_char(j - 1))
        invariant
            i <= j <= n,
            n == s@.len(),
            trimmed_end(s@.skip(i as int)) == trimmed_end(s@.subrange(i as int, j as int)),
        decreases j,
    {
        assert(s@.subrange(i as int, j as int).drop_last() =~= s@.subrange(i as int, j - 1));
        j -= 1;
    }
    s.substring_char(i, j)
}

// ---------------------------------------------------------------------------
// Letter case
// ---------------------------------------------------------------------------

/// A byte with ASCII capitals made small.
pub open spec fn lower_byte(b: u8) -> u8 {
    if 0x41 <= b <= 0x5A {
        (b + 32) as u8
    } else {
        b
    }
}

/// Bytes with ASCII capitals made small.
pub open spec fn lower(s: Seq<u8>) -> Seq<u8> {
    Seq::new(s.len(), |i: int| lower_byte(s[i]))
}

/// The byte with an ASCII capital made small.
pub fn to_lower(b: u8) -> (r: u8)
    ensures
        r == lower_byte(b),
{
    if 0x41 <= b && b <= 0x5A {
        b + 32
    } else {
        b
    }
}

/// Whether two byte strings differ at most in the case of ASCII letters.
pub fn same_ignoring_case(a: &[u8], b: &[u8]) -> (r: bool)
    ensures
        r == (lower(a@) == lower(b@)),
{
    if a.len() != b.len() {
        assert(lower(a@).len() != lower(b@).len());
        return false;
    }
    let mut i: usize = 0;
    while i < a.len()
        invariant
            i <= a@.len(),
            a@.len() == b@.len(),
            forall|j: int| 0 <= j < i ==> lower_byte(#[trigger] a@[j]) == lower_byte(b@[j]),
        decreases a@.len() - i,
    {
        if to_lower(a[i]) != to_lower(b[i]) {
            assert(lower(a@)[i as int] != lower(b@)[i as int]);
            return false;
        }
        i += 1;
    }
    assert(lower(a@) =~= lower(b@));
    true
}

// ---------------------------------------------------------------------------
// Reading numbers
// ---------------------------------------------------------------------------

/// Whether a text consists of decimal digits.
pub open spec fn all_digits(s: Seq<u8>) -> bool {
    forall|i: int| 0 <= i < s.len() ==> is_digit(#[trigger] s[i])
}

/// A number text without its optional plus sign.
pub open spec fn unsigned_part(s: Seq<u8>) -> Seq<u8> {
    if s.len() > 0 && s[0] == 0x2B {
        s.drop_first()
    } else {
        s
    }
}

/// The number that a text stands for: decimal digits, at least one, with an
/// optional plus sign.
pub open spec fn decimal_number(s: Seq<u8>) -> Option<nat> {
    let t = unsigned_part(s);
    if t.len() > 0 && all_digits(t) {
        Some(digits_value(t))
    } else {
        None
    }
}

/// Reads a number that is at most `max`.
pub fn read_decimal(s: &[u8], max: u64) -> (r: Option<u64>)
    ensures
        match decimal_number(s@) {
            Some(n) => if n <= max {
                r is Some && r->0 == n
            } else {
                r is None
            },
            None => r is None,
        },
{
    let start: usize = if s.len() > 0 && s[0] == 0x2B {
        1
    } else {
        0
    };
    let ghost t = unsigned_part(s@);
    if start == s.len() {
        return None;
    }
    let mut value: u64 = 0;
    let mut over = false;
    let mut i: usize = start;
    assert(t.take(0) =~= Seq::empty());
    while i < s.len()
        invariant
            start <= i <= s@.len(),
            t == unsigned_part(s@),
            t.len() == s@.len() - start,
            forall|j: int| 0 <= j < t.len() ==> #[trigger] t[j] == s@[j + start],
            forall|j: int| 0 <= j < i - start ==> is_digit(#[trigger] t[j]),
            !over ==> value == digits_value(t.take(i - start)),
            over ==> digits_value(t.take(i - start)) > u64::MAX,
        decreases s@.len() - i,
    {
        let b = s[i];
        assert(t[i - start] == b);
        if b < 0x30 || b > 0x39 {
            return None;
        }
        proof {
            let longer = t.take(i - start + 1);
            assert(longer.drop_last() =~= t.take(i - start));
            assert(longer.last() == b);
        }
        match value.checked_mul(10) {
            Some(m) => match m.checked_add((b - 0x30) as u64) {
                Some(m) => {
                    value = m;
                },
                None => {
                    over = true;
                },
            },
            None => {
                over = true;
            },
        }
        i += 1;
    }
    assert(t.take(t.len() as int) =~= t);
    if over || value > max {
        None
    } else {
        Some(value)
    }
}

} // verus!
