//! What reading and writing numbers and texts promises.
use crate::text::{
    all_digits, decimal, decimal_number, digits_value, first_byte, has_word, is_digit, is_white,
    lemma_decimal_digits, lemma_first_word, lower, padded, trimmed, trimmed_end,
    trimmed_start, two_digits,
};
use vstd::prelude::*;

verus! {

// ---------------------------------------------------------------------------
// Numbers
// ---------------------------------------------------------------------------

/// Law: a number is read back from its decimal digits, and has no leading zero.
pub proof fn law_decimal_reads_back(n: nat)
    ensures
        all_digits(decimal(n)),
        decimal(n).len() >= 1,
        digits_value(decimal(n)) == n,
        decimal_number(decimal(n)) == Some(n),
        n > 0 ==> decimal(n)[0] != 0x30,
    decreases n,
{
    lemma_decimal_digits(n);
    if n >= 10 {
        law_decimal_reads_back(n / 10);
        assert(decimal(n).drop_last() =~= decimal(n / 10));
        assert(decimal(n)[0] == decimal(n / 10)[0]);
    } else {
        assert(decimal(n).drop_last() =~= Seq::empty());
        assert(digits_value(Seq::<u8>::empty()) == 0);
    }
    assert(decimal(n)[0] != 0x2B);
}

/// Law: leading zeros change no number.
pub proof fn law_leading_zeros_do_not_count(zeros: nat, s: Seq<u8>)
    ensures
        digits_value(Seq::new(zeros, |i: int| 0x30u8) + s) == digits_value(s),
    decreases s.len(), zeros,
{
    let front = Seq::new(zeros, |i: int| 0x30u8);
    let all = front + s;
    if s.len() > 0 {
        assert(all.drop_last() =~= front + s.drop_last());
        law_leading_zeros_do_not_count(zeros, s.drop_last());
    } else if zeros > 0 {
        let fewer = Seq::new((zeros - 1) as nat, |i: int| 0x30u8);
        assert(all.drop_last() =~= fewer + s);
        law_leading_zeros_do_not_count((zeros - 1) as nat, s);
    } else {
        assert(all =~= s);
    }
}

/// Law: a padded number is at least as long as its width, reads back as the number, and is
/// no longer than it has to be.
pub proof fn law_padding_keeps_the_number(n: nat, width: nat)
    ensures
        padded(n, width).len() >= width,
        padded(n, width).len() == width || padded(n, width) == decimal(n),
        all_digits(padded(n, width)),
        digits_value(padded(n, width)) == n,
        two_digits(n).len() >= 2,
        two_digits(n).len() == 2 || two_digits(n) == decimal(n),
        all_digits(two_digits(n)),
        digits_value(two_digits(n)) == n,
{
    law_decimal_reads_back(n);
    let digits = decimal(n);
    if digits.len() < width {
        law_leading_zeros_do_not_count((width - digits.len()) as nat, digits);
    }
    law_leading_zeros_do_not_count(1, digits);
    assert(seq![0x30u8] =~= Seq::new(1, |i: int| 0x30u8));
    if n < 10 {
        assert(digits.len() == 1);
    } else {
        lemma_decimal_digits(n / 10);
    }
}

/// Law: two digits stand for ten times the first and the second, and three for a hundred
/// times the first and so on.
pub proof fn law_digits_count_for_their_place(s: Seq<u8>)
    requires
        all_digits(s),
    ensures
        s.len() == 1 ==> digits_value(s) == s[0] - 0x30,
        s.len() == 2 ==> digits_value(s) == 10 * (s[0] - 0x30) + (s[1] - 0x30),
        s.len() == 3 ==> digits_value(s) == 100 * (s[0] - 0x30) + 10 * (s[1] - 0x30) + (s[2]
            - 0x30),
{
    reveal_with_fuel(digits_value, 4);
    if 1 <= s.len() <= 3 {
        assert(is_digit(s[0]));
        if s.len() >= 2 {
            assert(is_digit(s[1]));
        }
        if s.len() >= 3 {
            assert(is_digit(s[2]));
        }
    }
}

// ---------------------------------------------------------------------------
// Texts
// ---------------------------------------------------------------------------

/// Law: white space around a text is taken away, all of it, and nothing else is.
pub proof fn law_trimming_takes_the_white_space_around(
    front: Seq<char>,
    s: Seq<char>,
    back: Seq<char>,
)
    requires
        forall|i: int| 0 <= i < front.len() ==> is_white(#[trigger] front[i]),
        forall|i: int| 0 <= i < back.len() ==> is_white(#[trigger] back[i]),
        s.len() > 0 ==> !is_white(s[0]) && !is_white(s.last()),
    ensures
        trimmed(front + s + back) == s,
    decreases front.len(), back.len(),
{
    let all = front + s + back;
    if front.len() > 0 {
        assert(all[0] == front[0]);
        assert(all.drop_first() =~= front.drop_first() + s + back);
        law_trimming_takes_the_white_space_around(front.drop_first(), s, back);
    } else if s.len() == 0 {
        assert(all =~= back);
        if back.len() > 0 {
            assert(all[0] == back[0]);
            assert(all.drop_first() =~= front + s + back.drop_first());
            law_trimming_takes_the_white_space_around(front, s, back.drop_first());
        } else {
            assert(all =~= s);
        }
    } else {
        assert(all[0] == s[0]);
        assert(trimmed_start(all) == all);
        if back.len() > 0 {
            assert(all.last() == back.last());
            assert(all.drop_last() =~= front + s + back.drop_last());
            law_trimming_takes_the_white_space_around(front, s, back.drop_last());
            assert(trimmed_start(all.drop_last()) == all.drop_last()) by {
                assert(all.drop_last()[0] == s[0]);
            }
            assert(trimmed_end(all) == trimmed_end(all.drop_last()));
        } else {
            assert(all =~= s);
            assert(trimmed_end(all) == all);
        }
    }
}

/// Law: spaces, tabs and line ends are white space; letters, digits and other visible
/// ASCII characters are not.
pub proof fn law_visible_ascii_is_not_white(c: char)
    ensures
        c == ' ' || c == '\t' || c == '\n' || c == '\r' ==> is_white(c),
        0x21 <= c as u32 <= 0x7E ==> !is_white(c),
{
}

/// Law: the first position of a byte is the one with none before it.
pub proof fn law_first_byte_is_the_first(d: Seq<u8>, b: u8)
    ensures
        match first_byte(d, b) {
            Some(p) => 0 <= p < d.len() && d[p] == b && forall|i: int|
                0 <= i < p ==> #[trigger] d[i] != b,
            None => forall|i: int| 0 <= i < d.len() ==> #[trigger] d[i] != b,
        },
{
    lemma_first_word(d, seq![b], 0);
    assert forall|i: int| 0 <= i < d.len() implies (#[trigger] d[i] == b) == has_word(
        d,
        i,
        seq![b],
    ) by {
        assert(d.subrange(i, i + 1) =~= seq![d[i]]);
        assert(seq![d[i]][0] == d[i] && seq![b][0] == b);
        if d[i] == b {
            assert(d.subrange(i, i + 1) == seq![b]);
        }
    }
    if let Some(p) = first_byte(d, b) {
        assert forall|i: int| 0 <= i < p implies #[trigger] d[i] != b by {
            assert(!has_word(d, i, seq![b]));
        }
    } else {
        assert forall|i: int| 0 <= i < d.len() implies #[trigger] d[i] != b by {
            assert(!has_word(d, i, seq![b]));
        }
    }
}

/// Law: a position with the byte and none before it is found.
pub proof fn law_first_byte_is_found(d: Seq<u8>, b: u8, p: int)
    requires
        0 <= p < d.len(),
        d[p] == b,
        forall|i: int| 0 <= i < p ==> #[trigger] d[i] != b,
    ensures
        first_byte(d, b) == Some(p),
{
    law_first_byte_is_the_first(d, b);
}

/// Whether two bytes are the same ASCII letter or the same byte.
pub open spec fn same_letter(a: u8, b: u8) -> bool {
    a == b || (0x41 <= a <= 0x5A && b == a + 32) || (0x41 <= b <= 0x5A && a == b + 32)
}

/// Whether two texts are the same but for the case of ASCII letters.
pub open spec fn same_but_for_case(a: Seq<u8>, b: Seq<u8>) -> bool {
    a.len() == b.len() && forall|i: int| 0 <= i < a.len() ==> same_letter(#[trigger] a[i], b[i])
}

/// Law: making letters small is blind to their case and to nothing else.
pub proof fn law_only_case_is_ignored(a: Seq<u8>, b: Seq<u8>)
    ensures
        lower(a) == lower(b) <==> same_but_for_case(a, b),
{
    if same_but_for_case(a, b) {
        assert forall|i: int| 0 <= i < a.len() implies lower(a)[i] == lower(b)[i] by {
            assert(same_letter(a[i], b[i]));
        }
        assert(lower(a) =~= lower(b));
    }
    if lower(a) == lower(b) {
        assert(lower(a).len() == a.len() && lower(b).len() == b.len());
        assert forall|i: int| 0 <= i < a.len() implies same_letter(#[trigger] a[i], b[i]) by {
            assert(lower(a)[i] == lower(b)[i]);
        }
    }
}

} // verus!
