//! What the boot command line promises.
use crate::kconfig::{first_equals, number, words, Config};
use crate::text::{ascii, decimal, is_white, lemma_encode_ascii};
use crate::text_laws::law_decimal_reads_back;
use vstd::prelude::*;

verus! {

/// A key and a value joined by an equals sign.
pub open spec fn pair(key: Seq<char>, value: Seq<char>) -> Seq<char> {
    key + seq!['='] + value
}

proof fn lemma_first_equals(key: Seq<char>, value: Seq<char>, from: int)
    requires
        0 <= from <= key.len(),
        forall|i: int| 0 <= i < key.len() ==> key[i] != '=',
    ensures
        first_equals(pair(key, value), from) == Some(key.len() as int),
    decreases key.len() - from,
{
    if from < key.len() {
        assert(pair(key, value)[from] == key[from]);
        lemma_first_equals(key, value, from + 1);
    }
}

/// Law: a pair is taken apart at its first equals sign: an equals sign in the value belongs to
/// the value.
pub proof fn law_pairs_are_split_at_the_first_equals_sign(
    c: Config,
    key: Seq<char>,
    value: Seq<char>,
)
    requires
        forall|i: int| 0 <= i < key.len() ==> key[i] != '=',
    ensures
        c.with_word(pair(key, value)) == c.with_pair(key, value),
{
    lemma_first_equals(key, value, 0);
    assert(pair(key, value).take(key.len() as int) =~= key);
    assert(pair(key, value).skip(key.len() as int + 1) =~= value);
}

/// The decimal digits of a number as characters.
pub open spec fn digits_of(n: nat) -> Seq<char> {
    ascii(decimal(n))
}

proof fn lemma_number(n: nat)
    ensures
        number(digits_of(n)) == if n <= u32::MAX {
            Some(n as u32)
        } else {
            None::<u32>
        },
{
    law_decimal_reads_back(n);
    lemma_encode_ascii(decimal(n));
}

proof fn lemma_keys()
    ensures
        forall|i: int| 0 <= i < "panic"@.len() ==> "panic"@[i] != '=',
        forall|i: int| 0 <= i < "verbose"@.len() ==> "verbose"@[i] != '=',
        forall|i: int| 0 <= i < "tick_ms"@.len() ==> "tick_ms"@[i] != '=',
        "panic"@ != "verbose"@,
        "panic"@ != "tick_ms"@,
        "verbose"@ != "tick_ms"@,
{
    reveal_strlit("panic");
    reveal_strlit("verbose");
    reveal_strlit("tick_ms");
    assert("verbose"@[0] == 'v');
    assert("tick_ms"@[0] == 't');
}

/// Law: `panic=n` sets the seconds before a reboot to `n`, whatever they were, and nothing
/// else; a number of more than 32 bits is ignored.
pub proof fn law_panic_sets_the_timeout(c: Config, n: nat)
    ensures
        n <= u32::MAX ==> c.with_word(pair("panic"@, digits_of(n))) == (Config {
            panic_timeout: n as u32,
            ..c
        }),
        n > u32::MAX ==> c.with_word(pair("panic"@, digits_of(n))) == c,
{
    lemma_keys();
    lemma_number(n);
    law_pairs_are_split_at_the_first_equals_sign(c, "panic"@, digits_of(n));
}

/// Law: `tick_ms=n` sets the tick interval to `n` milliseconds, but to no less than one and no
/// more than a hundred, and nothing else.
pub proof fn law_tick_sets_the_interval(c: Config, n: nat)
    ensures
        1 <= n <= 100 ==> c.with_word(pair("tick_ms"@, digits_of(n))) == (Config {
            tick_ms: n as u32,
            ..c
        }),
        n == 0 ==> c.with_word(pair("tick_ms"@, digits_of(n))) == (Config { tick_ms: 1, ..c }),
        100 < n <= u32::MAX ==> c.with_word(pair("tick_ms"@, digits_of(n))) == (Config {
            tick_ms: 100,
            ..c
        }),
        n > u32::MAX ==> c.with_word(pair("tick_ms"@, digits_of(n))) == c,
{
    lemma_keys();
    lemma_number(n);
    law_pairs_are_split_at_the_first_equals_sign(c, "tick_ms"@, digits_of(n));
}

/// Law: `verbose=0` silences the boot messages, every other value turns them on, and nothing
/// else changes.
pub proof fn law_verbose_is_off_only_for_zero(c: Config, value: Seq<char>)
    ensures
        c.with_word(pair("verbose"@, value)) == (Config {
            verbose_boot: value != seq!['0'],
            ..c
        }),
{
    lemma_keys();
    law_pairs_are_split_at_the_first_equals_sign(c, "verbose"@, value);
    reveal_strlit("0");
    assert("0"@ =~= seq!['0']);
}

/// Law: other keys, and words without an equals sign, change nothing; nor does a value that is
/// no number where one is needed.
pub proof fn law_other_words_change_nothing(c: Config, word: Seq<char>, value: Seq<char>)
    ensures
        (forall|i: int| 0 <= i < word.len() ==> word[i] != '=') ==> {
            &&& c.with_word(word) == c
            &&& word != "panic"@ && word != "verbose"@ && word != "tick_ms"@ ==> c.with_word(
                pair(word, value),
            ) == c
        },
        number(value) is None ==> c.with_word(pair("panic"@, value)) == c && c.with_word(
            pair("tick_ms"@, value),
        ) == c,
{
    lemma_keys();
    if forall|i: int| 0 <= i < word.len() ==> word[i] != '=' {
        lemma_no_equals(word, 0);
        law_pairs_are_split_at_the_first_equals_sign(c, word, value);
    }
    law_pairs_are_split_at_the_first_equals_sign(c, "panic"@, value);
    law_pairs_are_split_at_the_first_equals_sign(c, "tick_ms"@, value);
}

proof fn lemma_no_equals(word: Seq<char>, from: int)
    requires
        0 <= from <= word.len(),
        forall|i: int| 0 <= i < word.len() ==> word[i] != '=',
    ensures
        first_equals(word, from) is None,
    decreases word.len() - from,
{
    if from < word.len() {
        lemma_no_equals(word, from + 1);
    }
}

/// Law: a text of visible characters is one word, and one of white space has none.
pub proof fn law_words_have_no_white_space(s: Seq<char>)
    ensures
        s.len() > 0 && (forall|i: int| 0 <= i < s.len() ==> !is_white(s[i])) ==> words(s)
            == seq![s],
        (forall|i: int| 0 <= i < s.len() ==> is_white(s[i])) ==> words(s) == Seq::<Seq<char>>::empty(),
    decreases s.len(),
{
    if s.len() > 0 {
        let before = s.drop_last();
        law_words_have_no_white_space(before);
        if forall|i: int| 0 <= i < s.len() ==> !is_white(s[i]) {
            assert forall|i: int| 0 <= i < before.len() implies !is_white(before[i]) by {
                assert(before[i] == s[i]);
            }
            if s.len() == 1 {
                assert(before =~= Seq::empty());
                assert(seq![s.last()] =~= s);
                assert(words(s) =~= seq![s]);
            } else {
                assert(before.push(s.last()) =~= s);
                assert(words(s) =~= seq![s]);
            }
        }
        if forall|i: int| 0 <= i < s.len() ==> is_white(s[i]) {
            assert forall|i: int| 0 <= i < before.len() implies is_white(before[i]) by {
                assert(before[i] == s[i]);
            }
        }
    }
}

/// Law: white space parts a command line: the words before it and the words behind it are the
/// words of the line, in their order.
pub proof fn law_white_space_parts_words(a: Seq<char>, space: char, b: Seq<char>)
    requires
        is_white(space),
    ensures
        words(a.push(space) + b) == words(a) + words(b),
    decreases b.len(),
{
    let all = a.push(space) + b;
    if b.len() == 0 {
        assert(all =~= a.push(space));
        assert(all.drop_last() =~= a);
        assert(words(a) + words(b) =~= words(a));
    } else {
        law_white_space_parts_words(a, space, b.drop_last());
        assert(all.drop_last() =~= a.push(space) + b.drop_last());
        assert(all.last() == b.last());
        if b.len() > 1 {
            assert(all[all.len() - 2] == b[b.len() - 2]);
        } else {
            assert(all[all.len() - 2] == space);
        }
        if is_white(b.last()) {
        } else if b.len() == 1 || is_white(b[b.len() - 2]) {
            assert(words(all) =~= words(a) + words(b));
        } else {
            lemma_has_a_word(b.drop_last());
            let w = words(b.drop_last());
            let before = words(a) + w;
            assert(before.last() == w.last());
            assert(before.drop_last() =~= words(a) + w.drop_last());
            assert(words(all) =~= words(a) + words(b));
        }
    }
}

proof fn lemma_has_a_word(s: Seq<char>)
    requires
        s.len() > 0,
        !is_white(s.last()),
    ensures
        words(s).len() > 0,
{
}

/// Law: the words of a line are taken in one after the other, so that a later one wins; an
/// empty line changes nothing.
pub proof fn law_words_are_taken_in_order(c: Config, a: Seq<Seq<char>>, b: Seq<Seq<char>>)
    ensures
        c.with_words(a + b) == c.with_words(a).with_words(b),
        c.with_words(Seq::<Seq<char>>::empty()) == c,
        forall|w: Seq<char>| #[trigger] c.with_words(seq![w]) == c.with_word(w),
    decreases b.len(),
{
    if b.len() > 0 {
        law_words_are_taken_in_order(c, a, b.drop_last());
        assert((a + b).drop_last() =~= a + b.drop_last());
        assert((a + b).last() == b.last());
    } else {
        assert(a + b =~= a);
    }
    assert forall|w: Seq<char>| #[trigger] c.with_words(seq![w]) == c.with_word(w) by {
        assert(seq![w].drop_last() =~= Seq::empty());
        assert(c.with_words(seq![w].drop_last()) == c);
    }
}

/// Law: what the kernel starts from where the command line says nothing.
pub proof fn law_defaults_are_those_of_the_phone(c: Config)
    ensures
        c == Config::defaults() ==> c.tick_ms == 10 && c.max_processes == 16 && c.heap_pages * 4096
            == 1024 * 1024 && c.uart_baud == 8 * 115_200 && c.verbose_boot && !c.debug_console
            && c.panic_timeout == 0,
{
}

} // verus!
