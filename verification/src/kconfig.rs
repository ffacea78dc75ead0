//! Kernel configuration parameters.
//!
//! Runtime-configurable parameters for kernel behavior, with defaults suitable for
//! the board. A few of them can be set from the boot command line.
use crate::text::{decimal_number, is_white, read_decimal, same_text, white};
use vstd::prelude::*;
use vstd::utf8::*;

verus! {

broadcast use vstd::string::group_string_axioms;

/// Number of blocks in the block cache.
pub const BLOCK_CACHE_BLOCKS: usize = 256;

/// The kernel parameters.
#[derive(Debug, Clone, Copy, PartialEq, Eq, Structural)]
pub struct Config {
    /// Scheduler tick interval in milliseconds.
    pub tick_ms: u32,
    /// Maximum number of processes.
    pub max_processes: usize,
    /// Kernel heap size in pages (4 KB each).
    pub heap_pages: usize,
    /// UART baud rate (set by bootloader, informational only).
    pub uart_baud: u32,
    /// Whether to print boot messages to UART.
    pub verbose_boot: bool,
    /// Enable kernel debug console on UART. No command line reaches this flag.
    pub debug_console: bool,
    /// Panic behavior: 0 = halt, N = reboot after N seconds.
    pub panic_timeout: u32,
}

/// The words of a command line: what stands between white space.
pub open spec fn words(s: Seq<char>) -> Seq<Seq<char>>
    decreases s.len(),
{
    if s.len() == 0 {
        Seq::empty()
    } else if is_white(s.last()) {
        words(s.drop_last())
    } else if s.len() == 1 || is_white(s[s.len() - 2]) {
        words(s.drop_last()).push(seq![s.last()])
    } else {
        let before = words(s.drop_last());
        before.drop_last().push(before.last().push(s.last()))
    }
}

/// The position of the first equals sign from `from` on.
pub open spec fn first_equals(s: Seq<char>, from: int) -> Option<int>
    decreases s.len() - from,
{
    if from < 0 || from >= s.len() {
        None
    } else if s[from] == '=' {
        Some(from)
    } else {
        first_equals(s, from + 1)
    }
}

/// A 32-bit number in decimal digits.
pub open spec fn number(value: Seq<char>) -> Option<u32> {
    match decimal_number(encode_utf8(value)) {
        Some(n) => if n <= u32::MAX {
            Some(n as u32)
        } else {
            None
        },
        None => None,
    }
}

/// A tick interval within its limits.
pub open spec fn clamped_tick(v: u32) -> u32 {
    if v < 1 {
        1
    } else if v > 100 {
        100
    } else {
        v
    }
}

impl Config {
    /// The defaults.
    pub open spec fn defaults() -> Config {
        Config {
            tick_ms: 10,
            max_processes: 16,
            heap_pages: 256,
            uart_baud: 921_600,
            verbose_boot: true,
            debug_console: false,
            panic_timeout: 0,
        }
    }

    /// The parameters after a key was set to a value. Unknown keys and values that
    /// are no number are ignored.
    pub open spec fn with_pair(self, key: Seq<char>, value: Seq<char>) -> Config {
        if key == "panic"@ {
            match number(value) {
                Some(v) => Config { panic_timeout: v, ..self },
                None => self,
            }
        } else if key == "verbose"@ {
            Config { verbose_boot: value != "0"@, ..self }
        } else if key == "tick_ms"@ {
            match number(value) {
                Some(v) => Config { tick_ms: clamped_tick(v), ..self },
                None => self,
            }
        } else {
            self
        }
    }

    /// The parameters after one word of a command line: a key and a value around
    /// the first equals sign.
    pub open spec fn with_word(self, word: Seq<char>) -> Config {
        match first_equals(word, 0) {
            Some(i) => self.with_pair(word.take(i), word.skip(i + 1)),
            None => self,
        }
    }

    /// The parameters after some words, one after the other.
    pub open spec fn with_words(self, ws: Seq<Seq<char>>) -> Config
        decreases ws.len(),
    {
        if ws.len() == 0 {
            self
        } else {
            self.with_words(ws.drop_last()).with_word(ws.last())
        }
    }

    /// The default parameters.
    pub fn new() -> (r: Self)
        ensures
            r == Config::defaults(),
    {
        Config {
            tick_ms: 10,
            max_processes: 16,
            heap_pages: 256,
            uart_baud: 921_600,
            verbose_boot: true,
            debug_console: false,
            panic_timeout: 0,
        }
    }

    /// Apply a key and a value.
    fn apply_pair(&mut self, key: &str, value: &str)
        ensures
            *final(self) == old(self).with_pair(key@, value@),
    {
        if same_text(key, "panic") {
            if let Some(v) = read_decimal(value.as_bytes(), u32::MAX as u64) {
                self.panic_timeout = v as u32;
            }
        } else if same_text(key, "verbose") {
            self.verbose_boot = !same_text(value, "0");
        } else if same_text(key, "tick_ms") {
            if let Some(v) = read_decimal(value.as_bytes(), u32::MAX as u64) {
                self.tick_ms = if v < 1 {
                    1
                } else if v > 100 {
                    100
                } else {
                    v as u32
                };
            }
        }
    }

    /// Apply one word of a command line.
    fn apply_word(&mut self, word: &str)
        ensures
            *final(self) == old(self).with_word(word@),
    {
        let n: usize = word.unicode_len();
        let mut i: usize = 0;
        while i < n
            invariant
                i <= n,
                n == word@.len(),
                *self == *old(self),
                first_equals(word@, 0) == first_equals(word@, i as int),
            decreases n - i,
        {
            if word.get_char(i) == '=' {
                let key = word.substring_char(0, i);
                let value = word.substring_char(i + 1, n);
                assert(key@ =~= word@.take(i as int));
                assert(value@ =~= word@.skip(i + 1));
                self.apply_pair(key, value);
                return ;
            }
            i += 1;
        }
    }

    /// Parse a boot command line: "key=value" pairs separated by white space.
    pub fn parse_cmdline(&mut self, cmdline: &str)
        ensures
            *final(self) == old(self).with_words(words(cmdline@)),
    {
        let mut word = String::new();
        let ghost mut done: Seq<Seq<char>> = Seq::empty();
        let ghost mut seen: Seq<char> = Seq::empty();
        assert(cmdline@.take(0) =~= Seq::<char>::empty());
        for c in it: cmdline.chars()
            invariant
                it.seq() == cmdline@,
                0 <= it.index() <= cmdline@.len(),
                seen == cmdline@.take(it.index() as int),
                *self == old(self).with_words(done),
                (seen.len() == 0 || is_white(seen.last())) == (word@.len() == 0),
                words(seen) == (if word@.len() == 0 {
                    done
                } else {
                    done.push(word@)
                }),
        {
            let ghost before = seen;
            proof {
                seen = cmdline@.take(it.index() + 1);
                assert(seen.drop_last() =~= before);
                assert(seen.last() == c);
                if before.len() > 0 {
                    assert(seen[seen.len() - 2] == before.last());
                }
            }
            if white(c) {
                if word.unicode_len() > 0 {
                    self.apply_word(word.as_str());
                    proof {
                        let longer = done.push(word@);
                        assert(longer.drop_last() =~= done);
                        done = longer;
                    }
                    word = String::new();
                }
            } else {
                let ghost old_word = word@;
                word.push(c);
                proof {
                    if old_word.len() == 0 {
                        assert(word@ =~= seq![c]);
                        assert(words(seen) =~= done.push(word@));
                    } else {
                        assert(done.push(old_word).drop_last() =~= done);
                        assert(words(seen) =~= done.push(word@));
                    }
                }
            }
        }
        assert(seen =~= cmdline@);
        if word.unicode_len() > 0 {
            self.apply_word(word.as_str());
            assert(done.push(word@).drop_last() =~= done);
        }
    }
}

/// Law: no command line can switch the debug console on (or off).
pub proof fn law_command_line_cannot_open_the_console(c: Config, ws: Seq<Seq<char>>)
    ensures
        c.with_words(ws).debug_console == c.debug_console,
    decreases ws.len(),
{
    if ws.len() > 0 {
        law_command_line_cannot_open_the_console(c, ws.drop_last());
    }
}

/// Law: whatever the command line says, the tick interval stays within its limits,
/// and only the panic timeout, the verbosity and the tick interval change.
pub proof fn law_command_line_reaches_three_parameters(c: Config, ws: Seq<Seq<char>>)
    requires
        1 <= c.tick_ms <= 100,
    ensures
        1 <= c.with_words(ws).tick_ms <= 100,
        c.with_words(ws) == (Config {
            tick_ms: c.with_words(ws).tick_ms,
            verbose_boot: c.with_words(ws).verbose_boot,
            panic_timeout: c.with_words(ws).panic_timeout,
            ..c
        }),
    decreases ws.len(),
{
    if ws.len() > 0 {
        law_command_line_reaches_three_parameters(c, ws.drop_last());
    }
}

/// Law: a word without an equals sign, and one with an unknown key, changes nothing.
pub proof fn law_unknown_words_are_ignored(c: Config, word: Seq<char>)
    requires
        match first_equals(word, 0) {
            Some(i) => word.take(i) != "panic"@ && word.take(i) != "verbose"@ && word.take(i)
                != "tick_ms"@,
            None => true,
        },
    ensures
        c.with_word(word) == c,
{
}

} // verus!
