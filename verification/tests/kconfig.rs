//! Kernel configuration.
use thumos::kconfig::Config;

#[test]
fn parse_cmdline_sets_tick_rate_and_security_flags() {
    let mut config = Config::new();
    config.parse_cmdline("tick_ms=25 verbose=0 console=1 panic=5");

    assert_eq!(config.tick_ms, 25);
    assert!(!config.verbose_boot);
    assert!(
        !config.debug_console,
        "console= must not be settable from the cmdline"
    );
    assert_eq!(config.panic_timeout, 5);
}

#[test]
fn parse_cmdline_clamps_tick_ms_to_valid_range() {
    let mut config = Config::new();
    config.parse_cmdline("tick_ms=500");
    assert_eq!(
        config.tick_ms, 100,
        "tick_ms must clamp to the 100ms ceiling"
    );

    config.parse_cmdline("tick_ms=0");
    assert_eq!(config.tick_ms, 1, "tick_ms must clamp to the 1ms floor");
}

#[test]
fn parse_cmdline_ignores_unknown_and_malformed_params() {
    let mut config = Config::new();
    let before = config.panic_timeout;
    config.parse_cmdline("bogus=1 no_equals_sign panic=notanumber");
    let after = config.panic_timeout;
    assert_eq!(
        after, before,
        "malformed panic= value must be ignored, not applied"
    );
}

#[test]
fn defaults_are_the_documented_ones() {
    let config = Config::new();
    assert_eq!(config.tick_ms, 10);
    assert_eq!(config.max_processes, 16);
    assert_eq!(config.heap_pages, 256);
    assert_eq!(config.uart_baud, 921_600);
    assert!(config.verbose_boot);
    assert!(!config.debug_console);
    assert_eq!(config.panic_timeout, 0);
}

#[test]
fn the_first_equals_sign_splits_and_any_white_space_separates() {
    let mut config = Config::new();
    config.parse_cmdline("  panic=+7\tverbose=\u{3000}tick_ms=50 panic=1=2\n");
    assert_eq!(config.panic_timeout, 7, "a plus sign is part of a number");
    assert!(config.verbose_boot, "an empty value is not 0");
    assert_eq!(config.tick_ms, 50);
    config.parse_cmdline("panic=4294967296");
    assert_eq!(config.panic_timeout, 7, "a number that does not fit is ignored");
    config.parse_cmdline("panic=4294967295");
    assert_eq!(config.panic_timeout, u32::MAX);
}

#[test]
fn later_words_win_and_an_empty_line_changes_nothing() {
    let mut config = Config::new();
    config.parse_cmdline("verbose=0 verbose=1 tick_ms=3 tick_ms=4");
    assert!(config.verbose_boot);
    assert_eq!(config.tick_ms, 4);
    let before = config;
    config.parse_cmdline("");
    config.parse_cmdline(" \t ");
    config.parse_cmdline("debug_console=1 DEBUG=1 =5 heap_pages=1");
    assert_eq!(config, before);
}
