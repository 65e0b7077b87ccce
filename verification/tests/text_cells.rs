use corvus_tui::text::{clock, truncate, uptime_clock};

#[test]
fn clock_pads_every_field() {
    let ts = ((1 * 3600 + 2 * 60 + 3) * 1_000_000_000u64) + 4_000_000;
    assert_eq!(clock(ts), "01:02:03.004");
    assert_eq!(clock(0), "00:00:00.000");
}

#[test]
fn clock_wraps_hours_at_a_day() {
    let ts = (25 * 3600 + 59 * 60 + 59) * 1_000_000_000u64 + 999_999_999;
    assert_eq!(clock(ts), "01:59:59.999");
    assert_eq!(clock(u64::MAX).chars().count(), 12);
}

#[test]
fn uptime_hours_are_not_wrapped() {
    assert_eq!(uptime_clock(3 * 3600 + 4 * 60 + 5), "03:04:05");
    assert_eq!(uptime_clock(123 * 3600), "123:00:00");
}

#[test]
fn truncate_cuts_with_an_ellipsis() {
    assert_eq!(truncate("abcdef", 4), "abc\u{2026}");
    assert_eq!(truncate("abcd", 4), "abcd");
    assert_eq!(truncate("", 0), "");
    assert_eq!(truncate("ab", 0), "\u{2026}");
    assert_eq!(truncate("\u{e9}\u{e9}\u{e9}", 2), "\u{e9}\u{2026}");
}
