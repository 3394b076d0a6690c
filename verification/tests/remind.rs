//! Reminders.

use openab::remind::{
    format_delay, parse_delay, parse_lower_delay, sanitize_message, validate_message, Moment,
    Reminder, ReminderStore, MAX_TARGETS,
};

#[test]
fn parse_delay_minutes() {
    assert_eq!(parse_delay("5m").unwrap(), 300);
    assert_eq!(parse_delay("1m").unwrap(), 60);
}

#[test]
fn parse_delay_hours() {
    assert_eq!(parse_delay("2h").unwrap(), 7200);
}

#[test]
fn parse_delay_days() {
    assert_eq!(parse_delay("1d").unwrap(), 86400);
    assert_eq!(parse_delay("30d").unwrap(), 2_592_000);
}

#[test]
fn parse_delay_combined() {
    assert_eq!(parse_delay("1h30m").unwrap(), 5400);
    assert_eq!(parse_delay("1d12h").unwrap(), 129_600);
}

#[test]
fn delays_ignore_case_and_add_up_in_any_order() {
    assert_eq!(parse_delay(" 1H30M ").unwrap(), 5400);
    assert_eq!(parse_delay("30m1h30m").unwrap(), 7200);
    assert_eq!(parse_delay("007M").unwrap(), 420);
    assert_eq!(parse_delay("007M0090").unwrap(), 420 + 5400);
    assert_eq!(parse_delay("20d11d").unwrap_err(), "maximum delay is 30d");
}

#[test]
fn lower_case_outside_ascii_never_reads_as_a_delay() {
    for c in ('\u{80}'..=char::MAX).filter(|c| c.to_lowercase().all(|l| l.is_ascii())) {
        assert_eq!((c, c.to_lowercase().collect::<String>()), ('\u{212a}', "k".to_string()));
    }
    for c in '\u{80}'..=char::MAX {
        assert!(c.to_lowercase().any(|l| !l.is_ascii() || l == 'k'));
    }
    for text in ["1\u{ff4d}", "\u{661}h", "5\u{212a}", "1h\u{3a3}"] {
        assert!(parse_delay(text).is_err(), "{text}");
    }
}

#[test]
fn lower_case_does_not_depend_on_ascii_case() {
    for text in ["A\u{3a3}", "\u{3a3}A", "A\u{3a3}B", "A.\u{3a3}", "\u{130}Z", "\u{212a}K", "\u{c4}B"] {
        assert_eq!(text.to_lowercase(), text.to_ascii_lowercase().to_lowercase(), "{text}");
    }
}

#[test]
fn shown_delays_are_read_back_without_their_seconds() {
    for secs in [60, 119, 3600, 5400, 5459, 86_400, 90_061, 129_600, 2_591_999, 2_592_000] {
        let shown = format_delay(secs);
        assert!(shown.split(' ').all(|part| !part.starts_with('0')));
        assert_eq!(parse_delay(&shown.replace(' ', "")), Ok(secs - secs % 60));
    }
    assert_eq!(format_delay(5400), "1h 30m");
    assert_eq!(format_delay(3600), "1h");
}

#[test]
fn parse_delay_bare_number_defaults_to_minutes() {
    assert_eq!(parse_delay("10").unwrap(), 600);
}

#[test]
fn parse_delay_too_short() {
    assert!(parse_delay("0m").is_err());
    assert!(parse_delay("0h").is_err());
}

#[test]
fn parse_delay_too_long() {
    assert!(parse_delay("31d").is_err());
}

#[test]
fn format_delay_basic() {
    assert_eq!(format_delay(3600), "1h");
    assert_eq!(format_delay(5400), "1h 30m");
    assert_eq!(format_delay(90000), "1d 1h");
}

#[test]
fn parse_delay_empty() {
    assert!(parse_delay("").is_err());
    assert!(parse_delay("   ").is_err());
}

#[test]
fn parse_delay_invalid_unit() {
    assert!(parse_delay("2x").is_err());
    assert!(parse_delay("abc").is_err());
    assert!(parse_delay("5s").is_err());
}

#[test]
fn parse_delay_case_insensitive() {
    assert_eq!(parse_delay("2H").unwrap(), 7200);
    assert_eq!(parse_delay("1D30M").unwrap(), 88200);
}

#[test]
fn parse_delay_whitespace_trimmed() {
    assert_eq!(parse_delay(" 5m ").unwrap(), 300);
}

#[test]
fn parse_delay_bare_number_boundary() {
    assert_eq!(parse_delay("1").unwrap(), 60); // 1 min
    assert_eq!(parse_delay("30").unwrap(), 1800); // 30 min
}

#[test]
fn parse_delay_exact_boundaries() {
    // Exactly 1m (minimum)
    assert_eq!(parse_delay("1m").unwrap(), 60);
    // Exactly 30d (maximum)
    assert_eq!(parse_delay("30d").unwrap(), 2_592_000);
    // Just over 30d
    assert!(parse_delay("30d1m").is_err());
}

#[test]
fn format_delay_zero() {
    assert_eq!(format_delay(0), "< 1m");
}

#[test]
fn format_delay_pure_units() {
    assert_eq!(format_delay(86400), "1d");
    assert_eq!(format_delay(120), "2m");
    assert_eq!(format_delay(7200), "2h");
}

#[test]
fn sanitize_message_strips_everyone_here() {
    assert_eq!(
        sanitize_message("hello @everyone"),
        "hello @\u{200b}everyone"
    );
    assert_eq!(
        sanitize_message("hey @here check"),
        "hey @\u{200b}here check"
    );
    assert_eq!(
        sanitize_message("@everyone @here"),
        "@\u{200b}everyone @\u{200b}here"
    );
}

#[test]
fn sanitize_message_no_change() {
    assert_eq!(sanitize_message("normal message"), "normal message");
    assert_eq!(sanitize_message("<@123> hello"), "<@123> hello");
}

#[test]
fn validate_message_ok() {
    assert!(validate_message("short message").is_ok());
    assert!(validate_message(&"a".repeat(1800)).is_ok());
}

#[test]
fn validate_message_too_long() {
    assert!(validate_message(&"a".repeat(1801)).is_err());
}

#[test]
fn max_targets_constant() {
    assert_eq!(MAX_TARGETS, 10);
}

fn reminder(id: &str, message: &str) -> Reminder {
    Reminder {
        id: id.into(),
        channel_id: 123,
        sender_id: 456,
        targets: vec!["<@789>".into(), "<@&1>".into()],
        message: message.into(),
        fire_at: Moment {
            secs: 1_000,
            nanos: 5,
        },
        created_at: Moment { secs: 0, nanos: 0 },
    }
}

#[test]
fn reminder_store_add_remove() {
    let mut store = ReminderStore::load(Vec::new());
    assert_eq!(store.pending().len(), 0);

    store.add(reminder("test-1", "hello"));
    assert_eq!(store.pending().len(), 1);

    store.remove("other");
    assert_eq!(store.pending().len(), 1);

    store.remove("test-1");
    assert_eq!(store.pending().len(), 0);
}

#[test]
fn reminder_store_persists_across_reload() {
    let mut store = ReminderStore::load(Vec::new());
    store.add(reminder("persist-1", "persist test"));

    let store2 = ReminderStore::load(store.pending());
    let pending = store2.pending();
    assert_eq!(pending.len(), 1);
    assert_eq!(pending[0].id, "persist-1");
    assert_eq!(pending[0].message, "persist test");
}

#[test]
fn reminder_waits_until_it_is_due() {
    let r = reminder("r", "m");
    assert_eq!(r.delay(Moment { secs: 999, nanos: 999_999_999 }), 6);
    assert_eq!(r.delay(Moment { secs: 1_000, nanos: 5 }), 0);
    assert_eq!(r.delay(Moment { secs: 2_000, nanos: 0 }), 0);
    assert_eq!(
        r.delay(Moment { secs: i64::MIN, nanos: 0 }),
        9_223_372_036_854_776_808_000_000_005
    );
    assert_eq!(
        r.content(),
        "⏰ **Reminder** from <@456>:\n\"m\"\ncc <@789> <@&1>"
    );
}

#[test]
fn delay_errors_say_what_is_wrong() {
    assert_eq!(parse_delay("  ").unwrap_err(), "empty delay");
    assert_eq!(parse_delay("h").unwrap_err(), "invalid number in delay: h");
    assert_eq!(parse_delay("5S").unwrap_err(), "unknown unit 's' in delay (use m/h/d)");
    assert_eq!(parse_delay("0").unwrap_err(), "minimum delay is 1m");
    assert_eq!(parse_delay("43201").unwrap_err(), "maximum delay is 30d");
    assert_eq!(
        parse_delay("18446744073709551615d").unwrap_err(),
        "maximum delay is 30d"
    );
    assert_eq!(
        parse_delay("18446744073709551616m").unwrap_err(),
        "invalid number in delay: 18446744073709551616m"
    );
    assert_eq!(
        parse_delay("18446744073709551615d18446744073709551615d1x").unwrap_err(),
        "unknown unit 'x' in delay (use m/h/d)"
    );
    assert_eq!(parse_delay("007m"), Ok(420));
    assert_eq!(parse_lower_delay("1h", "1H"), Ok(3600));
}

#[test]
fn long_messages_are_measured_in_bytes() {
    assert!(validate_message(&"é".repeat(900)).is_ok());
    assert_eq!(
        validate_message(&"é".repeat(901)).unwrap_err(),
        "message too long (max 1800 characters)"
    );
}

#[test]
fn overlapping_broadcasts_are_neutralized() {
    let out = sanitize_message("@@everyone@here@everyone@everyon");
    assert!(!out.contains("@everyone"));
    assert!(!out.contains("@here"));
    assert_eq!(out, "@@\u{200b}everyone@\u{200b}here@\u{200b}everyone@everyon");
}
