use clip_pop::text::{
    count_words,
    collapse_whitespace, is_blank, is_whitespace, preview_text, push_decimal, push_hex, starts_with,
    str_eq,
};
use clip_pop::time::{
    age_secs_between, age_secs_between_ns, millis_from_reading, nanos_from_reading, relative_time,
    RelativeTime,
};

#[test]
fn whitespace_agrees_with_std_for_every_char() {
    for u in 0u32..=0x10FFFF {
        if let Some(c) = char::from_u32(u) {
            assert_eq!(is_whitespace(c), c.is_whitespace(), "U+{u:04X}");
        }
    }
}

#[test]
fn collapse_joins_words_with_single_spaces() {
    assert_eq!(collapse_whitespace("  hello \n\t world  "), "hello world");
    assert_eq!(collapse_whitespace(""), "");
    assert_eq!(collapse_whitespace(" \u{3000}\u{a0} "), "");
    assert_eq!(collapse_whitespace("one"), "one");
    for s in ["a\u{2028}b  c", "\tx y\r\nz\u{85}", "  lead", "trail  ", "mid\u{200a}\u{2000}dle"] {
        let expected = s.split_whitespace().collect::<Vec<_>>().join(" ");
        assert_eq!(collapse_whitespace(s), expected);
    }
}

#[test]
fn preview_cuts_long_text_with_an_ellipsis() {
    assert_eq!(preview_text("abcdef", 3), "abc\u{2026}");
    assert_eq!(preview_text("abc", 3), "abc");
    assert_eq!(preview_text("  a   b  ", 3), "a b");
    assert_eq!(preview_text("a b c d", 0), "\u{2026}");
    assert_eq!(preview_text("héllo wörld", 7), "héllo w\u{2026}");
}

#[test]
fn blank_means_only_white_space() {
    assert!(is_blank(""));
    assert!(is_blank(" \t\n\u{3000}"));
    assert!(!is_blank("  x "));
}

#[test]
fn decimal_and_hex_digits() {
    let mut s = String::new();
    push_decimal(&mut s, 0);
    assert_eq!(s, "0");
    let mut s = String::from("n=");
    push_decimal(&mut s, 4_294_967_295);
    assert_eq!(s, "n=4294967295");
    let mut s = String::new();
    push_hex(&mut s, 255, 4);
    assert_eq!(s, "00ff");
    let mut s = String::new();
    push_hex(&mut s, 0xdead_beef_0123_4567, 16);
    assert_eq!(s, format!("{:016x}", 0xdead_beef_0123_4567u64));
}

#[test]
fn prefixes_and_equality() {
    assert!(starts_with("text/plain", "text/"));
    assert!(!starts_with("image/png", "text/"));
    assert!(!starts_with("te", "text/"));
    assert!(starts_with("abc", ""));
    assert!(str_eq("STRING", "STRING"));
    assert!(!str_eq("STRING", "STRINGS"));
    assert!(!str_eq("abc", "abd"));
}

#[test]
fn ages_truncate_toward_zero() {
    assert_eq!(age_secs_between(0, 1_999), 1);
    assert_eq!(age_secs_between(1_000, 0), -1);
    assert_eq!(age_secs_between(0, -1_500), -1);
    assert_eq!(age_secs_between(i64::MIN, i64::MAX), (u64::MAX / 1000) as i64);
}

#[test]
fn relative_time_buckets() {
    assert_eq!(relative_time(-5), RelativeTime::JustNow);
    assert_eq!(relative_time(59), RelativeTime::JustNow);
    assert_eq!(relative_time(60), RelativeTime::MinutesAgo(1));
    assert_eq!(relative_time(3_599), RelativeTime::MinutesAgo(59));
    assert_eq!(relative_time(3_600), RelativeTime::HoursAgo(1));
    assert_eq!(relative_time(86_399), RelativeTime::HoursAgo(23));
    assert_eq!(relative_time(86_400), RelativeTime::DaysAgo(1));
    assert_eq!(relative_time(10 * 86_400 + 5), RelativeTime::DaysAgo(10));
}

#[test]
fn clock_readings_become_signed_millis() {
    assert_eq!(millis_from_reading(Ok(1_700_000_000_123_456_789)), 1_700_000_000_123);
    assert_eq!(millis_from_reading(Err(2_500_000)), -3);
    assert_eq!(millis_from_reading(Err(2_000_000)), -2);
    assert_eq!(millis_from_reading(Err(1)), -1);
    assert_eq!(millis_from_reading(Ok(999_999)), 0);
    assert_eq!(millis_from_reading(Ok(0)), 0);
    assert_eq!(millis_from_reading(Ok(u128::MAX)), i64::MAX);
    assert_eq!(millis_from_reading(Err(u128::MAX)), i64::MIN);
    assert_eq!(nanos_from_reading(Ok(1_700_000_000_123_456_789)), 1_700_000_000_123_456_789);
    assert_eq!(nanos_from_reading(Err(5)), -5);
    assert_eq!(nanos_from_reading(Err(1 << 63)), i64::MIN);
    assert_eq!(nanos_from_reading(Err(u128::MAX)), i64::MIN);
    assert_eq!(nanos_from_reading(Ok(u128::MAX)), i64::MAX);
    assert_eq!(age_secs_between_ns(0, 1_999_999_999), 1);
    assert_eq!(age_secs_between_ns(0, -1_500_000_000), -1);
}

#[test]
fn now_follows_the_system_clock() {
    let before = chrono::Utc::now().timestamp_millis();
    let now = clip_pop::time::now_millis();
    let after = chrono::Utc::now().timestamp_millis();
    assert!(before <= now && now <= after, "{before} <= {now} <= {after}");
}

#[test]
fn words_are_runs_of_non_spaces() {
    assert_eq!(count_words(""), 0);
    assert_eq!(count_words("   "), 0);
    assert_eq!(count_words("a"), 1);
    assert_eq!(count_words(" foo  bar\\ baz "), 3);
    assert_eq!(count_words("tab\tis not a space"), 4);
}
