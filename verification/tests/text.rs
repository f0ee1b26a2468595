//! Operations on strings, against those of the standard library.
use oci_cache::clock::{deadline_after, is_within};
use oci_cache::text::{
    chars_of, contains_char, decimal_text, is_whitespace, rsplit_once, same_text, split,
    split_once, strip_prefix, trim, trim_end_matches, trim_matches,
};
use std::time::Duration;

const SAMPLES: [&str; 14] = [
    "",
    "a",
    "/",
    "//",
    "a/b",
    "/a/b/",
    "a//b",
    " a b ",
    "\t\u{3000}\u{a0}x\u{85}\r\n",
    "///a",
    "a///",
    "日本/語",
    " / ",
    "a,b,,c",
];

#[test]
fn white_space_is_that_of_unicode() {
    for code in 0..=0x10ffff_u32 {
        if let Some(c) = char::from_u32(code) {
            assert_eq!(is_whitespace(c), c.is_whitespace(), "{code:x}");
        }
    }
}

#[test]
fn strings_are_cut_and_trimmed() {
    for s in SAMPLES {
        for c in ['/', ',', ' ', 'a', '語'] {
            assert_eq!(split_once(s, c), s.split_once(c));
            assert_eq!(rsplit_once(s, c), s.rsplit_once(c));
            assert_eq!(split(s, c), s.split(c).collect::<Vec<&str>>());
            assert_eq!(trim_matches(s, c), s.trim_matches(c));
            assert_eq!(trim_end_matches(s, c), s.trim_end_matches(c));
            assert_eq!(contains_char(s, c), s.contains(c));
        }
        assert_eq!(trim(s), s.trim());
        assert_eq!(chars_of(s), s.chars().collect::<Vec<char>>());
        for t in SAMPLES {
            assert_eq!(strip_prefix(s, t), s.strip_prefix(t));
            assert_eq!(same_text(s, t), s == t);
        }
    }
}

#[test]
fn numbers_are_written_in_decimal() {
    for n in [0, 1, 9, 10, 11, 99, 100, 1_000_000, u64::MAX - 1, u64::MAX] {
        assert_eq!(decimal_text(n), n.to_string());
    }
}

#[test]
fn time_is_counted_in_nanoseconds() {
    assert_eq!(deadline_after(7, Duration::from_secs(2)), 2_000_000_007);
    assert_eq!(
        deadline_after(u64::MAX, Duration::from_secs(u64::MAX)),
        u64::MAX as u128 * 1_000_000_001
    );
    assert!(is_within(1_999_999_999, 0, Duration::from_secs(2)));
    assert!(!is_within(2_000_000_000, 0, Duration::from_secs(2)));
    // A point that lies in the future is no time ago.
    assert!(is_within(0, 5, Duration::from_secs(1)));
    assert!(!is_within(0, 5, Duration::from_secs(0)));
}
