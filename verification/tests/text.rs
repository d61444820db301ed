use std::time::Duration;

use agent_loop_core::span::whole_millis;
use agent_loop_core::text::{clip, comes_before, decimal, parse_u64, same_text, strip_slashes};

#[test]
fn a_text_is_clipped_at_characters() {
    assert_eq!(clip("abc", 3), "abc");
    assert_eq!(clip("abcd", 3), "abc…");
    assert_eq!(clip("äöü", 2), "äö…");
    assert_eq!(clip("", 0), "");
    assert_eq!(clip("x", 0), "…");
}

#[test]
fn numbers_are_written_and_read_in_decimal() {
    for n in [0, 7, 10, 429, u64::MAX] {
        assert_eq!(decimal(n), n.to_string());
        assert_eq!(parse_u64(&decimal(n)), Some(n));
    }
    for text in ["", "+", "-1", " 1", "1_000", "0x1", "18446744073709551616", "٣"] {
        assert_eq!(parse_u64(text), text.parse::<u64>().ok());
    }
    assert_eq!(parse_u64("+0012"), Some(12));
}

#[test]
fn texts_are_ordered_as_strings_are() {
    let texts = ["", "a", "ab", "b", "Z", "é", "\u{10000}", "\u{ffff}"];
    for a in texts {
        for b in texts {
            assert_eq!(comes_before(a, b), a < b);
            assert_eq!(same_text(a, b), a == b);
        }
    }
}

#[test]
fn slashes_are_taken_off_the_end_only() {
    assert_eq!(strip_slashes("http://x/y//"), "http://x/y");
    assert_eq!(strip_slashes("///"), "");
    assert_eq!(strip_slashes("/a"), "/a");
}

#[test]
fn milliseconds_are_whole() {
    assert_eq!(whole_millis(Duration::from_micros(1_999)), 1);
    assert_eq!(whole_millis(Duration::ZERO), 0);
    assert_eq!(whole_millis(Duration::MAX), Duration::MAX.as_millis() as u64);
}
