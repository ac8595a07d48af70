use aprs::text;
use aprs::util;

#[test]
fn valid_callsign() {
    let valid_callsigns: [&str; 7] =
        ["W2GMD", "W2GMD-1", "KF4MKT", "KF4MKT-1", "KF4LZA-15", "W2GMD*", "OTTFFS*"];
    for sign in valid_callsigns.iter() {
        assert_eq!(util::valid_callsign(sign), true);
    }
}

#[test]
fn invalid_callsign() {
    let invalid_callsigns: [&str; 8] = [
        "xW2GMDx", "W2GMD-16", "W2GMD-A", "W", "W2GMD-1-0", "W*GMD", "W2GMD-123", "W2GMD-123*",
    ];
    for sign in invalid_callsigns.iter() {
        assert_eq!(util::valid_callsign(sign), false);
    }
}

#[test]
fn callsign_rejection_examples() {
    assert!(!util::valid_callsign("W2GMD-16"));
    assert!(!util::valid_callsign("W2GMD--1"));
    assert!(!util::valid_callsign("W*GMD"));
    assert!(util::valid_callsign("W2GMD-1"));
    assert!(util::valid_callsign("W2GMD*"));
}

#[test]
fn callsign_edges() {
    assert!(!util::valid_callsign(""));
    assert!(!util::valid_callsign("W2GMD- 1"));
    assert!(!util::valid_callsign("W2*MD-8"));
    assert!(!util::valid_callsign("W2GMD-"));
    assert!(!util::valid_callsign("AB"));
    assert!(util::valid_callsign("ABC"));
    assert!(util::valid_callsign("ABCDEF-0"));
    assert!(!util::valid_callsign("ABCDEFG"));
    assert!(util::valid_callsign("  W2GMD-01 * "));
    assert!(!util::valid_callsign("W2GM\u{c4}"));
    assert!(!util::valid_callsign("W2GMD-007"));
    assert!(util::valid_callsign("W2GMD-07"));
    assert!(util::valid_callsign("*W2GMD"));
    assert!(util::valid_callsign("* W2GMD-1 *"));
}

#[test]
fn white_space_of_any_script_is_trimmed() {
    assert!(util::valid_callsign("W2GMD\u{a0}"));
    assert!(util::valid_callsign("\u{3000}W2GMD-1\u{2003}*"));
    assert!(!util::valid_callsign("W2\u{a0}GMD"));
    assert_eq!(util::aprspass("n6gso\u{a0}"), Some(5445));
}

#[test]
fn white_space_is_what_std_calls_white_space() {
    for v in 0..=0x10FFFFu32 {
        if let Some(c) = char::from_u32(v) {
            assert_eq!(text::char_is_white_space(c), c.is_whitespace());
        }
    }
}

#[test]
fn characters_and_bytes() {
    assert_eq!(text::chars_of("a\u{b0}c"), vec!['a', '\u{b0}', 'c']);
    assert_eq!(text::chars_of(""), Vec::<char>::new());
    assert_eq!(text::ascii_byte('A'), Some(0x41));
    assert_eq!(text::ascii_byte('\u{7f}'), Some(0x7f));
    assert_eq!(text::ascii_byte('\u{80}'), None);
    assert_eq!(text::string_of_bytes(b"W2GMD"), "W2GMD".to_string());
    assert_eq!(text::find_byte(b"a-b-c", b'-', 2), 3);
    assert_eq!(text::find_byte(b"abc", b'-', 0), 3);
    assert_eq!(text::trim_bounds(b"  * W2GMD * "), (2, 9));
}
