use swarf::text::{
    padded_decimal_text, parse_u32, parse_u8, same_text, same_text_but_case, split_once,
};

#[test]
fn numbers_read_like_the_standard_library() {
    for text in [
        "", "0", "7", "007", "+7", "++7", "-7", "-0", "+", "-", " 7", "7 ", "12x", "4294967295",
        "4294967296", "99999999999999999999999999", "00000000000000000000000001", "\u{0663}",
        "1_000", "0x10", "255", "256",
    ] {
        assert_eq!(parse_u32(text), text.parse::<u32>().ok(), "{text:?}");
        assert_eq!(parse_u8(text), text.parse::<u8>().ok(), "{text:?}");
    }
}

#[test]
fn numbers_are_padded_with_zeros() {
    for n in [0, 7, 10, 999, 1000, 9999, 10_000, 123_456, u32::MAX] {
        assert_eq!(padded_decimal_text(n, 4), format!("{n:04}"));
        assert_eq!(padded_decimal_text(n, 0), format!("{n}"));
    }
}

#[test]
fn padded_numbers_read_back() {
    for n in [0, 5, 42, 9_999, 70_000, u32::MAX] {
        assert_eq!(parse_u32(&padded_decimal_text(n, 12)), Some(n));
    }
}

#[test]
fn texts_compare() {
    assert!(same_text("", ""));
    assert!(same_text("--shot", "--shot"));
    assert!(!same_text("--shot", "--shoT"));
    assert!(!same_text("--shot", "--shots"));
    assert!(same_text("h\u{e9}", "h\u{e9}"));
}

#[test]
fn case_is_ignored_for_ascii_only() {
    for (a, b) in [
        ("Sand", "sAND"),
        ("a", "b"),
        ("ab", "a"),
        ("@", "`"),
        ("[", "{"),
        ("Z", "z"),
        ("\u{c4}", "\u{e4}"),
        ("Iron ore", "IRON ORE"),
    ] {
        assert_eq!(same_text_but_case(a, b), a.eq_ignore_ascii_case(b), "{a} {b}");
    }
}

#[test]
fn texts_split_at_the_first_mark() {
    for (text, c) in [
        ("1280x720", 'x'),
        ("x", 'x'),
        ("axbxc", 'x'),
        ("abc", 'x'),
        ("", 'x'),
        ("\u{e9}@\u{fc},1", '@'),
    ] {
        assert_eq!(split_once(text, c), text.split_once(c));
    }
}
