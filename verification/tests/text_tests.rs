use normalizador_nq4::text::{
    i64_text, parse_i32, parse_u32, parse_u64, text_eq, text_eq_ignore_ascii_case, trim_text,
    u64_text,
};

#[test]
fn trim_removes_unicode_whitespace_at_both_ends() {
    assert_eq!(trim_text("  hola \t\n"), "hola");
    assert_eq!(trim_text("\u{3000}a b\u{a0}"), "a b");
    assert_eq!(trim_text("   "), "");
    assert_eq!(trim_text(""), "");
    assert_eq!(trim_text("x"), "x");
}

#[test]
fn parse_u64_accepts_plus_and_rejects_signs_and_junk() {
    assert_eq!(parse_u64("123"), Some(123));
    assert_eq!(parse_u64("+7"), Some(7));
    assert_eq!(parse_u64("007"), Some(7));
    assert_eq!(parse_u64("-0"), None);
    assert_eq!(parse_u64(""), None);
    assert_eq!(parse_u64("+"), None);
    assert_eq!(parse_u64("1a"), None);
    assert_eq!(parse_u64(" 1"), None);
    assert_eq!(parse_u64("18446744073709551615"), Some(u64::MAX));
    assert_eq!(parse_u64("18446744073709551616"), None);
}

#[test]
fn parse_u32_bounds() {
    assert_eq!(parse_u32("4294967295"), Some(u32::MAX));
    assert_eq!(parse_u32("4294967296"), None);
    assert_eq!(parse_u32("0"), Some(0));
}

#[test]
fn parse_i32_matches_std_on_samples() {
    for s in ["0", "-0", "+12", "-12", "2147483647", "-2147483648", "2147483648", "-2147483649", "-", "+", "", "--1", "1-"] {
        assert_eq!(parse_i32(s), s.parse::<i32>().ok(), "input {s:?}");
    }
}

#[test]
fn decimal_texts() {
    assert_eq!(u64_text(0), "0");
    assert_eq!(u64_text(1234567890), "1234567890");
    assert_eq!(u64_text(u64::MAX), u64::MAX.to_string());
    assert_eq!(i64_text(-42), "-42");
    assert_eq!(i64_text(i64::MIN), i64::MIN.to_string());
    assert_eq!(i64_text(7), "7");
}

#[test]
fn equality_helpers() {
    assert!(text_eq("ID3v2.4", "ID3v2.4"));
    assert!(!text_eq("ID3v2.4", "ID3v2.3"));
    assert!(text_eq_ignore_ascii_case("Song.MP3", "song.mp3"));
    assert!(!text_eq_ignore_ascii_case("Ñ.mp3", "ñ.mp3"));
    assert!(!text_eq_ignore_ascii_case("a", "ab"));
}
