use coce::text::{chars_of, join, parse_unsigned_exec, replace, same_text, split, trim, utf8_len};

#[test]
fn split_keeps_empty_pieces() {
    assert_eq!(split("a,b,,c", ','), vec!["a", "b", "", "c"]);
    assert_eq!(split("", ','), vec![""]);
    assert_eq!(split(",", ','), vec!["", ""]);
    assert_eq!(split("abc", ','), vec!["abc"]);
}

#[test]
fn join_puts_separator_between() {
    let parts: Vec<String> = vec!["a".into(), "b".into(), "c".into()];
    assert_eq!(join(&parts, ","), "a,b,c");
    assert_eq!(join(&Vec::new(), ","), "");
    assert_eq!(join(&vec!["x".to_string()], ", "), "x");
}

#[test]
fn trim_unicode_white_space() {
    assert_eq!(trim("  a b \n"), "a b");
    assert_eq!(trim("\u{a0}\u{2003}x\u{3000}"), "x");
    assert_eq!(trim("   "), "");
    assert_eq!(trim("\u{200b}x"), "\u{200b}x");
}

#[test]
fn replace_all_occurrences() {
    assert_eq!(replace("a?zoom=5&b=zoom=5", "zoom=5", "zoom=1"), "a?zoom=1&b=zoom=1");
    assert_eq!(replace("aaa", "aa", "b"), "ba");
    assert_eq!(replace("none", "x", "y"), "none");
    assert_eq!(replace("abc", "", "-"), "abc".replace("", "-"));
    assert_eq!(replace("", "", "-"), "-");
    assert_eq!(replace("é", "", "<>"), "é".replace("", "<>"));
}

#[test]
fn unsigned_parsing() {
    assert_eq!(parse_unsigned_exec("0", 10), Some(0));
    assert_eq!(parse_unsigned_exec("+10", 10), Some(10));
    assert_eq!(parse_unsigned_exec("11", 10), None);
    assert_eq!(parse_unsigned_exec("0000000000000000000000000000001", 10), Some(1));
    assert_eq!(parse_unsigned_exec("", 10), None);
    assert_eq!(parse_unsigned_exec("-1", 10), None);
    assert_eq!(parse_unsigned_exec("1 ", 10), None);
    assert_eq!(parse_unsigned_exec("65535", 65535), Some(65535));
    assert_eq!(parse_unsigned_exec("65536", 65535), None);
    // agrees with std
    for s in ["7", "+7", "++7", "7a", "08080", "99999999999999999999"] {
        assert_eq!(parse_unsigned_exec(s, u16::MAX as u64), s.parse::<u16>().ok().map(u64::from));
    }
}

#[test]
fn utf8_lengths() {
    assert_eq!(utf8_len(&chars_of("abc")), 3);
    assert_eq!(utf8_len(&chars_of("é€𝄞")), 2 + 3 + 4);
    assert!(same_text("ab", "ab"));
    assert!(!same_text("ab", "ba"));
}
