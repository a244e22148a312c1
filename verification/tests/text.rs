use handiva::text::{parse_u64, split_chars, trim_chars, truncate_str};

#[test]
fn parses_numbers_like_std() {
    for s in ["0", "500", "+7", "007", "18446744073709551615", "18446744073709551616", "", "+", "-1", " 5", "5 ", "1_000", "12a"] {
        assert_eq!(parse_u64(s), s.parse::<u64>().ok(), "{:?}", s);
    }
}

#[test]
fn trims_unicode_white_space() {
    let v: Vec<char> = "\u{3000} a b \t\n".chars().collect();
    assert_eq!(trim_chars(&v), vec!['a', ' ', 'b']);
    let e: Vec<char> = "   ".chars().collect();
    assert!(trim_chars(&e).is_empty());
}

#[test]
fn splits_like_str_split() {
    for s in ["a+b", "+", "", "++x", "Ctrl+Shift+F6"] {
        let v: Vec<char> = s.chars().collect();
        let got: Vec<String> = split_chars(&v, '+').iter().map(|p| p.iter().collect()).collect();
        let want: Vec<String> = s.split('+').map(|p| p.to_string()).collect();
        assert_eq!(got, want);
    }
}

#[test]
fn truncates_by_characters() {
    assert_eq!(truncate_str("короткий", 50), "короткий");
    assert_eq!(truncate_str("абвгд", 3), "абв");
    assert_eq!(truncate_str("", 0), "");
}

#[test]
fn white_space_matches_std() {
    for v in 0u32..0x11_0000 {
        if let Some(c) = char::from_u32(v) {
            assert_eq!(handiva::text::is_whitespace(c), c.is_whitespace(), "{:x}", v);
        }
    }
}
