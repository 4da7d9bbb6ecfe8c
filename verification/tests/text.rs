use ratex::text::{eq_ignore_ascii_case, is_whitespace, parse_unsigned, push_decimal_i64, trim};

fn chars(s: &str) -> Vec<char> {
    s.chars().collect()
}

#[test]
fn unsigned_parse_follows_str_parse() {
    for s in ["0", "42", "+7", "65535", "65536", "", "+", "-1", " 1", "1a", "007"] {
        let want = s.parse::<u16>().ok().map(u64::from);
        assert_eq!(parse_unsigned(&chars(s), 65535), want, "{s:?}");
    }
}

#[test]
fn trimming_and_case_folding() {
    assert_eq!(trim(&chars("\u{3000} x y\n")), chars("x y"));
    assert_eq!(trim(&chars("   ")), Vec::<char>::new());
    assert!(is_whitespace('\u{85}'));
    assert!(!is_whitespace('x'));
    assert!(eq_ignore_ascii_case(&chars("BoLd"), "bold"));
    assert!(!eq_ignore_ascii_case(&chars("bold"), "bolder"));
}

#[test]
fn decimal_formatting_matches_display() {
    for n in [0i64, 7, -7, 10, 1234567890, -9223372036854775807, i64::MIN, i64::MAX] {
        let mut s = String::from("v");
        push_decimal_i64(&mut s, n);
        assert_eq!(s, format!("v{n}"));
    }
}
