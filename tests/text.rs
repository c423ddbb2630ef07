use mini_httpd::text::{decimal_string, parse_usize, split_words, trim_chars};

fn chars(s: &str) -> Vec<char> {
    s.chars().collect()
}

#[test]
fn parses_unsigned_numbers_like_std() {
    assert_eq!(parse_usize(&chars("42")), Some(42));
    assert_eq!(parse_usize(&chars("+7")), Some(7));
    assert_eq!(parse_usize(&chars("007")), Some(7));
    assert_eq!(parse_usize(&chars("")), None);
    assert_eq!(parse_usize(&chars("+")), None);
    assert_eq!(parse_usize(&chars("1 ")), None);
    assert_eq!(parse_usize(&chars("-1")), None);
    assert_eq!(parse_usize(&chars(&usize::MAX.to_string())), Some(usize::MAX));
    assert_eq!(parse_usize(&chars("18446744073709551616")), None);
}

#[test]
fn formats_decimals() {
    assert_eq!(decimal_string(0), "0");
    assert_eq!(decimal_string(10), "10");
    assert_eq!(decimal_string(usize::MAX), usize::MAX.to_string());
}

#[test]
fn trims_and_splits_unicode_whitespace() {
    let t: String = trim_chars(&chars("\u{3000} a b \r\n")).into_iter().collect();
    assert_eq!(t, "a b");
    let w: Vec<String> = split_words(&chars(" x\u{a0}y\tz "))
        .into_iter()
        .map(|w| w.into_iter().collect())
        .collect();
    assert_eq!(w, vec!["x", "y", "z"]);
}
