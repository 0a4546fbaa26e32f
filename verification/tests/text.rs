use os_sim::text::{
    chars_of, field_end, is_whitespace, parse_number, skip_spaces, split_fields, split_lines,
    split_words, word_end,
};

fn parse(s: &str) -> Option<u64> {
    let v = chars_of(s);
    parse_number(&v, 0, v.len())
}

fn cut(s: &str, bounds: Vec<(usize, usize)>) -> Vec<String> {
    let v: Vec<char> = s.chars().collect();
    bounds.iter().map(|(a, b)| v[*a..*b].iter().collect()).collect()
}

#[test]
fn test_chars_of() {
    assert_eq!(chars_of("aé\u{2003}z"), vec!['a', 'é', '\u{2003}', 'z']);
    assert_eq!(chars_of(""), Vec::<char>::new());
}

#[test]
fn test_parse_number_as_the_standard_library_does() {
    for s in [
        "0", "7", "007", "+5", "+0", "18446744073709551615", "18446744073709551616", "", "+", "-",
        "-0", "-1", "1 ", " 1", "1_0", "0x10", "++1", "1+", "٣", "99999999999999999999999",
        "000000000000000000000000000001", "12a", "a12",
    ] {
        assert_eq!(parse(s), s.parse::<u64>().ok());
    }
    assert_eq!(parse("18446744073709551615"), Some(u64::MAX));
    assert_eq!(parse("18446744073709551616"), None);
    assert_eq!(parse("+42"), Some(42));
}

#[test]
fn test_parse_number_in_the_middle() {
    let v = chars_of("ab123cd");
    assert_eq!(parse_number(&v, 2, 5), Some(123));
    assert_eq!(parse_number(&v, 2, 6), None);
    assert_eq!(parse_number(&v, 3, 3), None);
}

#[test]
fn test_whitespace_as_the_standard_library_has_it() {
    let mut n: u32 = 0;
    while n <= 0x3100 {
        if let Some(c) = char::from_u32(n) {
            assert_eq!(is_whitespace(c), c.is_whitespace());
        }
        n += 1;
    }
    assert!(!is_whitespace('\u{200B}'));
    assert!(!is_whitespace('\u{FEFF}'));
}

#[test]
fn test_split_words_as_the_standard_library_does() {
    for s in ["", " ", "a", " a", "a ", "a b", "  ab \t\n cd\u{3000}e  ", "\u{85}x\u{A0}"] {
        let expected: Vec<String> = s.split_whitespace().map(|w| w.to_owned()).collect();
        assert_eq!(cut(s, split_words(&chars_of(s))), expected);
    }
}

#[test]
fn test_split_fields_as_the_standard_library_does() {
    for s in ["", ";", "a", "a;", ";a", "a;b;c", "A;1;;2;", ";;"] {
        let expected: Vec<String> = s.split(';').map(|w| w.to_owned()).collect();
        assert_eq!(cut(s, split_fields(&chars_of(s))), expected);
    }
}

#[test]
fn test_split_lines_as_the_standard_library_does() {
    for s in ["", "\n", "a", "a\n", "a\nb", "a\r\nb\r\n", "a\r", "\r\n", "\r", "a\n\nb\n", "foo\nbar\n\r\nbaz\r", "a\r\r\nb"] {
        let expected: Vec<String> = s.lines().map(|w| w.to_owned()).collect();
        assert_eq!(cut(s, split_lines(&chars_of(s))), expected);
    }
}

#[test]
fn test_finding_places() {
    let v = chars_of("  ab;c d");
    assert_eq!(skip_spaces(&v, 0), 2);
    assert_eq!(skip_spaces(&v, 2), 2);
    assert_eq!(word_end(&v, 2), 6);
    assert_eq!(field_end(&v, 0), 4);
    assert_eq!(field_end(&v, 5), 8);
    assert_eq!(skip_spaces(&v, 8), 8);
}
