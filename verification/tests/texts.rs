use cpubind::text::{
    chars_of, contains_char, contains_text, ends_with, find_char, is_whitespace, lines, parse_i32,
    parse_unsigned, parse_usize, push_decimal, push_signed, same_text, split, starts_with, strip_prefix, trim,
    words,
};

const SAMPLES: [&str; 12] = [
    "",
    " ",
    "a",
    "a b",
    "  a \t b\n",
    "\r\n",
    "a\r\nb\n",
    "a\n\nb",
    "\u{a0}x\u{3000}",
    "é,ü;\u{1f600}",
    "a\rb\r\n",
    ",,",
];

#[test]
fn white_space_is_what_it_is_for_chars() {
    for n in 0..=0x10ffffu32 {
        if let Some(c) = char::from_u32(n) {
            assert_eq!(is_whitespace(c), c.is_whitespace());
        }
    }
}

#[test]
fn trimming_splitting_and_lines_agree_with_str() {
    for s in SAMPLES {
        assert_eq!(trim(s), s.trim());
        assert_eq!(words(s), s.split_whitespace().collect::<Vec<_>>());
        assert_eq!(lines(s), s.lines().collect::<Vec<_>>());
        assert_eq!(split(s, &[',', ';']), s.split([',', ';']).collect::<Vec<_>>());
        assert_eq!(chars_of(s), s.chars().collect::<Vec<_>>());
    }
}

#[test]
fn prefixes_and_suffixes_agree_with_str() {
    for s in SAMPLES {
        for p in SAMPLES {
            assert_eq!(strip_prefix(s, p), s.strip_prefix(p));
            assert_eq!(starts_with(s, p), s.starts_with(p));
            assert_eq!(ends_with(s, p), s.ends_with(p));
            assert_eq!(same_text(s, p), s == p);
        }
    }
}

#[test]
fn characters_are_found() {
    assert_eq!(find_char("ab[c[", '['), Some(2));
    assert_eq!(find_char("é)", ')'), Some(1));
    assert_eq!(find_char("abc", 'x'), None);
    assert!(contains_char("a/b", '/'));
    assert!(!contains_char("", '/'));
    assert!(contains_text(&vec!["a".to_string(), "b".to_string()], "b"));
    assert!(!contains_text(&vec!["a".to_string()], "b"));
}

#[test]
fn numbers_agree_with_parse() {
    let samples = [
        "", "+", "-", "0", "00", "7", "+7", "-7", "--7", " 7", "7 ", "4294967295", "4294967296",
        "2147483647", "2147483648", "-2147483648", "-2147483649", "18446744073709551615",
        "18446744073709551616", "99999999999999999999999999", "1x", "x1", "+-1", "٣",
    ];
    for s in samples {
        assert_eq!(parse_unsigned(s, u64::MAX), s.parse::<u64>().ok());
        assert_eq!(parse_unsigned(s, u32::MAX as u64), s.parse::<u32>().ok().map(|n| n as u64));
        assert_eq!(parse_usize(s), s.parse::<usize>().ok());
        assert_eq!(parse_i32(s), s.parse::<i32>().ok());
    }
}

#[test]
fn numbers_are_written_in_decimal() {
    for n in [0, 1, 9, 10, 99, 100, 1023, u64::MAX] {
        let mut s = String::from("x");
        push_decimal(&mut s, n);
        assert_eq!(s, format!("x{}", n));
        assert_eq!(parse_unsigned(&s[1..], u64::MAX), Some(n));
    }
}

#[test]
fn signed_numbers_are_written_in_decimal() {
    for n in [0, 7, -7, 10, i32::MAX, i32::MIN] {
        let mut s = String::from("x");
        push_signed(&mut s, n);
        assert_eq!(s, format!("x{}", n));
        assert_eq!(parse_i32(&s[1..]), Some(n));
    }
}
