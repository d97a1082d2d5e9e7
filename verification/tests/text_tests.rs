use cursor_pet::order::{chars_le, sort_strings, str_le};
use cursor_pet::png::png_dimensions;
use cursor_pet::text::{
    chars_of, contains_char, find_char, format_i32, format_u32, is_whitespace, parse_i32, trim,
    trim_start,
};

fn cs(s: &str) -> Vec<char> {
    s.chars().collect()
}

fn text(v: Vec<char>) -> String {
    v.into_iter().collect()
}

#[test]
fn whitespace_is_the_unicode_white_space_set() {
    for c in [' ', '\t', '\n', '\r', '\u{0B}', '\u{0C}', '\u{85}', '\u{A0}', '\u{1680}', '\u{2000}', '\u{200A}', '\u{2028}', '\u{2029}', '\u{202F}', '\u{205F}', '\u{3000}'] {
        assert!(is_whitespace(c), "{:?}", c);
        assert_eq!(is_whitespace(c), c.is_whitespace());
    }
    for c in ['a', '0', ',', '\u{200B}', '\u{FEFF}', '\u{180E}', '-'] {
        assert!(!is_whitespace(c), "{:?}", c);
        assert_eq!(is_whitespace(c), c.is_whitespace());
    }
}

#[test]
fn trim_matches_std_trim() {
    for s in ["", "   ", "  a b  ", "\u{3000}x\u{85}", "\tmid\n", "plain"] {
        assert_eq!(text(trim(&cs(s))), s.trim());
        assert_eq!(text(trim_start(&cs(s))), s.trim_start());
    }
}

#[test]
fn chars_round_trip() {
    assert_eq!(chars_of("héllo"), vec!['h', 'é', 'l', 'l', 'o']);
}

#[test]
fn parse_i32_follows_std_parse() {
    for s in ["0", "42", "-42", "+7", "007", "2147483647", "-2147483648", "2147483648",
        "-2147483649", "", "-", "+", "1 ", " 1", "1.5", "--1", "+-1", "99999999999999999999", "١"] {
        assert_eq!(parse_i32(&cs(s)), s.parse::<i32>().ok(), "{:?}", s);
    }
}

#[test]
fn format_writes_decimal() {
    assert_eq!(format_i32(0), "0");
    assert_eq!(format_i32(-42), "-42");
    assert_eq!(format_i32(i32::MIN), "-2147483648");
    assert_eq!(format_i32(i32::MAX), "2147483647");
    assert_eq!(format_u32(u32::MAX), "4294967295");
    assert_eq!(format_u32(256), "256");
}

#[test]
fn format_then_parse_gives_the_number_back() {
    for n in [0, 1, -1, 9, 10, -10, 1920, -3000, i32::MIN, i32::MAX] {
        assert_eq!(parse_i32(&cs(&format_i32(n))), Some(n));
    }
}

#[test]
fn find_and_contains() {
    assert_eq!(find_char(&cs("12,34,5"), ','), Some(2));
    assert_eq!(find_char(&cs("1234"), ','), None);
    assert!(contains_char(&cs("a/b"), '/'));
    assert!(!contains_char(&cs("ab"), '/'));
}

#[test]
fn text_order_is_code_point_order() {
    assert!(str_le("abc", "abd"));
    assert!(str_le("ab", "abc"));
    assert!(!str_le("abc", "ab"));
    assert!(str_le("", ""));
    assert!(str_le("Z", "a"));
    assert!(chars_le(&cs("é"), &cs("ë")));
    for (a, b) in [("cat", "dog"), ("dog", "cat"), ("x", "x"), ("ä", "z"), ("", "a")] {
        assert_eq!(str_le(a, b), a <= b);
    }
}

#[test]
fn sort_strings_sorts_like_std() {
    let v: Vec<String> = ["zeta", "alpha", "Beta", "alpha", "émile", ""].iter().map(|s| s.to_string()).collect();
    let mut expected = v.clone();
    expected.sort();
    assert_eq!(sort_strings(v), expected);
    assert_eq!(sort_strings(Vec::new()), Vec::<String>::new());
}

fn header(w: u32, h: u32) -> Vec<u8> {
    let mut b = vec![0x89, b'P', b'N', b'G', 0x0d, 0x0a, 0x1a, 0x0a, 0, 0, 0, 13, b'I', b'H', b'D', b'R'];
    b.extend_from_slice(&w.to_be_bytes());
    b.extend_from_slice(&h.to_be_bytes());
    b
}

#[test]
fn png_dimensions_reads_ihdr() {
    assert_eq!(png_dimensions(&header(256, 128)), Some((256, 128)));
    assert_eq!(png_dimensions(&header(0x01020304, 0xFFFFFFFF)), Some((0x01020304, 0xFFFFFFFF)));
    let mut longer = header(640, 480);
    longer.extend_from_slice(&[1, 2, 3]);
    assert_eq!(png_dimensions(&longer), Some((640, 480)));
}

#[test]
fn png_dimensions_rejects_short_or_foreign_data() {
    assert_eq!(png_dimensions(&header(256, 128)[..23]), None);
    assert_eq!(png_dimensions(&[]), None);
    let mut bad = header(256, 128);
    bad[1] = b'X';
    assert_eq!(png_dimensions(&bad), None);
    let mut bad_last = header(256, 128);
    bad_last[7] = 0;
    assert_eq!(png_dimensions(&bad_last), None);
}
