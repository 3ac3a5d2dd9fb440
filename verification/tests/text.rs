use quatweb::ext::Tag;
use quatweb::number::{parse_decimal, push_decimal, NumberErr};
use quatweb::text::{
    append_chars, char_ascii_lower, char_is_ascii_whitespace, char_is_whitespace, chars_of,
    find_char, split_ascii_whitespace, string_of, text_before, trim_range,
};

fn trimmed(s: &str) -> String {
    let v = chars_of(s);
    let (a, b) = trim_range(&v, 0, v.len());
    string_of(&v, a, b)
}

fn number(s: &str, max: u32) -> Result<u32, NumberErr> {
    let v = chars_of(s);
    parse_decimal(&v, 0, v.len(), max)
}

#[test]
fn characters_are_read_and_written_back() {
    let v = chars_of("a\u{e4}\u{20ac}\u{1f600}z");
    assert_eq!(v, vec!['a', '\u{e4}', '\u{20ac}', '\u{1f600}', 'z']);
    assert_eq!(string_of(&v, 0, v.len()), "a\u{e4}\u{20ac}\u{1f600}z");
    assert_eq!(string_of(&v, 1, 3), "\u{e4}\u{20ac}");
    assert_eq!(string_of(&v, 2, 2), "");
    let mut s = String::from("x");
    append_chars(&mut s, &v, 3, 5);
    assert_eq!(s, "x\u{1f600}z");
}

#[test]
fn whitespace_is_what_the_standard_library_says() {
    for n in 0..=0x10FFFFu32 {
        if let Some(c) = char::from_u32(n) {
            assert_eq!(char_is_whitespace(c), c.is_whitespace(), "{:x}", n);
            assert_eq!(char_is_ascii_whitespace(c), c.is_ascii_whitespace(), "{:x}", n);
            assert_eq!(char_ascii_lower(c), c.to_ascii_lowercase(), "{:x}", n);
        }
    }
}

#[test]
fn trimming_is_what_the_standard_library_does() {
    for s in [
        "",
        " ",
        "a",
        " a",
        "a ",
        "  a b  ",
        "\t\r\n x \u{b}\u{c}",
        "\u{a0}\u{1680}\u{2000}\u{200a}\u{2028}\u{2029}\u{202f}\u{205f}\u{3000}x\u{85}",
        "\u{200b}x\u{200b}",
        " \u{feff} ",
        "   ",
    ] {
        assert_eq!(trimmed(s), s.trim(), "{:?}", s);
    }
    assert_eq!(trimmed("  a b  "), "a b");
    // A zero-width space is no whitespace.
    assert_eq!(trimmed("\u{200b}x"), "\u{200b}x");
}

#[test]
fn words_are_split_as_the_standard_library_splits_them() {
    for s in ["", "   ", "a", " a ", "a b", "  one\ttwo\n\nthree\r\n", "a\u{a0}b c", "x\u{b}y"] {
        let v = chars_of(s);
        let words: Vec<String> =
            split_ascii_whitespace(&v).iter().map(|&(a, b)| string_of(&v, a, b)).collect();
        let wanted: Vec<&str> = s.split_ascii_whitespace().collect();
        assert_eq!(words, wanted, "{:?}", s);
    }
    let v = chars_of(" Jan  03 2020");
    assert_eq!(split_ascii_whitespace(&v), vec![(1, 4), (6, 8), (9, 13)]);
}

#[test]
fn a_character_is_found_or_the_end_is_given() {
    let v = chars_of("key=value=x");
    assert_eq!(find_char(&v, '=', 0, v.len()), 3);
    assert_eq!(find_char(&v, '=', 4, v.len()), 9);
    assert_eq!(find_char(&v, '=', 4, 8), 8);
    assert_eq!(find_char(&v, '#', 0, v.len()), v.len());
    assert_eq!(find_char(&v, 'k', 0, 0), 0);
}

#[test]
fn numbers_are_read_as_the_standard_library_reads_them() {
    for s in ["0", "7", "007", "255", "256", "65535", "65536", "99999999999999999999", "", "x", "1x", "-1", " 1", "1 ", "\u{661}"] {
        assert_eq!(number(s, 0xFF).ok(), s.parse::<u8>().ok().map(u32::from), "{:?}", s);
        assert_eq!(number(s, 0xFFFF).ok(), s.parse::<u16>().ok().map(u32::from), "{:?}", s);
    }
}

#[test]
fn numbers_fail_for_a_stated_reason() {
    assert_eq!(number("", 255), Err(NumberErr::Empty));
    assert_eq!(number("12a", 255), Err(NumberErr::InvalidDigit));
    assert_eq!(number("+5", 255), Err(NumberErr::InvalidDigit));
    assert_eq!(number("256", 255), Err(NumberErr::PosOverflow));
    assert_eq!(number("256", 256), Ok(256));
    // A character that is no digit decides, however large the number is.
    assert_eq!(number("99999999x", 255), Err(NumberErr::InvalidDigit));
    assert_eq!(number("000000000000000000000000012", 12), Ok(12));
}

#[test]
fn numbers_are_written_as_the_standard_library_writes_them() {
    for n in [0u16, 1, 9, 10, 11, 99, 100, 101, 255, 256, 1000, 9999, 10000, 65535] {
        let mut s = String::from("n=");
        push_decimal(&mut s, n);
        assert_eq!(s, format!("n={}", n));
    }
}

#[test]
fn tags_are_equal_when_their_text_is() {
    let a = Tag("rust".to_string());
    let b = Tag::from(&"rust".to_string());
    let c = Tag("web".to_string());
    assert!(a == b && a != c);
    assert_eq!(a.clone(), a);
    assert_eq!(Tag::default(), Tag(String::new()));
    assert!(a < c);
    let mut all = vec![c.clone(), a.clone()];
    all.sort();
    assert_eq!(all, vec![a, c]);
}

#[test]
fn texts_are_ordered_as_strings_are() {
    let texts = ["", "a", "A", "ab", "abc", "b", "aa", "a b", "\u{e4}", "z", "z\u{1f600}", "zz", "\u{ffff}", "\u{10000}"];
    for a in texts {
        for b in texts {
            assert_eq!(text_before(a, b), a < b, "{:?} {:?}", a, b);
        }
    }
    assert!(text_before("ab", "abc") && !text_before("abc", "ab") && !text_before("ab", "ab"));
}
