use ongrow_server::text::{
    bytes_equal, chars_of, digit_value, is_space, number_up_to, part_of, pieces_of, string_of,
    text_after_last, text_equal, trim,
};

fn pieces(text: &str, separator: char) -> Vec<String> {
    pieces_of(&chars_of(text), separator)
        .iter()
        .map(|piece| string_of(piece))
        .collect()
}

#[test]
fn white_space_is_that_of_unicode() {
    for code in 0..0x11_0000 {
        if let Some(c) = char::from_u32(code) {
            assert_eq!(is_space(c), c.is_whitespace(), "{}", code);
        }
    }
}

#[test]
fn trims_like_std() {
    for text in [
        "", " ", "a", " a", "a ", "\n a b \t", "\u{3000}x\u{2028}", "\u{200b}x\u{180e}", "\u{85}",
    ] {
        assert_eq!(trim(text), text.trim());
    }
}

#[test]
fn splits_like_std() {
    for text in ["", ",", "a", "a,b", ",a,,b,", "\u{e4},\u{1f600}"] {
        assert_eq!(pieces(text, ','), text.split(',').collect::<Vec<_>>());
        assert_eq!(pieces(text, ',').join(","), text);
    }
}

#[test]
fn finds_what_is_behind_the_last_slash() {
    for text in ["", "/", "a", "a/b", "a/b/", "https://example.com/releases/tag/1.1.15"] {
        assert_eq!(text_after_last(text, '/'), text.rsplit('/').next().unwrap());
    }
}

#[test]
fn strings_are_their_characters() {
    let text = "a\u{e4}\u{1f600}";
    assert_eq!(chars_of(text), vec!['a', '\u{e4}', '\u{1f600}']);
    assert_eq!(string_of(&chars_of(text)), text);
    assert_eq!(part_of(&chars_of(text), 1, 3), vec!['\u{e4}', '\u{1f600}']);
    assert!(part_of(&chars_of(text), 2, 2).is_empty());
}

#[test]
fn compares() {
    assert!(bytes_equal(&[], &[]));
    assert!(!bytes_equal(&[1], &[1, 2]));
    assert!(!bytes_equal(&[1, 3], &[1, 2]));
    assert!(text_equal("a\u{e4}", "a\u{e4}"));
    assert!(!text_equal("a", "A"));
}

#[test]
fn digits_have_values() {
    for radix in [2, 10, 16, 36] {
        for code in 0..0x250 {
            let c = char::from_u32(code).unwrap();
            assert_eq!(digit_value(c, radix), c.to_digit(radix));
        }
    }
}

#[test]
fn numbers_have_limits() {
    let number = |text: &str, radix, max| number_up_to(&chars_of(text), radix, max);
    assert_eq!(number("", 10, 0), Some(0));
    assert_eq!(number("255", 10, 255), Some(255));
    assert_eq!(number("256", 10, 255), None);
    assert_eq!(number("fF", 16, 255), Some(255));
    assert_eq!(number("1g", 16, 255), None);
    assert_eq!(number("18446744073709551615", 10, u64::MAX), Some(u64::MAX));
    assert_eq!(number("18446744073709551616", 10, u64::MAX), None);
    assert_eq!(number("99999999999999999999999999999999999999999x", 10, u64::MAX), None);
    assert_eq!(number("000000000000000000000000000000000000000007", 10, 7), Some(7));
}
