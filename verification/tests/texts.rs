use linesum::text::{chars_of, parse_number, split_chars, trim_chars, white_space};

fn chars(s: &str) -> Vec<char> {
    s.chars().collect()
}

fn split_strings(text: &str, sep: char) -> Vec<String> {
    let letters = chars(text);
    split_chars(&letters, sep).iter().map(|p| p.iter().collect::<String>()).collect()
}

fn trimmed(text: &str) -> String {
    let letters = chars(text);
    trim_chars(&letters).iter().collect()
}

#[test]
fn characters_are_read_in_order() {
    assert_eq!(chars_of("a\u{e9}\u{4e2d}1"), vec!['a', '\u{e9}', '\u{4e2d}', '1']);
    assert_eq!(chars_of(""), Vec::<char>::new());
}

#[test]
fn split_cuts_at_every_separator() {
    assert_eq!(split_strings("a,b,,c", ','), vec!["a", "b", "", "c"]);
    assert_eq!(split_strings("", ','), vec![""]);
    assert_eq!(split_strings(",", ','), vec!["", ""]);
    assert_eq!(split_strings("abc", ','), vec!["abc"]);
    assert_eq!(split_strings("a,", ','), vec!["a", ""]);
    assert_eq!(split_strings(",a", ','), vec!["", "a"]);
    for text in ["a,b,,c", "", ",", "abc", "a,", ",a", ",,,", "x, y ,z"] {
        let expected: Vec<String> = text.split(',').map(|p| p.to_string()).collect();
        assert_eq!(split_strings(text, ','), expected);
    }
}

#[test]
fn trim_takes_white_space_from_both_ends() {
    assert_eq!(trimmed("  a b  "), "a b");
    assert_eq!(trimmed("a"), "a");
    assert_eq!(trimmed(""), "");
    assert_eq!(trimmed("   "), "");
    assert_eq!(trimmed("\t\n x\r\n"), "x");
    assert_eq!(trimmed("\u{a0}\u{3000}x y\u{2003}\u{85}"), "x y");
    for text in ["  a b  ", "a", "", "   ", " a", "a ", "\u{1680}a\u{205f}", "\u{200b}a "] {
        assert_eq!(trimmed(text), text.trim());
    }
}

#[test]
fn white_space_is_what_unicode_says() {
    for code in 0..=0x3100u32 {
        if let Some(c) = char::from_u32(code) {
            assert_eq!(white_space(c), c.is_whitespace(), "U+{:04X}", code);
        }
    }
}

#[test]
fn numbers_are_read_as_decimal() {
    assert_eq!(parse_number(&chars("0")), Some(0));
    assert_eq!(parse_number(&chars("7")), Some(7));
    assert_eq!(parse_number(&chars("1337")), Some(1337));
    assert_eq!(parse_number(&chars("007")), Some(7));
    assert_eq!(parse_number(&chars("+42")), Some(42));
    assert_eq!(parse_number(&chars(&usize::MAX.to_string())), Some(usize::MAX));
}

#[test]
fn texts_that_write_no_number() {
    for text in ["", "+", "-1", "++1", "1+", " 1", "1 ", "1_000", "0x10", "1.5", "one", "\u{661}"] {
        assert_eq!(parse_number(&chars(text)), None, "{:?}", text);
        assert_eq!(text.parse::<usize>().ok(), None, "{:?}", text);
    }
}

#[test]
fn numbers_beyond_the_machine_are_not_read() {
    let most = usize::MAX.to_string();
    assert_eq!(parse_number(&chars(&format!("{}0", most))), None);
    assert_eq!(parse_number(&chars("99999999999999999999999999999999999999999")), None);
    let mut next: Vec<char> = most.chars().collect();
    let last = next.len() - 1;
    next[last] = char::from_digit(next[last].to_digit(10).unwrap() + 1, 10).unwrap();
    assert_eq!(parse_number(&next), None);
    assert_eq!(parse_number(&chars(&format!("000{}", most))), Some(usize::MAX));
}
