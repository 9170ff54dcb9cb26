use linesum::assembler::{chunker, LineAssembler};

fn strings(items: &[&str]) -> Vec<String> {
    items.iter().map(|s| s.to_string()).collect()
}

fn chunks_of(text: &str, size: usize) -> Vec<String> {
    let chars: Vec<char> = text.chars().collect();
    chars.chunks(size).map(|c| c.iter().collect::<String>()).collect()
}

#[test]
fn test_long_line() {
    let input_output: Vec<(&str, Vec<&str>)> = vec![
        ("abc\n123\ncome-with-me\n", ["abc", "123", "come-with-me"].to_vec()),
        ("neah\nnee\nwee\n", ["neah", "nee", "wee"].to_vec()),
        (
            "neah\nnee\nwee\nfeh\nleh\njeh\ntee\n",
            ["neah", "nee", "wee", "feh", "leh", "jeh", "tee"].to_vec(),
        ),
        (
            "neah\nnee\nwee\nfeh\nleh\njeh\ntee",
            ["neah", "nee", "wee", "feh", "leh", "jeh"].to_vec(),
        ),
    ];

    for (input, output) in input_output {
        let records = chunker(&vec![input.to_string()]);
        assert_eq!(records, strings(&output));
    }
}

#[test]
fn records_do_not_depend_on_chunk_size() {
    let text = "abc\n123\n";
    for size in 1..=text.len() + 1 {
        assert_eq!(chunker(&chunks_of(text, size)), strings(&["abc", "123"]));
    }
}

#[test]
fn records_do_not_depend_on_chunk_boundaries() {
    let expected = strings(&["abc", "123"]);
    assert_eq!(chunker(&strings(&["abc\n123\n"])), expected);
    assert_eq!(chunker(&strings(&["abc", "\n123\n"])), expected);
    assert_eq!(chunker(&strings(&["abc\n", "123\n"])), expected);
    assert_eq!(chunker(&strings(&["a", "b", "c", "\n", "1", "2", "3", "\n"])), expected);
    assert_eq!(chunker(&strings(&["", "abc\n12", "", "3\n", ""])), expected);
}

#[test]
fn sixteen_character_chunks_give_the_lines() {
    let text = "abc\ndef\nghi\njkl\nmno\npqr\nstu\nvwx\nyz\n\n";
    assert_eq!(
        chunker(&chunks_of(text, 16)),
        strings(&["abc", "def", "ghi", "jkl", "mno", "pqr", "stu", "vwx", "yz", ""])
    );
}

#[test]
fn trailing_fragment_is_dropped() {
    assert_eq!(chunker(&strings(&["abc\ndef"])), strings(&["abc"]));
    assert_eq!(chunker(&strings(&["abc\n", "def"])), strings(&["abc"]));
    assert_eq!(chunker(&strings(&["abc"])), strings(&[]));
}

#[test]
fn no_chunks_give_no_records() {
    assert_eq!(chunker(&Vec::new()), Vec::<String>::new());
    assert_eq!(chunker(&strings(&["", ""])), Vec::<String>::new());
}

#[test]
fn empty_lines_are_records() {
    assert_eq!(chunker(&strings(&["\n\nabc\n\n"])), strings(&["", "", "abc", ""]));
}

#[test]
fn carriage_returns_stay_in_the_record() {
    assert_eq!(chunker(&strings(&["abc\r\ndef\r\n"])), strings(&["abc\r", "def\r"]));
}

#[test]
fn records_keep_characters_beyond_ascii() {
    assert_eq!(
        chunker(&strings(&["\u{e9}t\u{e9}\n\u{4e2d}", "\u{6587}\nrest"])),
        strings(&["\u{e9}t\u{e9}", "\u{4e2d}\u{6587}"])
    );
}

#[test]
fn assembler_gives_records_as_they_complete() {
    let mut assembler = LineAssembler::new();
    assert_eq!(assembler.push_chunk("ab"), strings(&[]));
    assert_eq!(assembler.push_chunk("c\n12"), strings(&["abc"]));
    assert_eq!(assembler.push_chunk("3\nx\ny\nz"), strings(&["123", "x", "y"]));
    assert_eq!(assembler.push_chunk(""), strings(&[]));
    assert_eq!(assembler.finish(), "z".to_string());
}

#[test]
fn assembler_with_nothing_waiting_drops_nothing() {
    let mut assembler = LineAssembler::new();
    assert_eq!(assembler.push_chunk("abc\n"), strings(&["abc"]));
    assert_eq!(assembler.finish(), String::new());
}
