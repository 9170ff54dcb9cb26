use linesum::reader::{after_read, input_lines, ReadStep, BUF_SIZE};

fn strings(items: &[&str]) -> Vec<String> {
    items.iter().map(|s| s.to_string()).collect()
}

#[test]
fn chunk_holds_sixteen_bytes() {
    assert_eq!(BUF_SIZE, 16);
}

#[test]
fn full_read_goes_on() {
    assert_eq!(after_read(Some(16)), ReadStep::EmitAndContinue);
}

#[test]
fn short_read_ends_the_input() {
    assert_eq!(after_read(Some(15)), ReadStep::EmitAndStop);
    assert_eq!(after_read(Some(1)), ReadStep::EmitAndStop);
}

#[test]
fn empty_read_is_handed_on_and_ends_the_input() {
    assert_eq!(after_read(Some(0)), ReadStep::EmitAndStop);
}

#[test]
fn failed_read_ends_the_input_without_a_chunk() {
    assert_eq!(after_read(None), ReadStep::Stop);
}

#[test]
fn lines_that_are_not_empty_are_handed_on() {
    assert_eq!(input_lines("abc\ndef\n"), strings(&["abc", "def"]));
    assert_eq!(input_lines("abc\n\n\ndef"), strings(&["abc", "def"]));
    assert_eq!(input_lines("\n\nabc"), strings(&["abc"]));
    assert_eq!(input_lines(""), strings(&[]));
    assert_eq!(input_lines("\n"), strings(&[]));
    assert_eq!(input_lines("abc"), strings(&["abc"]));
    assert_eq!(input_lines(" \n"), strings(&[" "]));
}

#[test]
fn last_line_needs_no_newline() {
    assert_eq!(
        input_lines("Game 1: 1 red\nGame 2: 2 blue"),
        strings(&["Game 1: 1 red", "Game 2: 2 blue"])
    );
}

#[test]
fn carriage_return_before_a_newline_ends_the_line() {
    assert_eq!(input_lines("abc\r\ndef\r\n"), strings(&["abc", "def"]));
    assert_eq!(input_lines("abc\r\n\r\ndef"), strings(&["abc", "def"]));
    assert_eq!(input_lines("a\rb\n"), strings(&["a\rb"]));
    assert_eq!(input_lines("abc\r\r\n"), strings(&["abc\r"]));
}

#[test]
fn lines_agree_with_the_standard_library() {
    for text in ["abc\ndef\n", "abc\n\n\ndef", "", "\n", "abc", "a\r\nb\r\n\r\nc", "x\n\ny\n\n"] {
        let expected: Vec<String> =
            text.lines().filter(|line| *line != "").map(|line| line.to_string()).collect();
        assert_eq!(input_lines(text), expected, "{:?}", text);
    }
}
