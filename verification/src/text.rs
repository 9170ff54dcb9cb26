//! Text as a sequence of characters: reading a string's characters, cutting
//! at a separator, trimming white space and reading a decimal number.

use vstd::prelude::*;
use vstd::slice::slice_subrange;

verus! {

/// The characters of `s`, in order.
pub fn chars_of(s: &str) -> (v: Vec<char>)
    ensures
        v@ == s@,
{
    let mut v: Vec<char> = Vec::new();
    for c in it: s.chars()
        invariant
            v@ == it.seq().take(it.index()),
    {
        v.push(c);
    }
    v
}

/// The number of characters of `text` that stand before the first `stop`;
/// the length of `text` where it holds no `stop`.
pub open spec fn span_before(text: Seq<char>, stop: char) -> int
    decreases text.len(),
{
    if text.len() == 0 || text[0] == stop {
        0
    } else {
        1 + span_before(text.drop_first(), stop)
    }
}

/// `span_before` ends at the first `stop`: none stands before that place,
/// and one stands at it unless the text has run out.
pub proof fn lemma_span_before(text: Seq<char>, stop: char)
    ensures
        0 <= span_before(text, stop) <= text.len(),
        forall|i: int| 0 <= i < span_before(text, stop) ==> #[trigger] text[i] != stop,
        span_before(text, stop) < text.len() ==> text[span_before(text, stop)] == stop,
    decreases text.len(),
{
    if text.len() != 0 && text[0] != stop {
        let rest = text.drop_first();
        lemma_span_before(rest, stop);
        assert forall|i: int| 0 <= i < span_before(text, stop) implies #[trigger] text[i]
            != stop by {
            if i > 0 {
                assert(text[i] == rest[i - 1]);
            }
        }
    }
}

/// The place `n` is `span_before(text, stop)` where no `stop` stands before
/// `n` and either a `stop` stands at `n` or the text ends there.
pub proof fn lemma_span_before_is(text: Seq<char>, stop: char, n: int)
    requires
        0 <= n <= text.len(),
        forall|i: int| 0 <= i < n ==> #[trigger] text[i] != stop,
        n < text.len() ==> text[n] == stop,
    ensures
        span_before(text, stop) == n,
{
    lemma_span_before(text, stop);
    let m = span_before(text, stop);
    if m < n {
        assert(text[m] == stop);
    } else if n < m {
        assert(text[n] != stop);
    }
}

/// The pieces that `text` falls into when it is cut at every `sep`, in
/// order and without the separators. A text without `sep` is one piece; a
/// separator at the start, at the end or next to another leaves an empty
/// piece.
pub open spec fn split(text: Seq<char>, sep: char) -> Seq<Seq<char>>
    decreases text.len(),
{
    let n = span_before(text, sep);
    if 0 <= n < text.len() {
        seq![text.take(n)] + split(text.skip(n + 1), sep)
    } else {
        seq![text]
    }
}

/// The texts of `pieces`, in the same order.
pub open spec fn piece_texts(pieces: Seq<&[char]>) -> Seq<Seq<char>> {
    pieces.map_values(|p: &[char]| p@)
}

/// Cuts `text` at every `sep`.
pub fn split_chars<'a>(text: &'a [char], sep: char) -> (pieces: Vec<&'a [char]>)
    ensures
        piece_texts(pieces@) == split(text@, sep),
        pieces@.len() >= 1,
{
    let mut pieces: Vec<&'a [char]> = Vec::new();
    let mut start: usize = 0;
    let mut at: usize = 0;
    assert(text@.skip(0) =~= text@);
    assert(piece_texts(pieces@) =~= Seq::<Seq<char>>::empty());
    while at < text.len()
        invariant
            start <= at <= text.len(),
            forall|i: int| start <= i < at ==> #[trigger] text@[i] != sep,
            split(text@, sep) == piece_texts(pieces@) + split(text@.skip(start as int), sep),
        decreases text.len() - at,
    {
        if text[at] == sep {
            let piece = slice_subrange(text, start, at);
            proof {
                let rest = text@.skip(start as int);
                lemma_span_before_is(rest, sep, at - start);
                assert(rest.take(at - start) =~= text@.subrange(start as int, at as int));
                assert(rest.skip(at - start + 1) =~= text@.skip(at + 1));
                assert(piece_texts(pieces@.push(piece)) =~= piece_texts(pieces@) + seq![piece@]);
            }
            pieces.push(piece);
            start = at + 1;
        }
        at += 1;
    }
    let piece = slice_subrange(text, start, text.len());
    proof {
        lemma_span_before_is(text@.skip(start as int), sep, text@.len() - start);
        assert(text@.subrange(start as int, text@.len() as int) =~= text@.skip(start as int));
        assert(piece_texts(pieces@.push(piece)) =~= piece_texts(pieces@) + seq![piece@]);
    }
    pieces.push(piece);
    pieces
}

/// Whether `c` is white space: one of the characters that Unicode gives the
/// property `White_Space`.
pub open spec fn is_white_space(c: char) -> bool {
    let code = c as u32;
    ||| 0x09 <= code <= 0x0D
    ||| code == 0x20
    ||| code == 0x85
    ||| code == 0xA0
    ||| code == 0x1680
    ||| 0x2000 <= code <= 0x200A
    ||| code == 0x2028
    ||| code == 0x2029
    ||| code == 0x202F
    ||| code == 0x205F
    ||| code == 0x3000
}

/// Whether `c` is white space.
pub fn white_space(c: char) -> (white: bool)
    ensures
        white == is_white_space(c),
{
    let code = c as u32;
    (0x09 <= code && code <= 0x0D) || code == 0x20 || code == 0x85 || code == 0xA0 || code
        == 0x1680 || (0x2000 <= code && code <= 0x200A) || code == 0x2028 || code == 0x2029
        || code == 0x202F || code == 0x205F || code == 0x3000
}

/// The number of white-space characters at the start of `text`.
pub open spec fn leading_white(text: Seq<char>) -> int
    decreases text.len(),
{
    if text.len() == 0 || !is_white_space(text[0]) {
        0
    } else {
        1 + leading_white(text.drop_first())
    }
}

/// The number of white-space characters at the end of `text`.
pub open spec fn trailing_white(text: Seq<char>) -> int
    decreases text.len(),
{
    if text.len() == 0 || !is_white_space(text.last()) {
        0
    } else {
        1 + trailing_white(text.drop_last())
    }
}

/// `text` without the white space at its start and at its end.
pub open spec fn trim(text: Seq<char>) -> Seq<char> {
    let from = leading_white(text);
    if from >= text.len() {
        Seq::empty()
    } else {
        text.subrange(from, text.len() - trailing_white(text))
    }
}

/// The white space at the start of a text ends at `n` where all before
/// `n` is white space and what stands at `n`, if anything, is not.
pub proof fn lemma_leading_white_is(text: Seq<char>, n: int)
    requires
        0 <= n <= text.len(),
        forall|i: int| 0 <= i < n ==> is_white_space(#[trigger] text[i]),
        n < text.len() ==> !is_white_space(text[n]),
    ensures
        leading_white(text) == n,
    decreases text.len(),
{
    if n > 0 {
        let rest = text.drop_first();
        assert(is_white_space(text[0]));
        assert forall|i: int| 0 <= i < n - 1 implies is_white_space(#[trigger] rest[i]) by {
            assert(rest[i] == text[i + 1]);
        }
        lemma_leading_white_is(rest, n - 1);
    }
}

/// The white space at the end of a text has `n` characters where the last
/// `n` are white space and the one before them, if any, is not.
pub proof fn lemma_trailing_white_is(text: Seq<char>, n: int)
    requires
        0 <= n <= text.len(),
        forall|i: int| text.len() - n <= i < text.len() ==> is_white_space(#[trigger] text[i]),
        n < text.len() ==> !is_white_space(text[text.len() - n - 1]),
    ensures
        trailing_white(text) == n,
    decreases text.len(),
{
    if n > 0 {
        let rest = text.drop_last();
        assert(is_white_space(text[text.len() - 1]));
        assert forall|i: int| rest.len() - (n - 1) <= i < rest.len() implies is_white_space(
            #[trigger] rest[i],
        ) by {
            assert(rest[i] == text[i]);
        }
        lemma_trailing_white_is(rest, n - 1);
    }
}

/// `text` without the white space at its start and at its end.
pub fn trim_chars<'a>(text: &'a [char]) -> (trimmed: &'a [char])
    ensures
        trimmed@ == trim(text@),
{
    let mut from: usize = 0;
    while from < text.len() && white_space(text[from])
        invariant
            from <= text.len(),
            forall|i: int| 0 <= i < from ==> is_white_space(#[trigger] text@[i]),
        decreases text.len() - from,
    {
        from += 1;
    }
    proof {
        lemma_leading_white_is(text@, from as int);
    }
    if from == text.len() {
        let nothing = slice_subrange(text, 0, 0);
        assert(nothing@ =~= Seq::<char>::empty());
        return nothing;
    }
    let mut to: usize = text.len();
    while to > from + 1 && white_space(text[to - 1])
        invariant
            from < to <= text.len(),
            !is_white_space(text@[from as int]),
            forall|i: int| to <= i < text.len() ==> is_white_space(#[trigger] text@[i]),
        decreases to,
    {
        to -= 1;
    }
    proof {
        lemma_trailing_white_is(text@, text@.len() - to);
    }
    slice_subrange(text, from, to)
}

/// Whether `c` is one of the characters '0' to '9'.
pub open spec fn is_decimal_digit(c: char) -> bool {
    '0' <= c && c <= '9'
}

/// The number that the decimal digit `c` stands for.
pub open spec fn decimal_value(c: char) -> int {
    c as int - '0' as int
}

/// Whether every character of `text` is a decimal digit.
pub open spec fn all_decimal_digits(text: Seq<char>) -> bool {
    forall|i: int| 0 <= i < text.len() ==> is_decimal_digit(#[trigger] text[i])
}

/// The number that the decimal digits `digits` write, the first digit
/// counting most.
pub open spec fn decimal_number(digits: Seq<char>) -> nat
    decreases digits.len(),
{
    if digits.len() == 0 {
        0
    } else {
        (10 * decimal_number(digits.drop_last()) + decimal_value(digits.last())) as nat
    }
}

/// The digits of a number text: the text without a plus sign at its start.
pub open spec fn unsigned_part(text: Seq<char>) -> Seq<char> {
    if text.len() > 0 && text[0] == '+' {
        text.drop_first()
    } else {
        text
    }
}

/// The number that `text` writes: `text` is one or more decimal digits,
/// with or without a plus sign before them, and nothing else. Any other
/// text writes no number.
pub open spec fn written_number(text: Seq<char>) -> Option<nat> {
    let digits = unsigned_part(text);
    if digits.len() > 0 && all_decimal_digits(digits) {
        Some(decimal_number(digits))
    } else {
        None
    }
}

/// The first digits of a number write no more than all of its digits.
pub proof fn lemma_decimal_number_grows(digits: Seq<char>, count: int)
    requires
        0 <= count <= digits.len(),
        all_decimal_digits(digits),
    ensures
        decimal_number(digits.take(count)) <= decimal_number(digits),
    decreases digits.len() - count,
{
    if count < digits.len() {
        lemma_decimal_number_grows(digits, count + 1);
        assert(digits.take(count + 1).drop_last() =~= digits.take(count));
        assert(digits.take(count + 1).last() == digits[count]);
        assert(is_decimal_digit(digits[count]));
    } else {
        assert(digits.take(count) =~= digits);
    }
}

/// Reads `text` as a number. There is a result exactly where `text` writes
/// a number and that number fits a `usize`.
pub fn parse_number(text: &[char]) -> (number: Option<usize>)
    ensures
        match number {
            Some(n) => written_number(text@) == Some(n as nat),
            None => written_number(text@) matches Some(n) ==> n > usize::MAX,
        },
{
    let start: usize = if text.len() > 0 && text[0] == '+' {
        1
    } else {
        0
    };
    let ghost digits = unsigned_part(text@);
    assert(digits =~= text@.skip(start as int));
    if start == text.len() {
        return None;
    }
    let mut value: usize = 0;
    let mut at: usize = start;
    assert(digits.take(0) =~= Seq::<char>::empty());
    while at < text.len()
        invariant
            start <= at <= text.len(),
            digits == text@.skip(start as int),
            digits == unsigned_part(text@),
            forall|i: int| start <= i < at ==> is_decimal_digit(#[trigger] text@[i]),
            value == decimal_number(digits.take(at - start)),
        decreases text.len() - at,
    {
        let c = text[at];
        if !(c >= '0' && c <= '9') {
            assert(!is_decimal_digit(digits[at - start]));
            return None;
        }
        let digit = (c as u32 - '0' as u32) as usize;
        proof {
            assert(digits.take(at - start + 1).drop_last() =~= digits.take(at - start));
            assert(digits.take(at - start + 1).last() == c);
            if all_decimal_digits(digits) {
                lemma_decimal_number_grows(digits, at - start + 1);
            }
        }
        let tenfold = match value.checked_mul(10) {
            Some(t) => t,
            None => {
                return None;
            },
        };
        value = match tenfold.checked_add(digit) {
            Some(v) => v,
            None => {
                return None;
            },
        };
        at += 1;
    }
    proof {
        assert(digits.take(text@.len() - start) =~= digits);
        assert forall|i: int| 0 <= i < digits.len() implies is_decimal_digit(
            #[trigger] digits[i],
        ) by {
            assert(digits[i] == text@[start + i]);
        }
    }
    Some(value)
}

} // verus!
