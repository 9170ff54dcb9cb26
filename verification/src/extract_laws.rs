//! What holds of the tokens of a record and of the number read from them.

use vstd::prelude::*;
use crate::extract::{
    as_number, extraction, lemma_token_digit_range, lemma_word_digit_from, number_word,
    occurs_at, token_at, tokens_before, tokens_of, word_digit_from, ExtractionRule,
};
use crate::text::{decimal_value, is_decimal_digit};

verus! {

/// Each number word has three to five characters and starts with a letter.
pub proof fn lemma_number_words(d: int)
    requires
        1 <= d <= 9,
    ensures
        3 <= number_word(d).len() <= 5,
        !is_decimal_digit(number_word(d)[0]),
{
    reveal_strlit("one");
    reveal_strlit("two");
    reveal_strlit("three");
    reveal_strlit("four");
    reveal_strlit("five");
    reveal_strlit("six");
    reveal_strlit("seven");
    reveal_strlit("eight");
    reveal_strlit("nine");
}

/// No two number words stand at the same offset of a text.
pub proof fn lemma_words_exclude_each_other(text: Seq<char>, at: int, d: int, e: int)
    requires
        1 <= d <= 9,
        1 <= e <= 9,
        occurs_at(text, at, number_word(d)),
        occurs_at(text, at, number_word(e)),
    ensures
        d == e,
{
    reveal_strlit("one");
    reveal_strlit("two");
    reveal_strlit("three");
    reveal_strlit("four");
    reveal_strlit("five");
    reveal_strlit("six");
    reveal_strlit("seven");
    reveal_strlit("eight");
    reveal_strlit("nine");
    let wd = number_word(d);
    let we = number_word(e);
    assert(text.subrange(at, at + wd.len())[0] == text[at]);
    assert(text.subrange(at, at + we.len())[0] == text[at]);
    assert(text.subrange(at, at + wd.len())[1] == text[at + 1]);
    assert(text.subrange(at, at + we.len())[1] == text[at + 1]);
    assert(wd[0] == we[0]);
    assert(wd[1] == we[1]);
}

/// Under the rule of digits, a token starts at an offset exactly where a
/// decimal digit stands, and its digit is that character's value.
pub proof fn lemma_digit_token(text: Seq<char>, at: int, d: int)
    ensures
        token_at(ExtractionRule::Digits, text, at) == Some(d) <==> {
            &&& 0 <= at < text.len()
            &&& is_decimal_digit(text[at])
            &&& decimal_value(text[at]) == d
        },
{
}

/// The wider rule finds every token that the rule of digits finds, with
/// the same digit.
pub proof fn lemma_wider_rule_keeps_digits(text: Seq<char>, at: int)
    ensures
        token_at(ExtractionRule::Digits, text, at) matches Some(d) ==> token_at(
            ExtractionRule::DigitsOrWords,
            text,
            at,
        ) == Some(d),
{
}

/// Under the wider rule, a number word counts as its digit, written at the
/// offset of the word's first character: a token with digit `d` starts at an
/// offset exactly where the decimal digit `d` stands or where the word for
/// `d` begins, whatever the word shares with its neighbours.
pub proof fn lemma_digit_or_word_token(text: Seq<char>, at: int, d: int)
    ensures
        token_at(ExtractionRule::DigitsOrWords, text, at) == Some(d) <==> {
            &&& 0 <= at < text.len()
            &&& {
                ||| is_decimal_digit(text[at]) && decimal_value(text[at]) == d
                ||| 1 <= d <= 9 && occurs_at(text, at, number_word(d))
            }
        },
{
    lemma_word_digit_from(text, at, 1);
    if 0 <= at < text.len() {
        if 1 <= d <= 9 && occurs_at(text, at, number_word(d)) {
            lemma_number_words(d);
            let word = number_word(d);
            assert(text.subrange(at, at + word.len())[0] == text[at]);
            match word_digit_from(text, at, 1) {
                Some(e) => {
                    lemma_words_exclude_each_other(text, at, d, e);
                },
                None => {},
            }
        }
        if token_at(ExtractionRule::DigitsOrWords, text, at) == Some(d) && !is_decimal_digit(
            text[at],
        ) {
            lemma_number_words(d);
        }
    } else {
        if 1 <= d <= 9 && occurs_at(text, at, number_word(d)) {
            lemma_number_words(d);
        }
    }
}

/// The tokens that start before `end` are the offsets below `end` at which a
/// token starts, each once and by rising offset, each with its digit.
pub proof fn lemma_tokens_before(rule: ExtractionRule, text: Seq<char>, end: int)
    ensures
        forall|k: int|
            0 <= k < tokens_before(rule, text, end).len() ==> {
                let t = #[trigger] tokens_before(rule, text, end)[k];
                &&& 0 <= t.offset < end
                &&& token_at(rule, text, t.offset) == Some(t.digit)
            },
        forall|j: int, k: int|
            0 <= j < k < tokens_before(rule, text, end).len() ==> (#[trigger] tokens_before(
                rule,
                text,
                end,
            )[j]).offset < (#[trigger] tokens_before(rule, text, end)[k]).offset,
        forall|i: int|
            0 <= i < end && (#[trigger] token_at(rule, text, i)) is Some ==> exists|k: int|
                0 <= k < tokens_before(rule, text, end).len() && (#[trigger] tokens_before(
                    rule,
                    text,
                    end,
                )[k]).offset == i,
    decreases end,
{
    if end > 0 {
        lemma_tokens_before(rule, text, end - 1);
        let earlier = tokens_before(rule, text, end - 1);
        let now = tokens_before(rule, text, end);
        assert forall|i: int| 0 <= i < end && (#[trigger] token_at(rule, text, i)) is Some implies exists|
            k: int,
        |
            0 <= k < now.len() && (#[trigger] now[k]).offset == i by {
            if i < end - 1 {
                let k = choose|k: int| 0 <= k < earlier.len() && (#[trigger] earlier[k]).offset == i;
                assert(now[k].offset == i);
            } else {
                assert(now[now.len() - 1].offset == i);
            }
        }
    }
}

/// The tokens of a record are the offsets at which a token starts, each
/// once and by rising offset, each with its digit.
pub proof fn lemma_tokens_of(rule: ExtractionRule, text: Seq<char>)
    ensures
        forall|k: int|
            0 <= k < tokens_of(rule, text).len() ==> {
                let t = #[trigger] tokens_of(rule, text)[k];
                &&& 0 <= t.offset < text.len()
                &&& token_at(rule, text, t.offset) == Some(t.digit)
            },
        forall|j: int, k: int|
            0 <= j < k < tokens_of(rule, text).len() ==> (#[trigger] tokens_of(rule, text)[j]).offset
                < (#[trigger] tokens_of(rule, text)[k]).offset,
        forall|i: int|
            (#[trigger] token_at(rule, text, i)) is Some ==> exists|k: int|
                0 <= k < tokens_of(rule, text).len() && (#[trigger] tokens_of(rule, text)[k]).offset
                    == i,
{
    lemma_tokens_before(rule, text, text.len() as int);
}

/// Whether a token starts at `at` and none starts before it.
pub open spec fn is_first_token(rule: ExtractionRule, text: Seq<char>, at: int) -> bool {
    &&& token_at(rule, text, at) is Some
    &&& forall|i: int| i < at ==> (#[trigger] token_at(rule, text, i)) is None
}

/// Whether a token starts at `at` and none starts after it.
pub open spec fn is_last_token(rule: ExtractionRule, text: Seq<char>, at: int) -> bool {
    &&& token_at(rule, text, at) is Some
    &&& forall|i: int| at < i ==> (#[trigger] token_at(rule, text, i)) is None
}

/// The number of a record is ten times the digit of its first token plus the
/// digit of its last token.
pub proof fn lemma_extraction_first_last(
    rule: ExtractionRule,
    text: Seq<char>,
    first: int,
    last: int,
)
    requires
        is_first_token(rule, text, first),
        is_last_token(rule, text, last),
    ensures
        extraction(rule, text) == Some(
            10 * token_at(rule, text, first)->0 + token_at(rule, text, last)->0,
        ),
{
    lemma_tokens_of(rule, text);
    let tokens = tokens_of(rule, text);
    let kf = choose|k: int| 0 <= k < tokens.len() && (#[trigger] tokens[k]).offset == first;
    let kl = choose|k: int| 0 <= k < tokens.len() && (#[trigger] tokens[k]).offset == last;
    assert(token_at(rule, text, tokens[0].offset) is Some);
    assert(token_at(rule, text, tokens[tokens.len() - 1].offset) is Some);
    assert(kf == 0);
    assert(kl == tokens.len() - 1);
}

/// A record has no number exactly where no token starts in it.
pub proof fn lemma_extraction_absent(rule: ExtractionRule, text: Seq<char>)
    ensures
        extraction(rule, text) is None <==> forall|i: int|
            (#[trigger] token_at(rule, text, i)) is None,
{
    lemma_tokens_of(rule, text);
    let tokens = tokens_of(rule, text);
    if tokens.len() > 0 {
        assert(token_at(rule, text, tokens[0].offset) is Some);
    }
}

/// A number read from a record lies between 0 and 99.
pub proof fn lemma_extraction_range(rule: ExtractionRule, text: Seq<char>)
    ensures
        extraction(rule, text) matches Some(n) ==> 0 <= n <= 99,
{
    lemma_tokens_of(rule, text);
    let tokens = tokens_of(rule, text);
    if tokens.len() > 0 {
        lemma_token_digit_range(rule, text, tokens[0].offset);
        lemma_token_digit_range(rule, text, tokens[tokens.len() - 1].offset);
    }
}

/// The number read from a record depends on the record's text alone: two
/// readings of the same text by the same rule give the same result.
pub proof fn lemma_extraction_repeatable(
    rule: ExtractionRule,
    text: Seq<char>,
    once: Option<usize>,
    again: Option<usize>,
)
    requires
        as_number(once) == extraction(rule, text),
        as_number(again) == extraction(rule, text),
    ensures
        once == again,
{
}

/// The decimal digits that `text` holds, in order.
pub open spec fn digits_of(text: Seq<char>) -> Seq<char> {
    text.filter(|c: char| is_decimal_digit(c))
}

/// Under the rule of digits, the tokens before `end` carry, one for one and
/// in order, the values of the decimal digits among the first `end`
/// characters.
pub proof fn lemma_digit_tokens_before(text: Seq<char>, end: int)
    requires
        0 <= end <= text.len(),
    ensures
        tokens_before(ExtractionRule::Digits, text, end).len() == digits_of(text.take(end)).len(),
        forall|k: int|
            0 <= k < digits_of(text.take(end)).len() ==> (#[trigger] tokens_before(
                ExtractionRule::Digits,
                text,
                end,
            )[k]).digit == decimal_value(digits_of(text.take(end))[k]),
    decreases end,
{
    reveal(Seq::filter);
    if end > 0 {
        lemma_digit_tokens_before(text, end - 1);
        assert(text.take(end).drop_last() =~= text.take(end - 1));
        assert(text.take(end).last() == text[end - 1]);
    }
}

/// A record that holds the decimal digits `d1 .. dn`, in this order and
/// among any other characters, reads under the rule of digits as ten times
/// `d1` plus `dn`; a record without a decimal digit has no number.
pub proof fn lemma_digit_rule(text: Seq<char>)
    ensures
        extraction(ExtractionRule::Digits, text) == if digits_of(text).len() == 0 {
            None
        } else {
            Some(10 * decimal_value(digits_of(text).first()) + decimal_value(digits_of(text).last()))
        },
{
    lemma_digit_tokens_before(text, text.len() as int);
    assert(text.take(text.len() as int) =~= text);
}

} // verus!
