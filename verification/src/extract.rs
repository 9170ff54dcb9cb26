//! Reading a number out of a record.
//!
//! A record holds tokens: places where a digit stands, written as a decimal
//! digit or, under the wider rule, spelled out as one of the words "one" to
//! "nine". The number of a record is made of its first and its last token.

use vstd::prelude::*;
use crate::text::{chars_of, decimal_value, is_decimal_digit};

verus! {

/// Which tokens a record is searched for.
#[derive(Clone, Copy, Debug, PartialEq, Eq, Structural)]
pub enum ExtractionRule {
    /// Decimal digits only.
    Digits,
    /// Decimal digits and the words "one" to "nine".
    DigitsOrWords,
}

/// A digit found in a record, with the offset of its first character,
/// counted in characters from the start of the record.
#[derive(Clone, Copy, Debug, PartialEq, Eq, Structural)]
pub struct Token {
    pub offset: usize,
    pub digit: u8,
}

/// A token as the contracts speak of it: offset and digit as numbers.
pub struct TokenModel {
    pub offset: int,
    pub digit: int,
}

impl View for Token {
    type V = TokenModel;

    open spec fn view(&self) -> TokenModel {
        TokenModel { offset: self.offset as int, digit: self.digit as int }
    }
}

/// The models of `tokens`, in the same order.
pub open spec fn token_models(tokens: Seq<Token>) -> Seq<TokenModel> {
    tokens.map_values(|t: Token| t@)
}

/// The word for the digit `d`, for `d` from 1 to 9; empty for any other `d`.
pub open spec fn number_word(d: int) -> Seq<char> {
    if d == 1 {
        "one"@
    } else if d == 2 {
        "two"@
    } else if d == 3 {
        "three"@
    } else if d == 4 {
        "four"@
    } else if d == 5 {
        "five"@
    } else if d == 6 {
        "six"@
    } else if d == 7 {
        "seven"@
    } else if d == 8 {
        "eight"@
    } else if d == 9 {
        "nine"@
    } else {
        Seq::empty()
    }
}

/// Whether `word` stands in `text` with its first character at offset `at`.
pub open spec fn occurs_at(text: Seq<char>, at: int, word: Seq<char>) -> bool {
    &&& 0 <= at
    &&& at + word.len() <= text.len()
    &&& text.subrange(at, at + word.len()) == word
}

/// The least digit from `from` to 9 whose word stands in `text` at offset
/// `at`, if there is one.
pub open spec fn word_digit_from(text: Seq<char>, at: int, from: int) -> Option<int>
    decreases 10 - from,
{
    if from < 1 || from > 9 {
        None
    } else if occurs_at(text, at, number_word(from)) {
        Some(from)
    } else {
        word_digit_from(text, at, from + 1)
    }
}

/// The digit of the token that starts at offset `at` of `text`, if one
/// starts there.
pub open spec fn token_at(rule: ExtractionRule, text: Seq<char>, at: int) -> Option<int> {
    if at < 0 || at >= text.len() {
        None
    } else if is_decimal_digit(text[at]) {
        Some(decimal_value(text[at]))
    } else if rule == ExtractionRule::DigitsOrWords {
        word_digit_from(text, at, 1)
    } else {
        None
    }
}

/// The tokens that start before offset `end` of `text`, by rising offset.
pub open spec fn tokens_before(rule: ExtractionRule, text: Seq<char>, end: int) -> Seq<
    TokenModel,
>
    decreases end,
{
    if end <= 0 {
        Seq::empty()
    } else {
        let earlier = tokens_before(rule, text, end - 1);
        match token_at(rule, text, end - 1) {
            Some(d) => earlier.push(TokenModel { offset: end - 1, digit: d }),
            None => earlier,
        }
    }
}

/// All tokens of `text`, by rising offset.
pub open spec fn tokens_of(rule: ExtractionRule, text: Seq<char>) -> Seq<TokenModel> {
    tokens_before(rule, text, text.len() as int)
}

/// The number made of the first and the last of `tokens`: ten times the
/// first digit plus the last. There is none where there is no token.
pub open spec fn number_of_tokens(tokens: Seq<TokenModel>) -> Option<int> {
    if tokens.len() == 0 {
        None
    } else {
        Some(10 * tokens.first().digit + tokens.last().digit)
    }
}

/// The number that `rule` reads out of the record `text`.
pub open spec fn extraction(rule: ExtractionRule, text: Seq<char>) -> Option<int> {
    number_of_tokens(tokens_of(rule, text))
}

/// An extracted number as the contracts speak of it.
pub open spec fn as_number(number: Option<usize>) -> Option<int> {
    match number {
        Some(n) => Some(n as int),
        None => None,
    }
}

/// Every digit of a token is a single decimal digit.
pub proof fn lemma_token_digit_range(rule: ExtractionRule, text: Seq<char>, at: int)
    ensures
        token_at(rule, text, at) matches Some(d) ==> 0 <= d <= 9,
{
    lemma_word_digit_from(text, at, 1);
}

/// What `word_digit_from` finds is a digit from `from` to 9 whose word
/// stands at `at`, and no word of a smaller digit from `from` on stands
/// there; it finds nothing only where none of these words stands there.
pub proof fn lemma_word_digit_from(text: Seq<char>, at: int, from: int)
    requires
        1 <= from,
    ensures
        match word_digit_from(text, at, from) {
            Some(d) => {
                &&& from <= d <= 9
                &&& occurs_at(text, at, number_word(d))
                &&& forall|e: int| from <= e < d ==> !occurs_at(text, at, number_word(e))
            },
            None => forall|e: int| from <= e <= 9 ==> !occurs_at(text, at, number_word(e)),
        },
    decreases 10 - from,
{
    if from <= 9 && !occurs_at(text, at, number_word(from)) {
        lemma_word_digit_from(text, at, from + 1);
    }
}

/// The nine number words: the word for the digit `d` stands at index `d - 1`.
fn number_words() -> (words: Vec<Vec<char>>)
    ensures
        words@.len() == 9,
        forall|d: int| 1 <= d <= 9 ==> (#[trigger] words@[d - 1])@ == number_word(d),
{
    let mut words: Vec<Vec<char>> = Vec::new();
    words.push(chars_of("one"));
    words.push(chars_of("two"));
    words.push(chars_of("three"));
    words.push(chars_of("four"));
    words.push(chars_of("five"));
    words.push(chars_of("six"));
    words.push(chars_of("seven"));
    words.push(chars_of("eight"));
    words.push(chars_of("nine"));
    words
}

/// Whether `word` stands in `text` at offset `at`.
fn occurs_here(text: &Vec<char>, at: usize, word: &Vec<char>) -> (found: bool)
    ensures
        found == occurs_at(text@, at as int, word@),
{
    if at > text.len() || word.len() > text.len() - at {
        return false;
    }
    let mut k: usize = 0;
    while k < word.len()
        invariant
            k <= word.len(),
            at + word.len() <= text.len(),
            forall|j: int| 0 <= j < k ==> text@[at + j] == word@[j],
        decreases word.len() - k,
    {
        if text[at + k] != word[k] {
            proof {
                let part = text@.subrange(at as int, at + word@.len());
                assert(part[k as int] == text@[at + k]);
            }
            return false;
        }
        k += 1;
    }
    assert(text@.subrange(at as int, at + word@.len()) =~= word@);
    true
}

/// The digit of the token that starts at offset `at` of `text`, if one
/// starts there. `words` is the table that `number_words` builds.
fn token_here(rule: ExtractionRule, text: &Vec<char>, words: &Vec<Vec<char>>, at: usize) -> (found:
    Option<u8>)
    requires
        at < text.len(),
        words@.len() == 9,
        forall|d: int| 1 <= d <= 9 ==> (#[trigger] words@[d - 1])@ == number_word(d),
    ensures
        found matches Some(d) ==> token_at(rule, text@, at as int) == Some(d as int),
        found is None ==> token_at(rule, text@, at as int) is None,
{
    let c = text[at];
    if c >= '0' && c <= '9' {
        return Some((c as u32 - '0' as u32) as u8);
    }
    match rule {
        ExtractionRule::Digits => None,
        ExtractionRule::DigitsOrWords => {
            let mut d: u8 = 1;
            while d <= 9
                invariant
                    1 <= d <= 10,
                    at < text.len(),
                    !is_decimal_digit(text@[at as int]),
                    rule == ExtractionRule::DigitsOrWords,
                    words@.len() == 9,
                    forall|e: int| 1 <= e <= 9 ==> (#[trigger] words@[e - 1])@ == number_word(e),
                    word_digit_from(text@, at as int, 1) == word_digit_from(
                        text@,
                        at as int,
                        d as int,
                    ),
                decreases 10 - d,
            {
                let word = &words[(d - 1) as usize];
                assert(word@ == number_word(d as int));
                if occurs_here(text, at, word) {
                    return Some(d);
                }
                d += 1;
            }
            None
        },
    }
}

/// All tokens of `line` under `rule`, by rising offset.
pub fn scan_tokens(rule: ExtractionRule, line: &str) -> (tokens: Vec<Token>)
    ensures
        token_models(tokens@) == tokens_of(rule, line@),
{
    let text = chars_of(line);
    let words = number_words();
    let mut tokens: Vec<Token> = Vec::new();
    let mut at: usize = 0;
    while at < text.len()
        invariant
            at <= text.len(),
            text@ == line@,
            words@.len() == 9,
            forall|d: int| 1 <= d <= 9 ==> (#[trigger] words@[d - 1])@ == number_word(d),
            token_models(tokens@) == tokens_before(rule, text@, at as int),
        decreases text.len() - at,
    {
        match token_here(rule, &text, &words, at) {
            Some(digit) => {
                let ghost earlier = tokens@;
                tokens.push(Token { offset: at, digit });
                assert(token_models(tokens@) =~= token_models(earlier).push(
                    TokenModel { offset: at as int, digit: digit as int },
                ));
            },
            None => {},
        }
        at += 1;
    }
    tokens
}

/// The number that `rule` reads out of `line`: ten times the digit of its
/// first token plus the digit of its last, or nothing where `line` holds no
/// token.
pub fn extract(rule: ExtractionRule, line: &str) -> (number: Option<usize>)
    ensures
        as_number(number) == extraction(rule, line@),
{
    let tokens = scan_tokens(rule, line);
    if tokens.len() == 0 {
        None
    } else {
        let first = tokens[0].digit;
        let last = tokens[tokens.len() - 1].digit;
        Some(10 * (first as usize) + (last as usize))
    }
}

/// Reads a record by the rule of digits alone.
pub fn process_line_digits(line: &str) -> (number: Option<usize>)
    ensures
        as_number(number) == extraction(ExtractionRule::Digits, line@),
{
    extract(ExtractionRule::Digits, line)
}

/// Reads a record by the rule of digits and number words.
pub fn process_line(line: &str) -> (number: Option<usize>)
    ensures
        as_number(number) == extraction(ExtractionRule::DigitsOrWords, line@),
{
    extract(ExtractionRule::DigitsOrWords, line)
}

} // verus!
