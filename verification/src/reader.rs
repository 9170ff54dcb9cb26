//! Decisions of the readers: how large a chunk is and when the chunks end,
//! and which lines of a text that was read whole are handed on.

use vstd::prelude::*;
use vstd::string::StringExecFns;
use vstd::string::StrSliceExecFns;
use crate::assembler::record_texts;
use crate::text::{chars_of, lemma_span_before_is, span_before};

verus! {

/// The largest number of bytes that one chunk holds.
pub const BUF_SIZE: usize = 16;

/// What the reader does after one attempt to read a chunk.
#[derive(Clone, Copy, Debug, PartialEq, Eq, Structural)]
pub enum ReadStep {
    /// Hand on the bytes that were read and read again.
    EmitAndContinue,
    /// Hand on the bytes that were read, then close the output.
    EmitAndStop,
    /// Hand on nothing and close the output.
    Stop,
}

/// Whether a read of `read` bytes filled the chunk.
pub open spec fn is_full_read(read: usize) -> bool {
    read >= BUF_SIZE
}

/// Decides what follows one read attempt. `outcome` is the number of bytes
/// that the read delivered, or `None` where the read failed.
///
/// A failed read ends the stream without a chunk. A read that delivered
/// fewer bytes than a chunk can hold is taken for the end of the input: its
/// bytes are handed on (an empty chunk too) and the stream ends.
pub fn after_read(outcome: Option<usize>) -> (step: ReadStep)
    ensures
        step == match outcome {
            None => ReadStep::Stop,
            Some(read) => if is_full_read(read) {
                ReadStep::EmitAndContinue
            } else {
                ReadStep::EmitAndStop
            },
        },
{
    match outcome {
        None => ReadStep::Stop,
        Some(read) => if read < BUF_SIZE {
            ReadStep::EmitAndStop
        } else {
            ReadStep::EmitAndContinue
        },
    }
}

/// `line` without the carriage return at its end, if it ends in one.
pub open spec fn without_line_end(line: Seq<char>) -> Seq<char> {
    if line.len() > 0 && line.last() == '\r' {
        line.drop_last()
    } else {
        line
    }
}

/// The lines of `text` that are not empty, in order. A line ends at a
/// newline, and a carriage return just before that newline belongs to the
/// line's end; what follows the last newline is a line too.
pub open spec fn non_empty_lines(text: Seq<char>) -> Seq<Seq<char>>
    decreases text.len(),
{
    let n = span_before(text, '\n');
    if 0 <= n < text.len() {
        let line = without_line_end(text.take(n));
        let others = non_empty_lines(text.skip(n + 1));
        if line.len() > 0 {
            seq![line] + others
        } else {
            others
        }
    } else if text.len() > 0 {
        seq![text]
    } else {
        Seq::empty()
    }
}

/// The lines of `contents` that are handed on: those that are not empty.
pub fn input_lines(contents: &str) -> (lines: Vec<String>)
    ensures
        record_texts(lines@) == non_empty_lines(contents@),
{
    let text = chars_of(contents);
    let mut lines: Vec<String> = Vec::new();
    let mut start: usize = 0;
    let mut at: usize = 0;
    assert(text@.skip(0) =~= text@);
    assert(record_texts(lines@) =~= Seq::<Seq<char>>::empty());
    while at < text.len()
        invariant
            start <= at <= text.len(),
            text@ == contents@,
            forall|i: int| start <= i < at ==> #[trigger] text@[i] != '\n',
            non_empty_lines(text@) == record_texts(lines@) + non_empty_lines(
                text@.skip(start as int),
            ),
        decreases text.len() - at,
    {
        if text[at] == '\n' {
            let end: usize = if at > start && text[at - 1] == '\r' {
                at - 1
            } else {
                at
            };
            proof {
                let rest = text@.skip(start as int);
                lemma_span_before_is(rest, '\n', at - start);
                assert(rest.take(at - start) =~= text@.subrange(start as int, at as int));
                assert(rest.skip(at - start + 1) =~= text@.skip(at + 1));
                assert(without_line_end(text@.subrange(start as int, at as int))
                    =~= text@.subrange(start as int, end as int));
            }
            if end > start {
                let line = String::from_str(contents.substring_char(start, end));
                assert(record_texts(lines@.push(line)) =~= record_texts(lines@) + seq![line@]);
                lines.push(line);
            } else {
                assert(record_texts(lines@) + Seq::<Seq<char>>::empty() =~= record_texts(
                    lines@,
                ));
            }
            start = at + 1;
        }
        at += 1;
    }
    proof {
        lemma_span_before_is(text@.skip(start as int), '\n', text@.len() - start);
        assert(text@.subrange(start as int, text@.len() as int) =~= text@.skip(start as int));
        assert(record_texts(lines@) + Seq::<Seq<char>>::empty() =~= record_texts(lines@));
    }
    if start < text.len() {
        let line = String::from_str(contents.substring_char(start, text.len()));
        assert(record_texts(lines@.push(line)) =~= record_texts(lines@) + seq![line@]);
        lines.push(line);
    }
    lines
}

} // verus!
