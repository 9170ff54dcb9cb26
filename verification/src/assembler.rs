//! Cutting a stream of text chunks into records.
//!
//! A record is what stands before a newline; the newline is not part of it.
//! What follows the last newline is a fragment: it waits for more text, and
//! is dropped when the stream ends.

use vstd::prelude::*;
use vstd::string::StringExecFns;
use vstd::string::StrSliceExecFns;
use crate::text::{chars_of, lemma_span_before, lemma_span_before_is, span_before};

verus! {

/// The number of characters of `text` that stand before its first newline;
/// the length of `text` where it holds no newline.
pub open spec fn line_len(text: Seq<char>) -> int {
    span_before(text, '\n')
}

/// Whether `text` holds no newline.
pub open spec fn newline_free(text: Seq<char>) -> bool {
    forall|i: int| 0 <= i < text.len() ==> #[trigger] text[i] != '\n'
}

/// The records that `text` holds in full, in order: each piece of `text`
/// that a newline ends.
pub open spec fn complete_records(text: Seq<char>) -> Seq<Seq<char>>
    decreases text.len(),
{
    let n = line_len(text);
    if 0 <= n < text.len() {
        seq![text.take(n)] + complete_records(text.skip(n + 1))
    } else {
        Seq::empty()
    }
}

/// What stands in `text` after its last newline; all of `text` where it
/// holds no newline.
pub open spec fn trailing_fragment(text: Seq<char>) -> Seq<char>
    decreases text.len(),
{
    let n = line_len(text);
    if 0 <= n < text.len() {
        trailing_fragment(text.skip(n + 1))
    } else {
        text
    }
}

/// The texts of `records`, in the same order.
pub open spec fn record_texts(records: Seq<String>) -> Seq<Seq<char>> {
    records.map_values(|r: String| r@)
}

/// A first newline stays the first when text is added behind it.
pub proof fn lemma_line_len_append(head: Seq<char>, tail: Seq<char>)
    requires
        line_len(head) < head.len(),
    ensures
        line_len(head + tail) == line_len(head),
{
    lemma_span_before(head, '\n');
    let n = line_len(head);
    let whole = head + tail;
    assert forall|i: int| 0 <= i < n implies #[trigger] whole[i] != '\n' by {
        assert(whole[i] == head[i]);
    }
    assert(whole[n] == head[n]);
    lemma_span_before_is(whole, '\n', n);
}

/// Text that arrives later is cut as if it had arrived together with the
/// fragment that was waiting: the records of `head + tail` are those of
/// `head`, then those of the fragment of `head` followed by `tail`.
pub proof fn lemma_records_append(head: Seq<char>, tail: Seq<char>)
    ensures
        complete_records(head + tail) == complete_records(head) + complete_records(
            trailing_fragment(head) + tail,
        ),
        trailing_fragment(head + tail) == trailing_fragment(trailing_fragment(head) + tail),
    decreases head.len(),
{
    lemma_span_before(head, '\n');
    let n = line_len(head);
    if n < head.len() {
        let whole = head + tail;
        lemma_line_len_append(head, tail);
        assert(whole.take(n) =~= head.take(n));
        assert(whole.skip(n + 1) =~= head.skip(n + 1) + tail);
        lemma_records_append(head.skip(n + 1), tail);
        assert(complete_records(whole) =~= complete_records(head) + complete_records(
            trailing_fragment(head) + tail,
        ));
    } else {
        assert(complete_records(head) + complete_records(trailing_fragment(head) + tail)
            =~= complete_records(head + tail));
    }
}

/// The texts of `chunks`, in the same order.
pub open spec fn chunk_texts(chunks: Seq<String>) -> Seq<Seq<char>> {
    chunks.map_values(|c: String| c@)
}

/// Gathers chunks of text and gives out the records as they become
/// complete. Its view is the fragment that waits for its newline.
pub struct LineAssembler {
    buffer: String,
}

impl View for LineAssembler {
    type V = Seq<char>;

    closed spec fn view(&self) -> Seq<char> {
        self.buffer@
    }
}

impl LineAssembler {
    /// An assembler with nothing waiting.
    pub fn new() -> (assembler: LineAssembler)
        ensures
            assembler@ == Seq::<char>::empty(),
    {
        LineAssembler { buffer: String::new() }
    }

    /// Takes in one chunk. Returns the records that the chunk completes, in
    /// order; what follows the last newline waits for the next chunk.
    pub fn push_chunk(&mut self, chunk: &str) -> (records: Vec<String>)
        ensures
            record_texts(records@) == complete_records(old(self)@ + chunk@),
            final(self)@ == trailing_fragment(old(self)@ + chunk@),
    {
        self.buffer.append(chunk);
        let text = chars_of(self.buffer.as_str());
        let mut records: Vec<String> = Vec::new();
        let mut start: usize = 0;
        let mut at: usize = 0;
        assert(text@.skip(0) =~= text@);
        while at < text.len()
            invariant
                start <= at <= text.len(),
                text@ == self.buffer@,
                forall|i: int| start <= i < at ==> #[trigger] text@[i] != '\n',
                complete_records(text@) == record_texts(records@) + complete_records(
                    text@.skip(start as int),
                ),
                trailing_fragment(text@) == trailing_fragment(text@.skip(start as int)),
            decreases text.len() - at,
        {
            if text[at] == '\n' {
                let record = String::from_str(self.buffer.as_str().substring_char(start, at));
                proof {
                    let rest = text@.skip(start as int);
                    lemma_span_before_is(rest, '\n', at - start);
                    assert(rest.take(at - start) =~= text@.subrange(start as int, at as int));
                    assert(rest.skip(at - start + 1) =~= text@.skip(at + 1));
                    assert(record_texts(records@.push(record)) =~= record_texts(records@) + seq![
                        record@,
                    ]);
                }
                records.push(record);
                start = at + 1;
            }
            at += 1;
        }
        proof {
            lemma_span_before_is(text@.skip(start as int), '\n', text@.len() - start);
            assert(record_texts(records@) + Seq::<Seq<char>>::empty() =~= record_texts(records@));
            assert(text@.subrange(start as int, text@.len() as int) =~= text@.skip(start as int));
        }
        let rest = String::from_str(self.buffer.as_str().substring_char(start, text.len()));
        self.buffer = rest;
        records
    }

    /// Ends the stream. The fragment that was still waiting for its newline
    /// is given back to be dropped: it is no record.
    pub fn finish(self) -> (dropped: String)
        ensures
            dropped@ == self@,
    {
        self.buffer
    }
}

/// Cuts a whole stream of chunks into its records: those that the text of
/// all chunks, one after the other, holds in full. How the text is spread
/// over the chunks makes no difference, and what follows the last newline is
/// dropped.
pub fn chunker(chunks: &Vec<String>) -> (records: Vec<String>)
    ensures
        record_texts(records@) == complete_records(chunk_texts(chunks@).flatten()),
{
    let mut assembler = LineAssembler::new();
    let mut records: Vec<String> = Vec::new();
    let mut i: usize = 0;
    assert(chunk_texts(chunks@).take(0) =~= Seq::<Seq<char>>::empty());
    assert(record_texts(records@) =~= Seq::<Seq<char>>::empty());
    while i < chunks.len()
        invariant
            i <= chunks.len(),
            record_texts(records@) == complete_records(
                chunk_texts(chunks@).take(i as int).flatten(),
            ),
            assembler@ == trailing_fragment(chunk_texts(chunks@).take(i as int).flatten()),
        decreases chunks.len() - i,
    {
        let ghost before = records@;
        let ghost seen = chunk_texts(chunks@).take(i as int);
        let mut emitted = assembler.push_chunk(chunks[i].as_str());
        proof {
            assert(chunk_texts(chunks@).take(i + 1) =~= seen.push(chunks@[i as int]@));
            seen.lemma_flatten_push(chunks@[i as int]@);
            lemma_records_append(seen.flatten(), chunks@[i as int]@);
            assert(record_texts(before + emitted@) =~= record_texts(before) + record_texts(
                emitted@,
            ));
        }
        records.append(&mut emitted);
        i += 1;
    }
    assert(chunk_texts(chunks@).take(chunks@.len() as int) =~= chunk_texts(chunks@));
    let _ = assembler.finish();
    records
}

} // verus!
