//! What holds of the records that a text is cut into.

use vstd::prelude::*;
use crate::assembler::{
    complete_records, lemma_records_append, line_len, newline_free, trailing_fragment,
};
use crate::text::{lemma_span_before, lemma_span_before_is, split};

verus! {

/// The text that holds `records` in full: each record followed by a
/// newline, one after the other.
pub open spec fn terminated(records: Seq<Seq<char>>) -> Seq<char>
    decreases records.len(),
{
    if records.len() == 0 {
        Seq::empty()
    } else {
        records.first() + seq!['\n'] + terminated(records.drop_first())
    }
}

/// The fragment that waits in an assembler that has taken in `chunks`, one
/// by one, starting with nothing.
pub open spec fn waiting_after(chunks: Seq<Seq<char>>) -> Seq<char>
    decreases chunks.len(),
{
    if chunks.len() == 0 {
        Seq::empty()
    } else {
        trailing_fragment(waiting_after(chunks.drop_last()) + chunks.last())
    }
}

/// The records that an assembler has given out after taking in `chunks`,
/// one by one, starting with nothing.
pub open spec fn emitted_after(chunks: Seq<Seq<char>>) -> Seq<Seq<char>>
    decreases chunks.len(),
{
    if chunks.len() == 0 {
        Seq::empty()
    } else {
        emitted_after(chunks.drop_last()) + complete_records(
            waiting_after(chunks.drop_last()) + chunks.last(),
        )
    }
}

/// Cutting loses nothing but the newlines' role: the records, each with its
/// newline put back, followed by the fragment, are the text again. No record
/// and no fragment holds a newline.
pub proof fn lemma_split_restores_text(text: Seq<char>)
    ensures
        terminated(complete_records(text)) + trailing_fragment(text) == text,
        forall|k: int|
            0 <= k < complete_records(text).len() ==> newline_free(
                #[trigger] complete_records(text)[k],
            ),
        newline_free(trailing_fragment(text)),
    decreases text.len(),
{
    lemma_span_before(text, '\n');
    let n = line_len(text);
    if n < text.len() {
        let rest = text.skip(n + 1);
        lemma_split_restores_text(rest);
        let records = complete_records(text);
        assert(records.first() == text.take(n));
        assert(records.drop_first() =~= complete_records(rest));
        assert(text.take(n) + seq!['\n'] + (terminated(complete_records(rest))
            + trailing_fragment(rest)) =~= text);
        assert(terminated(records) + trailing_fragment(text) =~= text.take(n) + seq!['\n'] + (
        terminated(complete_records(rest)) + trailing_fragment(rest)));
        assert forall|k: int| 0 <= k < records.len() implies newline_free(
            #[trigger] records[k],
        ) by {
            if k > 0 {
                assert(records[k] == complete_records(rest)[k - 1]);
            }
        }
    } else {
        assert(terminated(complete_records(text)) + trailing_fragment(text) =~= text);
    }
}

/// There is one way only to cut a text: records and a fragment without
/// newlines are what the text made of them is cut into.
pub proof fn lemma_split_is_unique(records: Seq<Seq<char>>, fragment: Seq<char>)
    requires
        forall|k: int| 0 <= k < records.len() ==> newline_free(#[trigger] records[k]),
        newline_free(fragment),
    ensures
        complete_records(terminated(records) + fragment) == records,
        trailing_fragment(terminated(records) + fragment) == fragment,
    decreases records.len(),
{
    let text = terminated(records) + fragment;
    if records.len() == 0 {
        assert(text =~= fragment);
        lemma_span_before(fragment, '\n');
        if line_len(fragment) < fragment.len() {
            assert(fragment[line_len(fragment)] == '\n');
        }
        assert(complete_records(text) =~= records);
    } else {
        let first = records.first();
        let others = records.drop_first();
        let n = first.len() as int;
        assert(newline_free(first));
        assert forall|i: int| 0 <= i < n implies #[trigger] text[i] != '\n' by {
            assert(text[i] == first[i]);
        }
        assert(text[n] == '\n');
        lemma_span_before_is(text, '\n', n);
        assert(text.take(n) =~= first);
        assert(text.skip(n + 1) =~= terminated(others) + fragment);
        assert forall|k: int| 0 <= k < others.len() implies newline_free(#[trigger] others[k]) by {
            assert(others[k] == records[k + 1]);
        }
        lemma_split_is_unique(others, fragment);
        assert(complete_records(text) =~= records);
    }
}

/// An assembler that takes in a text chunk by chunk gives out the records
/// of the whole text, and keeps the fragment of the whole text.
pub proof fn lemma_streaming(chunks: Seq<Seq<char>>)
    ensures
        emitted_after(chunks) == complete_records(chunks.flatten()),
        waiting_after(chunks) == trailing_fragment(chunks.flatten()),
    decreases chunks.len(),
{
    if chunks.len() == 0 {
        assert(chunks.flatten() =~= Seq::<char>::empty());
    } else {
        let earlier = chunks.drop_last();
        lemma_streaming(earlier);
        earlier.lemma_flatten_push(chunks.last());
        assert(earlier.push(chunks.last()) =~= chunks);
        lemma_records_append(earlier.flatten(), chunks.last());
    }
}

/// Where the chunk boundaries fall makes no difference: two ways to spread
/// the same text over chunks give the same records and leave the same
/// fragment.
pub proof fn lemma_chunk_boundaries_do_not_matter(one: Seq<Seq<char>>, other: Seq<Seq<char>>)
    requires
        one.flatten() == other.flatten(),
    ensures
        emitted_after(one) == emitted_after(other),
        waiting_after(one) == waiting_after(other),
{
    lemma_streaming(one);
    lemma_streaming(other);
}

/// A text without a last newline loses what follows its last newline: its
/// records are those of the text up to and with that newline.
pub proof fn lemma_fragment_is_dropped(text: Seq<char>)
    ensures
        complete_records(text) == complete_records(terminated(complete_records(text))),
{
    lemma_split_restores_text(text);
    lemma_split_is_unique(complete_records(text), Seq::empty());
    assert(terminated(complete_records(text)) + Seq::<char>::empty() =~= terminated(
        complete_records(text),
    ));
}

/// The records and the fragment of a text are the pieces into which the
/// newlines cut it: the last piece is the fragment, the others are the
/// records.
pub proof fn lemma_records_are_split_pieces(text: Seq<char>)
    ensures
        complete_records(text) == split(text, '\n').drop_last(),
        trailing_fragment(text) == split(text, '\n').last(),
    decreases text.len(),
{
    lemma_span_before(text, '\n');
    let n = line_len(text);
    if n < text.len() {
        lemma_records_are_split_pieces(text.skip(n + 1));
        assert(split(text, '\n').drop_last() =~= seq![text.take(n)] + split(
            text.skip(n + 1),
            '\n',
        ).drop_last());
    } else {
        assert(split(text, '\n').drop_last() =~= Seq::<Seq<char>>::empty());
    }
}

} // verus!
