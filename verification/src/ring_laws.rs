//! What holds of completions and of the rings themselves.

use crate::pipeline::result_bytes;
use crate::ring::{
    accepted_bytes, accepted_len, expected_bytes, lemma_accepted_len, Completion, PipelineError,
    Ring, RingOptions,
};
use crate::ring_traffic::{all_written, first_refused};
use crate::text::{decimal, signed_decimal};
use vstd::prelude::*;

verus! {

/// A write that is refused is told as failed exactly if the ring reports an error, with
/// its place in the file, and as incomplete otherwise, with the bytes that were asked
/// for; either way with what the ring reports and the ring that it is.
pub proof fn law_refusal_says_what_was_reported(c: Completion, ring: Ring)
    ensures
        c.accepted() <==> c.result == c.expected,
        match c.refusal(ring) {
            PipelineError::WriteFailed { ring: told, offset, result } => c.result < 0 && told
                == ring && offset == c.offset && result == c.result,
            PipelineError::WriteIncomplete { ring: told, expected, result } => c.result >= 0
                && told == ring && expected == c.expected && result == c.result,
            _ => false,
        },
{
}

/// The completions that count are those before the first one that was not written as
/// requested, and they count for as many bytes as the ring says it has written.
pub proof fn law_accepted_front_counts(batch: Seq<Completion>)
    ensures
        accepted_len(batch) == batch.len() <==> all_written(batch),
        accepted_len(batch) < batch.len() ==> first_refused(batch, accepted_len(batch) as int),
        accepted_len(batch) <= batch.len(),
        accepted_bytes(batch) == result_bytes(batch.take(accepted_len(batch) as int)),
{
    lemma_accepted_len(batch);
    let n = accepted_len(batch) as int;
    assert(forall|k: int| 0 <= k < n ==> (#[trigger] batch[k]).accepted());
    if n < batch.len() {
        assert(!batch[n].accepted());
    }
    let front = batch.take(n);
    assert forall|k: int| 0 <= k < front.len() implies (#[trigger] front[k]).result
        == front[k].expected by {
        assert(front[k] == batch[k]);
    }
    lemma_written_bytes(front);
}

proof fn lemma_written_bytes(batch: Seq<Completion>)
    requires
        all_written(batch),
    ensures
        expected_bytes(batch) == result_bytes(batch),
    decreases batch.len(),
{
    if batch.len() > 0 {
        let front = batch.drop_last();
        assert forall|k: int| 0 <= k < front.len() implies (#[trigger] front[k]).result
            == front[k].expected by {
            assert(front[k] == batch[k]);
        }
        lemma_written_bytes(front);
        assert(batch[batch.len() - 1].result == batch[batch.len() - 1].expected);
    }
}

/// One more completion adds what it was requested for to what was requested, and what the
/// ring says of it to what was written.
pub proof fn law_completions_are_added_up(batch: Seq<Completion>, c: Completion)
    ensures
        expected_bytes(batch.push(c)) == expected_bytes(batch) + c.expected,
        result_bytes(batch.push(c)) == result_bytes(batch) + c.result,
        expected_bytes(Seq::empty()) == 0,
        result_bytes(Seq::empty()) == 0,
{
    assert(batch.push(c).drop_last() =~= batch);
}

/// Both rings are for writing, hold as many requests as they are opened for, wait a
/// second, and are bound to no node. The main ring works in batches of its size, and the
/// final ring works at once.
pub proof fn law_rings_are_opened_for_writing(depth: int)
    requires
        0 <= depth <= i32::MAX,
    ensures
        ({
            let main = RingOptions::main_ring(depth);
            let last = RingOptions::final_ring(depth);
            &&& !main.for_read && !last.for_read
            &&& main.entries == depth && last.entries == depth
            &&& main.io_depth == -depth && last.io_depth == 0
            &&& main.timeout_ms == 1000 && last.timeout_ms == 1000
            &&& main.numa == -1 && last.numa == -1
            &&& main.flags == 0 && last.flags == 0
        }),
{
}

/// The text ends with the words.
pub open spec fn ends_with(text: Seq<char>, words: Seq<char>) -> bool {
    words.len() <= text.len() && text.skip(text.len() - words.len()) == words
}

proof fn lemma_begins_and_ends(front: Seq<char>, middle: Seq<char>, back: Seq<char>)
    ensures
        front.is_prefix_of(front + middle + back),
        ends_with(front + middle + back, back),
{
    let text = front + middle + back;
    assert(text.subrange(0, front.len() as int) =~= front);
    assert(text.skip(text.len() - back.len()) =~= back);
}

/// What the user is told of a chunk that is too large begins with its size and ends with
/// the size of a block.
pub proof fn law_chunk_is_told_before_its_block(
    chunk_size: usize,
    iov_size: usize,
    block_size: usize,
)
    ensures
        ({
            let text = PipelineError::ChunkTooLarge { chunk_size, iov_size, block_size }.text();
            &&& ("Chunk size "@ + decimal(chunk_size as int)
                + " exceeds iov_size "@).is_prefix_of(text)
            &&& ends_with(text, decimal(block_size as int) + ")"@)
        }),
{
    let front = "Chunk size "@ + decimal(chunk_size as int) + " exceeds iov_size "@;
    let middle = decimal(iov_size as int) + ". This should not happen (block_size = "@;
    let back = decimal(block_size as int) + ")"@;
    lemma_begins_and_ends(front, middle, back);
    assert(PipelineError::ChunkTooLarge { chunk_size, iov_size, block_size }.text() =~= front
        + middle + back);
}

/// What the user is told of bytes that do not add up begins with what was completed and
/// ends with what was expected.
pub proof fn law_completed_is_told_before_expected(completed: usize, expected: usize)
    ensures
        ({
            let text = PipelineError::SizeMismatch { completed, expected }.text();
            &&& ("Size mismatch: completed "@ + decimal(completed as int)
                + " != expected "@).is_prefix_of(text)
            &&& ends_with(text, decimal(expected as int))
        }),
{
    let front = "Size mismatch: completed "@ + decimal(completed as int) + " != expected "@;
    let back = decimal(expected as int);
    lemma_begins_and_ends(front, Seq::empty(), back);
    assert(PipelineError::SizeMismatch { completed, expected }.text() =~= front
        + Seq::<char>::empty() + back);
}

/// What the user is told of a write that failed names its place and ends with the error,
/// and of one that stopped short what was asked for, and ends with what was written.
pub proof fn law_write_is_told_with_its_result(
    ring: Ring,
    offset: usize,
    expected: usize,
    result: i64,
)
    ensures
        ends_with(
            PipelineError::WriteFailed { ring, offset, result }.text(),
            decimal(offset as int) + ": error "@ + signed_decimal(result as int),
        ),
        ends_with(
            PipelineError::WriteIncomplete { ring, expected, result }.text(),
            decimal(expected as int) + ", got "@ + signed_decimal(result as int),
        ),
{
    let failed = PipelineError::WriteFailed { ring, offset, result }.text();
    let short = PipelineError::WriteIncomplete { ring, expected, result }.text();
    let a = decimal(offset as int) + ": error "@ + signed_decimal(result as int);
    let b = decimal(expected as int) + ", got "@ + signed_decimal(result as int);
    assert(failed.skip(failed.len() - a.len()) =~= a);
    assert(short.skip(short.len() - b.len()) =~= b);
}

} // verus!
