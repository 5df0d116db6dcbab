//! What a copy exchanges with the I/O rings: the pieces of a file that are
//! handed out as write requests, and the completions that come back.

use crate::text::{decimal, push_count, push_signed, signed_decimal};
use vstd::prelude::*;

verus! {

/// One piece of the source file on its way to the target: `size` bytes that
/// start at `src_offset` of the file and are kept at `buf_offset` of the
/// shared buffer until their write has completed.
#[derive(Clone, Copy, Debug, PartialEq, Eq, Structural)]
pub struct Chunk {
    pub src_offset: usize,
    pub size: usize,
    pub buf_offset: usize,
}

impl Chunk {
    /// The chunk lies inside a buffer of `iov_size` bytes.
    pub open spec fn in_buffer(self, iov_size: int) -> bool {
        self.buf_offset + self.size <= iov_size
    }

    /// The two chunks share no byte of the buffer.
    pub open spec fn apart_from(self, other: Chunk) -> bool {
        ||| self.buf_offset + self.size <= other.buf_offset
        ||| other.buf_offset + other.size <= self.buf_offset
    }
}

/// No two of the chunks share a byte of the buffer.
pub open spec fn all_apart(chunks: Seq<Chunk>) -> bool {
    forall|i: int, j: int|
        0 <= i < j < chunks.len() ==> (#[trigger] chunks[i]).apart_from(#[trigger] chunks[j])
}

/// The number of bytes in the chunks.
pub open spec fn chunk_bytes(chunks: Seq<Chunk>) -> int
    decreases chunks.len(),
{
    if chunks.len() == 0 {
        0
    } else {
        chunk_bytes(chunks.drop_last()) + chunks.last().size
    }
}

/// The chunks follow each other without gap or overlap and cover exactly the
/// bytes `0..end` of the source file.
pub open spec fn tiles(chunks: Seq<Chunk>, end: int) -> bool
    decreases chunks.len(),
{
    if chunks.len() == 0 {
        end == 0
    } else {
        let last = chunks.last();
        &&& last.size > 0
        &&& last.src_offset + last.size == end
        &&& tiles(chunks.drop_last(), last.src_offset as int)
    }
}

/// In a tiling, every byte of the file before `end` belongs to exactly one
/// chunk, and no chunk reaches beyond `end`.
pub proof fn lemma_tiles_cover_each_byte_once(chunks: Seq<Chunk>, end: int, byte: int)
    requires
        tiles(chunks, end),
        0 <= byte,
    ensures
        byte < end ==> exists|i: int|
            0 <= i < chunks.len() && (#[trigger] chunks[i]).src_offset <= byte
                < chunks[i].src_offset + chunks[i].size,
        forall|i: int, j: int|
            0 <= i < chunks.len() && 0 <= j < chunks.len()
                && (#[trigger] chunks[i]).src_offset <= byte < chunks[i].src_offset + chunks[i].size
                && (#[trigger] chunks[j]).src_offset <= byte < chunks[j].src_offset + chunks[j].size
                ==> i == j,
        forall|i: int|
            0 <= i < chunks.len() ==> (#[trigger] chunks[i]).src_offset + chunks[i].size <= end,
        chunk_bytes(chunks) == end,
    decreases chunks.len(),
{
    if chunks.len() > 0 {
        let front = chunks.drop_last();
        let last = chunks.last();
        lemma_tiles_cover_each_byte_once(front, last.src_offset as int, byte);
        assert(forall|i: int| 0 <= i < front.len() ==> #[trigger] chunks[i] == front[i]);
        if byte < end {
            if last.src_offset <= byte {
                assert(chunks[chunks.len() - 1] == last);
            } else {
                let i = choose|i: int|
                    0 <= i < front.len() && (#[trigger] front[i]).src_offset <= byte
                        < front[i].src_offset + front[i].size;
                assert(chunks[i] == front[i]);
            }
        }
        assert forall|i: int, j: int|
            0 <= i < chunks.len() && 0 <= j < chunks.len()
                && (#[trigger] chunks[i]).src_offset <= byte < chunks[i].src_offset + chunks[i].size
                && (#[trigger] chunks[j]).src_offset <= byte < chunks[j].src_offset
                + chunks[j].size implies i == j by {
            if i < front.len() {
                assert(chunks[i] == front[i]);
            }
            if j < front.len() {
                assert(chunks[j] == front[j]);
            }
        }
    }
}

/// The two rings of a copy: the batching ring that carries the body of the
/// file, and the ring that is opened for a last, incomplete batch.
#[derive(Clone, Copy, Debug, PartialEq, Eq, Structural)]
pub enum Ring {
    Main,
    Final,
}

/// A completed write request: the file offset and the number of bytes that
/// the request was made with, and what the ring reports, which is the number
/// of bytes written or a negative error code.
#[derive(Clone, Copy, Debug, PartialEq, Eq, Structural)]
pub struct Completion {
    pub offset: usize,
    pub expected: usize,
    pub result: i64,
}

impl Completion {
    /// The write succeeded and is complete.
    pub open spec fn accepted(self) -> bool {
        self.result == self.expected
    }

    /// Whether the write succeeded and is complete.
    pub fn is_accepted(&self) -> (r: bool)
        ensures
            r == self.accepted(),
    {
        self.result >= 0 && self.result as u64 == self.expected as u64
    }
}

/// How many completions at the front of the batch are accepted before the
/// first one that is not.
pub open spec fn accepted_len(batch: Seq<Completion>) -> nat
    decreases batch.len(),
{
    if batch.len() == 0 {
        0
    } else {
        let n = accepted_len(batch.drop_last());
        if n + 1 == batch.len() && batch.last().accepted() {
            n + 1
        } else {
            n
        }
    }
}

/// The number of bytes that the completions were requested for.
pub open spec fn expected_bytes(batch: Seq<Completion>) -> int
    decreases batch.len(),
{
    if batch.len() == 0 {
        0
    } else {
        expected_bytes(batch.drop_last()) + batch.last().expected
    }
}

/// The number of bytes that the batch confirms: those of its accepted front.
pub open spec fn accepted_bytes(batch: Seq<Completion>) -> int {
    expected_bytes(batch.take(accepted_len(batch) as int))
}

/// `accepted_len` is the length of the longest accepted front.
pub proof fn lemma_accepted_len(batch: Seq<Completion>)
    ensures
        accepted_len(batch) <= batch.len(),
        forall|i: int| 0 <= i < accepted_len(batch) ==> (#[trigger] batch[i]).accepted(),
        accepted_len(batch) < batch.len() ==> !batch[accepted_len(batch) as int].accepted(),
    decreases batch.len(),
{
    if batch.len() > 0 {
        let front = batch.drop_last();
        lemma_accepted_len(front);
        assert(forall|i: int| 0 <= i < front.len() ==> #[trigger] batch[i] == front[i]);
    }
}

/// A front whose completions are all accepted, and which ends the batch or is
/// followed by a refused completion, is the accepted front.
pub(crate) proof fn lemma_accepted_len_is(batch: Seq<Completion>, n: int)
    requires
        0 <= n <= batch.len(),
        forall|i: int| 0 <= i < n ==> (#[trigger] batch[i]).accepted(),
        n < batch.len() ==> !batch[n].accepted(),
    ensures
        accepted_len(batch) == n,
{
    lemma_accepted_len(batch);
    if accepted_len(batch) < n {
        assert(batch[accepted_len(batch) as int].accepted());
    }
    if n < accepted_len(batch) {
        assert(batch[n].accepted());
    }
}

pub(crate) proof fn lemma_expected_bytes_take(batch: Seq<Completion>, n: int, m: int)
    requires
        0 <= n <= m <= batch.len(),
    ensures
        0 <= expected_bytes(batch.take(n)) <= expected_bytes(batch.take(m)),
    decreases m,
{
    if n < m {
        assert(batch.take(m).drop_last() =~= batch.take(m - 1));
        lemma_expected_bytes_take(batch, n, m - 1);
    } else if 0 < m {
        assert(batch.take(m).drop_last() =~= batch.take(m - 1));
        lemma_expected_bytes_take(batch, m - 1, m - 1);
    }
}

/// Counts the accepted front of a batch: how many completions it has, and
/// `completed` increased by the bytes that they confirm.
pub fn absorb(batch: &Vec<Completion>, completed: usize) -> (r: (usize, usize))
    requires
        completed + accepted_bytes(batch@) <= usize::MAX,
    ensures
        r.0 == accepted_len(batch@),
        r.1 == completed + accepted_bytes(batch@),
{
    let mut n: usize = 0;
    let mut sum: usize = completed;
    assert(batch@.take(0) =~= Seq::<Completion>::empty());
    proof {
        lemma_accepted_len(batch@);
    }
    while n < batch.len() && batch[n].is_accepted()
        invariant
            n <= batch.len(),
            forall|i: int| 0 <= i < n ==> (#[trigger] batch@[i]).accepted(),
            n <= accepted_len(batch@) <= batch.len(),
            accepted_len(batch@) < batch.len() ==> !batch@[accepted_len(
                batch@,
            ) as int].accepted(),
            sum == completed + expected_bytes(batch@.take(n as int)),
            completed + accepted_bytes(batch@) <= usize::MAX,
        decreases batch.len() - n,
    {
        proof {
            assert(batch@[n as int].accepted());
            assert(n < accepted_len(batch@));
            lemma_expected_bytes_take(batch@, n + 1, accepted_len(batch@) as int);
            assert(batch@.take(n + 1).drop_last() =~= batch@.take(n as int));
        }
        sum = sum + batch[n].expected;
        n = n + 1;
    }
    proof {
        lemma_accepted_len_is(batch@, n as int);
    }
    (n, sum)
}

/// Why a copy was given up.
#[derive(Clone, Copy, Debug, PartialEq, Eq, Structural)]
pub enum PipelineError {
    /// The parameters allow not even one request in flight.
    ZeroDepth,
    /// A chunk is larger than the whole buffer.
    ChunkTooLarge { chunk_size: usize, iov_size: usize, block_size: usize },
    /// The ring completed nothing within the time allowed.
    PollTimeout,
    /// The ring completed nothing, several times in a row.
    RepeatedTimeout { timeouts: usize, inflight: usize, completed: usize, file_size: usize },
    /// Requests complete, but no byte was confirmed for too long.
    Stuck { completed: usize, file_size: usize },
    /// A write was reported as failed.
    WriteFailed { ring: Ring, offset: usize, result: i64 },
    /// A write stopped short.
    WriteIncomplete { ring: Ring, expected: usize, result: i64 },
    /// The last batch completed nothing within the time allowed.
    FinalTimeout { requests: usize },
    /// The last batch was not complete after the allowed number of polls.
    FinalIncomplete { done: usize, total: usize, polls: usize },
    /// Requests were still open after the allowed number of polls.
    DrainFailed { left: usize },
    /// The confirmed bytes do not add up to the size of the file.
    SizeMismatch { completed: usize, expected: usize },
}

impl Completion {
    /// The error that a refused completion ends a copy with.
    pub open spec fn refusal(self, ring: Ring) -> PipelineError {
        if self.result < 0 {
            PipelineError::WriteFailed { ring, offset: self.offset, result: self.result }
        } else {
            PipelineError::WriteIncomplete { ring, expected: self.expected, result: self.result }
        }
    }

    /// The error that a refused completion ends a copy with.
    pub fn refuse(&self, ring: Ring) -> (r: PipelineError)
        ensures
            r == self.refusal(ring),
    {
        if self.result < 0 {
            PipelineError::WriteFailed { ring, offset: self.offset, result: self.result }
        } else {
            PipelineError::WriteIncomplete { ring, expected: self.expected, result: self.result }
        }
    }
}

impl PipelineError {
    /// The words that tell the user what went wrong.
    pub open spec fn text(self) -> Seq<char> {
        match self {
            PipelineError::ZeroDepth => "Calculated pipeline_depth is 0, invalid parameters"@,
            PipelineError::ChunkTooLarge { chunk_size, iov_size, block_size } => {
                "Chunk size "@ + decimal(chunk_size as int) + " exceeds iov_size "@ + decimal(
                    iov_size as int,
                ) + ". This should not happen (block_size = "@ + decimal(block_size as int) + ")"@
            },
            PipelineError::PollTimeout => "Poll timeout after 30s"@,
            PipelineError::RepeatedTimeout { timeouts, inflight, completed, file_size } => {
                "Poll timeout "@ + decimal(timeouts as int) + " times. "@ + decimal(inflight as int)
                    + " I/Os in-flight. Completed: "@ + decimal(completed as int) + " / "@
                    + decimal(file_size as int)
            },
            PipelineError::Stuck { completed, file_size } => {
                "Copy stuck: no progress for 60s. Completed "@ + decimal(completed as int)
                    + " / "@ + decimal(file_size as int)
            },
            PipelineError::WriteFailed { ring, offset, result } => {
                (match ring {
                    Ring::Main => "Write failed at offset "@,
                    Ring::Final => "Final write failed at offset "@,
                }) + decimal(offset as int) + ": error "@ + signed_decimal(result as int)
            },
            PipelineError::WriteIncomplete { ring, expected, result } => {
                (match ring {
                    Ring::Main => "Write incomplete: expected "@,
                    Ring::Final => "Final write incomplete: expected "@,
                }) + decimal(expected as int) + ", got "@ + signed_decimal(result as int)
            },
            PipelineError::FinalTimeout { requests } => {
                "Final batch poll timeout with "@ + decimal(requests as int) + " I/Os"@
            },
            PipelineError::FinalIncomplete { done, total, polls } => {
                "Final batch incomplete: only "@ + decimal(done as int) + "/"@ + decimal(
                    total as int,
                ) + " I/Os completed after "@ + decimal(polls as int) + " attempts"@
            },
            PipelineError::DrainFailed { left } => {
                "Failed to drain "@ + decimal(left as int) + " I/Os after 3 attempts"@
            },
            PipelineError::SizeMismatch { completed, expected } => {
                "Size mismatch: completed "@ + decimal(completed as int) + " != expected "@
                    + decimal(expected as int)
            },
        }
    }

    /// The words that tell the user what went wrong.
    pub fn message(&self) -> (r: String)
        ensures
            r@ == self.text(),
    {
        let mut text = String::new();
        assert(text@ =~= Seq::<char>::empty());
        match *self {
            PipelineError::ZeroDepth => {
                text.append("Calculated pipeline_depth is 0, invalid parameters");
            },
            PipelineError::ChunkTooLarge { chunk_size, iov_size, block_size } => {
                push_count(&mut text, "Chunk size ", chunk_size);
                push_count(&mut text, " exceeds iov_size ", iov_size);
                push_count(&mut text, ". This should not happen (block_size = ", block_size);
                text.append(")");
            },
            PipelineError::PollTimeout => {
                text.append("Poll timeout after 30s");
            },
            PipelineError::RepeatedTimeout { timeouts, inflight, completed, file_size } => {
                push_count(&mut text, "Poll timeout ", timeouts);
                push_count(&mut text, " times. ", inflight);
                push_count(&mut text, " I/Os in-flight. Completed: ", completed);
                push_count(&mut text, " / ", file_size);
            },
            PipelineError::Stuck { completed, file_size } => {
                push_count(
                    &mut text,
                    "Copy stuck: no progress for 60s. Completed ",
                    completed,
                );
                push_count(&mut text, " / ", file_size);
            },
            PipelineError::WriteFailed { ring, offset, result } => {
                match ring {
                    Ring::Main => {
                        push_count(&mut text, "Write failed at offset ", offset);
                    },
                    Ring::Final => {
                        push_count(&mut text, "Final write failed at offset ", offset);
                    },
                }
                text.append(": error ");
                push_signed(&mut text, result);
            },
            PipelineError::WriteIncomplete { ring, expected, result } => {
                match ring {
                    Ring::Main => {
                        push_count(&mut text, "Write incomplete: expected ", expected);
                    },
                    Ring::Final => {
                        push_count(&mut text, "Final write incomplete: expected ", expected);
                    },
                }
                text.append(", got ");
                push_signed(&mut text, result);
            },
            PipelineError::FinalTimeout { requests } => {
                push_count(&mut text, "Final batch poll timeout with ", requests);
                text.append(" I/Os");
            },
            PipelineError::FinalIncomplete { done, total, polls } => {
                push_count(&mut text, "Final batch incomplete: only ", done);
                push_count(&mut text, "/", total);
                push_count(&mut text, " I/Os completed after ", polls);
                text.append(" attempts");
            },
            PipelineError::DrainFailed { left } => {
                push_count(&mut text, "Failed to drain ", left);
                text.append(" I/Os after 3 attempts");
            },
            PipelineError::SizeMismatch { completed, expected } => {
                push_count(&mut text, "Size mismatch: completed ", completed);
                push_count(&mut text, " != expected ", expected);
            },
        }
        assert(text@ =~= self.text());
        text
    }
}

/// What a copy asks of its surroundings next.
#[derive(Clone, Copy, Debug, PartialEq, Eq, Structural)]
pub enum Action {
    /// Read the bytes of `chunk` from the source, which stands at
    /// `chunk.src_offset`, into the buffer, and queue their write on `ring`.
    Prepare { ring: Ring, chunk: Chunk },
    /// Queue the write of `chunk`, whose bytes are in the buffer already, on
    /// the final ring.
    Requeue { chunk: Chunk },
    /// Open the final ring for `entries` requests.
    OpenFinal { entries: usize },
    /// Submit what is queued on `ring`.
    Submit { ring: Ring },
    /// Wait up to `timeout_ms` for 1 to `max` completions of `ring`.
    Poll { ring: Ring, max: usize, timeout_ms: u64 },
    /// Sleep for `millis`.
    Pause { millis: u64 },
    /// Synchronise the target file.
    Sync,
    /// Nothing is in flight and nothing can be handed out: go on at once.
    Stalled,
    /// The whole file has been written.
    Finished,
    /// The copy is given up.
    Failed { error: PipelineError },
}

/// How long a ring waits before it hands out what it has, in milliseconds.
pub const RING_TIMEOUT_MS: i32 = 1000;

/// No NUMA node in particular.
pub const ANY_NUMA_NODE: i32 = -1;

/// How a ring is opened.
#[derive(Clone, Copy, Debug, PartialEq, Eq, Structural)]
pub struct RingOptions {
    /// Whether files are read, not written.
    pub for_read: bool,
    /// How many requests the ring holds.
    pub entries: i32,
    /// How requests are processed: as soon as they are submitted if this is
    /// zero, in batches of exactly `-io_depth` if it is negative.
    pub io_depth: i32,
    pub timeout_ms: i32,
    /// The NUMA node of the ring.
    pub numa: i32,
    pub flags: u64,
}

impl RingOptions {
    /// The ring of a copy that keeps `depth` requests in flight: it processes
    /// them in batches of that size.
    pub open spec fn main_ring(depth: int) -> Self {
        RingOptions {
            for_read: false,
            entries: depth as i32,
            io_depth: (-depth) as i32,
            timeout_ms: RING_TIMEOUT_MS,
            numa: ANY_NUMA_NODE,
            flags: 0,
        }
    }

    /// The ring for the last `entries` requests: it processes them at once, as
    /// they need not fill a batch.
    pub open spec fn final_ring(entries: int) -> Self {
        RingOptions { io_depth: 0, ..RingOptions::main_ring(entries) }
    }

    /// Options for the ring of a copy that keeps `depth` requests in flight.
    pub fn for_batches(depth: usize) -> (r: Self)
        requires
            depth <= i32::MAX,
        ensures
            r == RingOptions::main_ring(depth as int),
    {
        let entries: i32 = depth as i32;
        RingOptions {
            for_read: false,
            entries,
            io_depth: -entries,
            timeout_ms: RING_TIMEOUT_MS,
            numa: ANY_NUMA_NODE,
            flags: 0,
        }
    }

    /// Options for the ring for the last `entries` requests.
    pub fn for_the_rest(entries: usize) -> (r: Self)
        requires
            entries <= i32::MAX,
        ensures
            r == RingOptions::final_ring(entries as int),
    {
        RingOptions {
            for_read: false,
            entries: entries as i32,
            io_depth: 0,
            timeout_ms: RING_TIMEOUT_MS,
            numa: ANY_NUMA_NODE,
            flags: 0,
        }
    }
}

} // verus!
