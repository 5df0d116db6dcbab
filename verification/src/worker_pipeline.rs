//! The copy loop of a worker, as a machine that decides what to do next.
//!
//! The loop fills the shared buffer from its start, hands out up to `depth`
//! requests at a time and goes back to the start of the buffer only when
//! nothing is in flight. A last batch that is smaller than `depth` goes to a
//! ring of its own, because the main ring only wakes up for whole batches.

use crate::ring::{
    absorb, accepted_bytes, accepted_len, lemma_accepted_len, Action, Chunk, Completion,
    PipelineError, Ring,
};
use std::collections::VecDeque;
use vstd::prelude::*;

verus! {

/// How long a poll of the main ring waits.
pub const POLL_TIMEOUT_MS: u64 = 30000;

/// How long a poll of the final ring waits.
pub const FINAL_POLL_TIMEOUT_MS: u64 = 60000;

/// How many polls of the final ring may come back empty.
pub const MAX_POLL_ATTEMPTS: usize = 10;

/// What the machine waits for.
#[derive(Clone, Copy, Debug, PartialEq, Eq, Structural)]
pub enum WorkerPhase {
    /// The head of the loop.
    Start,
    /// `chunk` is being read and queued on the main ring.
    Preparing { chunk: Chunk },
    /// The main ring is being submitted.
    Submitting,
    /// The main ring is being polled.
    Polling,
    /// The final ring is being opened.
    OpeningFinal,
    /// `chunk` is being read and queued on the final ring.
    PreparingFinal { chunk: Chunk },
    /// The final ring is being submitted.
    SubmittingFinal,
    /// The final ring is being polled.
    PollingFinal,
    /// The target file is being synchronised after the final batch.
    Syncing,
    /// The copy is over.
    Closed,
}

/// The state of the machine.
#[verifier::ext_equal]
pub struct WorkerView {
    pub block_size: int,
    pub iov_size: int,
    pub depth: int,
    pub file_size: int,
    /// The requests on the main ring that have not been accounted for.
    pub inflight: Seq<Chunk>,
    /// The requests that went to the final ring.
    pub final_chunks: Seq<Chunk>,
    /// How much of the file has been handed out.
    pub src_offset: int,
    /// How much of the file has been confirmed.
    pub completed: int,
    /// The first byte of the buffer that is free.
    pub next_buf: int,
    /// How far the buffer has been used.
    pub high_water: int,
    /// How many requests of the final ring are complete.
    pub final_done: int,
    /// How many polls of the final ring came back empty.
    pub empty_polls: int,
    pub phase: WorkerPhase,
}

pub open spec fn min_int(a: int, b: int) -> int {
    if a <= b {
        a
    } else {
        b
    }
}

pub open spec fn max_int(a: int, b: int) -> int {
    if a >= b {
        a
    } else {
        b
    }
}

/// How many blocks it takes to hold `bytes` bytes.
pub open spec fn blocks_for(bytes: int, block_size: int) -> int {
    (bytes + block_size - 1) / block_size
}

impl WorkerView {
    /// The next chunk of the file, when it is kept at `buf`.
    pub open spec fn next_chunk(self, buf: int) -> Chunk {
        Chunk {
            src_offset: self.src_offset as usize,
            size: min_int(self.block_size, self.file_size - self.src_offset) as usize,
            buf_offset: buf as usize,
        }
    }

    /// Where the next chunk is kept: behind the ones before it, or at the
    /// start of the buffer where it does not fit there any more.
    pub open spec fn place(self) -> int {
        let size = min_int(self.block_size, self.file_size - self.src_offset);
        if self.next_buf + size <= self.iov_size {
            self.next_buf
        } else {
            0
        }
    }

    pub open spec fn ends(self, action: Action) -> (WorkerView, Action) {
        (WorkerView { phase: WorkerPhase::Closed, ..self }, action)
    }

    /// The end of the loop: the confirmed bytes must add up.
    pub open spec fn finish(self) -> (WorkerView, Action) {
        if self.completed == self.file_size {
            self.ends(Action::Finished)
        } else {
            self.ends(
                Action::Failed {
                    error: PipelineError::SizeMismatch {
                        completed: self.completed as usize,
                        expected: self.file_size as usize,
                    },
                },
            )
        }
    }

    /// The head of the loop.
    pub open spec fn head(self) -> (WorkerView, Action) {
        let left = blocks_for(self.file_size - self.src_offset, self.block_size);
        if self.completed >= self.file_size {
            self.finish()
        } else if self.inflight.len() == 0 && 0 < left < self.depth {
            (
                WorkerView { phase: WorkerPhase::OpeningFinal, ..self },
                Action::OpenFinal { entries: left as usize },
            )
        } else {
            self.fill()
        }
    }

    /// Hands out the next chunk, while the batch has room and the buffer too.
    pub open spec fn fill(self) -> (WorkerView, Action) {
        let size = min_int(self.block_size, self.file_size - self.src_offset);
        if self.inflight.len() >= self.depth || self.src_offset >= self.file_size {
            self.flush()
        } else if self.next_buf + size > self.iov_size && self.inflight.len() > 0 {
            self.flush()
        } else if size > self.iov_size {
            WorkerView { next_buf: 0, ..self }.ends(
                Action::Failed {
                    error: PipelineError::ChunkTooLarge {
                        chunk_size: size as usize,
                        iov_size: self.iov_size as usize,
                        block_size: self.block_size as usize,
                    },
                },
            )
        } else {
            let chunk = self.next_chunk(self.place());
            (
                WorkerView {
                    next_buf: self.place(),
                    phase: WorkerPhase::Preparing { chunk },
                    ..self
                },
                Action::Prepare { ring: Ring::Main, chunk },
            )
        }
    }

    /// Submits the batch, if there is one.
    pub open spec fn flush(self) -> (WorkerView, Action) {
        if self.inflight.len() == 0 {
            (WorkerView { phase: WorkerPhase::Start, ..self }, Action::Stalled)
        } else {
            (
                WorkerView { phase: WorkerPhase::Submitting, ..self },
                Action::Submit { ring: Ring::Main },
            )
        }
    }

    /// `chunk` has been read and queued: the file and the buffer advance.
    pub open spec fn handed_out(self, chunk: Chunk) -> WorkerView {
        WorkerView {
            src_offset: self.src_offset + chunk.size,
            next_buf: self.next_buf + chunk.size,
            high_water: max_int(self.high_water, self.next_buf + chunk.size),
            ..self
        }
    }

    /// Hands out the next chunk of the last batch, or submits it.
    pub open spec fn fill_final(self) -> (WorkerView, Action) {
        if self.src_offset < self.file_size {
            let chunk = self.next_chunk(self.place());
            (
                WorkerView {
                    next_buf: self.place(),
                    phase: WorkerPhase::PreparingFinal { chunk },
                    ..self
                },
                Action::Prepare { ring: Ring::Final, chunk },
            )
        } else {
            (
                WorkerView { phase: WorkerPhase::SubmittingFinal, ..self },
                Action::Submit { ring: Ring::Final },
            )
        }
    }

    /// Polls the final ring until its batch is complete or it was silent too
    /// often.
    pub open spec fn poll_final(self) -> (WorkerView, Action) {
        let total = self.final_chunks.len();
        if self.final_done >= total {
            (WorkerView { phase: WorkerPhase::Syncing, ..self }, Action::Sync)
        } else if self.empty_polls < MAX_POLL_ATTEMPTS {
            (
                WorkerView { phase: WorkerPhase::PollingFinal, ..self },
                Action::Poll {
                    ring: Ring::Final,
                    max: (total - self.final_done) as usize,
                    timeout_ms: FINAL_POLL_TIMEOUT_MS,
                },
            )
        } else {
            self.ends(
                Action::Failed {
                    error: PipelineError::FinalIncomplete {
                        done: self.final_done as usize,
                        total: total as usize,
                        polls: self.empty_polls as usize,
                    },
                },
            )
        }
    }

    /// The machine waits for completions.
    pub open spec fn is_polling(self) -> bool {
        self.phase is Polling || self.phase is PollingFinal
    }

    /// The most completions that the poll under way may bring.
    pub open spec fn poll_max(self) -> int {
        if self.phase is PollingFinal {
            self.final_chunks.len() - self.final_done
        } else {
            min_int(self.inflight.len() as int, self.depth)
        }
    }

    /// What was asked for has been done: the state and the action after it.
    pub open spec fn advance(self) -> (WorkerView, Action) {
        match self.phase {
            WorkerPhase::Start => self.head(),
            WorkerPhase::Preparing { chunk } => {
                let s = WorkerView {
                    inflight: self.inflight.push(chunk),
                    ..self.handed_out(chunk)
                };
                if s.next_buf >= s.iov_size {
                    s.flush()
                } else {
                    s.fill()
                }
            },
            WorkerPhase::Submitting => (
                WorkerView { phase: WorkerPhase::Polling, ..self },
                Action::Poll {
                    ring: Ring::Main,
                    max: min_int(self.inflight.len() as int, self.depth) as usize,
                    timeout_ms: POLL_TIMEOUT_MS,
                },
            ),
            WorkerPhase::OpeningFinal => self.fill_final(),
            WorkerPhase::PreparingFinal { chunk } => WorkerView {
                final_chunks: self.final_chunks.push(chunk),
                ..self.handed_out(chunk)
            }.fill_final(),
            WorkerPhase::SubmittingFinal => self.poll_final(),
            WorkerPhase::Syncing => self.finish(),
            _ => (self, Action::Stalled),
        }
    }

    /// The poll has brought `batch`: the state and the action after it.
    pub open spec fn polled(self, batch: Seq<Completion>) -> (WorkerView, Action) {
        let n = accepted_len(batch) as int;
        let credited = WorkerView { completed: self.completed + accepted_bytes(batch), ..self };
        if self.phase is PollingFinal {
            let s = WorkerView { final_done: self.final_done + n, ..credited };
            if batch.len() == 0 {
                WorkerView { empty_polls: self.empty_polls + 1, ..self }.poll_final()
            } else if n < batch.len() {
                s.ends(Action::Failed { error: batch[n].refusal(Ring::Final) })
            } else {
                s.poll_final()
            }
        } else {
            let s = WorkerView { inflight: self.inflight.skip(n), ..credited };
            if batch.len() == 0 {
                self.ends(Action::Failed { error: PipelineError::PollTimeout })
            } else if n < batch.len() {
                s.ends(Action::Failed { error: batch[n].refusal(Ring::Main) })
            } else {
                s.head()
            }
        }
    }
}

impl WorkerView {
    /// A copy of `file_size` bytes that has not begun.
    pub open spec fn initial(block_size: int, iov_size: int, depth: int, file_size: int) -> Self {
        WorkerView {
            block_size,
            iov_size,
            depth,
            file_size,
            inflight: Seq::empty(),
            final_chunks: Seq::empty(),
            src_offset: 0,
            completed: 0,
            next_buf: 0,
            high_water: 0,
            final_done: 0,
            empty_polls: 0,
            phase: WorkerPhase::Start,
        }
    }

    /// Parameters that the loop can run with: a batch of more than one block
    /// fits into the buffer.
    pub open spec fn params_ok(self) -> bool {
        &&& 0 < self.block_size <= usize::MAX
        &&& 0 <= self.iov_size <= usize::MAX
        &&& 1 <= self.depth <= usize::MAX
        &&& 0 <= self.file_size <= usize::MAX
        &&& self.depth == 1 || self.depth * self.block_size <= self.iov_size
    }

    pub open spec fn in_final_batch(self) -> bool {
        ||| self.phase is OpeningFinal
        ||| self.phase is PreparingFinal
        ||| self.phase is SubmittingFinal
        ||| self.phase is PollingFinal
        ||| self.phase is Syncing
    }

    /// `chunk` is the next one, and it is kept at the free part of the buffer.
    pub open spec fn is_next(self, chunk: Chunk) -> bool {
        &&& self.src_offset < self.file_size
        &&& self.next_buf + min_int(self.block_size, self.file_size - self.src_offset)
            <= self.iov_size
        &&& chunk == self.next_chunk(self.next_buf)
    }

    /// The requests on the main ring lie one behind the other in the part of
    /// the buffer that is used up.
    pub open spec fn main_in_order(self) -> bool {
        &&& forall|i: int|
            0 <= i < self.inflight.len() ==> 0 < (#[trigger] self.inflight[i]).size
                && self.inflight[i].buf_offset + self.inflight[i].size <= self.next_buf
        &&& forall|i: int, j: int|
            0 <= i < j < self.inflight.len() ==> (#[trigger] self.inflight[i]).buf_offset
                + self.inflight[i].size <= (#[trigger] self.inflight[j]).buf_offset
    }

    /// What is left of the file can be kept behind `next_buf` without
    /// touching `chunk`.
    pub open spec fn out_of_the_way(self, chunk: Chunk) -> bool {
        ||| chunk.buf_offset + chunk.size <= self.next_buf
        ||| self.next_buf + (self.file_size - self.src_offset) <= chunk.buf_offset
    }

    /// The chunks of the last batch do not stand in the way of what is left.
    /// Until the batch goes back to the start of the buffer, it lies in the
    /// buffer as it lies in the file; afterwards what is left fits.
    pub open spec fn final_in_order(self) -> bool {
        &&& self.file_size - self.src_offset <= self.iov_size - self.block_size
        &&& forall|i: int|
            0 <= i < self.final_chunks.len() ==> {
                let c = #[trigger] self.final_chunks[i];
                &&& 0 < c.size
                &&& self.out_of_the_way(c)
                &&& self.file_size - c.src_offset <= self.iov_size - self.block_size
            }
        &&& {
            ||| self.next_buf + (self.file_size - self.src_offset) <= self.iov_size
            ||| forall|i: int|
                0 <= i < self.final_chunks.len() ==> {
                    let c = #[trigger] self.final_chunks[i];
                    c.buf_offset + (self.src_offset - c.src_offset) == self.next_buf
                }
        }
        &&& crate::ring::all_apart(self.final_chunks)
    }

    /// What holds of every state of a copy.
    pub open spec fn wf(self) -> bool {
        &&& self.params_ok()
        &&& 0 <= self.src_offset <= self.file_size
        &&& 0 <= self.completed <= usize::MAX
        &&& 0 <= self.next_buf <= self.iov_size
        &&& 0 <= self.high_water <= self.iov_size
        &&& self.inflight.len() <= self.depth
        &&& 0 <= self.final_done <= self.final_chunks.len() <= usize::MAX
        &&& 0 <= self.empty_polls <= MAX_POLL_ATTEMPTS
        &&& self.phase matches WorkerPhase::Preparing { chunk } ==> self.is_next(chunk)
            && self.inflight.len() < self.depth
        &&& self.phase matches WorkerPhase::PreparingFinal { chunk } ==> self.is_next(chunk)
        &&& (self.phase is Submitting || self.phase is Polling) ==> self.inflight.len() > 0
        &&& self.phase is PollingFinal ==> self.final_done < self.final_chunks.len()
            && self.empty_polls < MAX_POLL_ATTEMPTS
        &&& self.phase is Syncing ==> self.final_done == self.final_chunks.len()
        &&& self.in_final_batch() ==> self.inflight.len() == 0 && self.final_in_order()
            && self.final_chunks.len() + blocks_for(
            self.file_size - self.src_offset,
            self.block_size,
        ) < self.depth
        &&& (self.phase is SubmittingFinal || self.phase is PollingFinal || self.phase is Syncing)
            ==> self.src_offset == self.file_size
        &&& !(self.in_final_batch() || self.phase is Closed) ==> self.final_chunks.len() == 0
            && self.final_done == 0 && self.empty_polls == 0
        &&& self.main_in_order()
    }

    /// The machine waits for something other than completions.
    pub open spec fn can_advance(self) -> bool {
        !self.is_polling() && !(self.phase is Closed)
    }

    /// What the poll under way may bring: no more completions than were asked
    /// for, and no more bytes than can be counted.
    pub open spec fn may_bring(self, batch: Seq<Completion>) -> bool {
        &&& self.is_polling()
        &&& batch.len() <= self.poll_max()
        &&& self.completed + accepted_bytes(batch) <= usize::MAX
    }
}

pub(crate) proof fn lemma_blocks_for(bytes: int, block_size: int)
    requires
        0 <= bytes,
        0 < block_size,
    ensures
        0 <= blocks_for(bytes, block_size),
        bytes <= blocks_for(bytes, block_size) * block_size,
        blocks_for(bytes, block_size) * block_size < bytes + block_size,
        blocks_for(bytes, block_size) == 0 <==> bytes == 0,
        0 < bytes ==> blocks_for(bytes - min_int(block_size, bytes), block_size) == blocks_for(
            bytes,
            block_size,
        ) - 1,
{
    let q = blocks_for(bytes, block_size);
    vstd::arithmetic::div_mod::lemma_fundamental_div_mod(bytes + block_size - 1, block_size);
    vstd::arithmetic::mul::lemma_mul_is_commutative(q, block_size);
    assert(0 <= q) by (nonlinear_arith)
        requires
            q == (bytes + block_size - 1) / block_size,
            0 <= bytes,
            0 < block_size,
    ;
    assert(0 < bytes ==> q >= 1) by (nonlinear_arith)
        requires
            bytes <= q * block_size,
            0 < block_size,
    ;
    assert(bytes == 0 ==> q == 0) by (nonlinear_arith)
        requires
            q * block_size < bytes + block_size,
            0 < block_size,
            0 <= q,
    ;
    if 0 < bytes {
        if bytes <= block_size {
            assert(q == 1) by (nonlinear_arith)
                requires
                    q * block_size < bytes + block_size,
                    bytes <= block_size,
                    0 < block_size,
                    q >= 1,
            ;
            vstd::arithmetic::div_mod::lemma_basic_div(block_size - 1, block_size);
        } else {
            vstd::arithmetic::div_mod::lemma_div_minus_one(bytes + block_size - 1, block_size);
        }
    }
}

/// Whatever is done, what holds of every state of a copy still holds.
pub proof fn lemma_advance_keeps_wf(s: WorkerView)
    requires
        s.wf(),
        s.can_advance(),
    ensures
        s.advance().0.wf(),
{
    lemma_blocks_for(s.file_size - s.src_offset, s.block_size);
    match s.phase {
        WorkerPhase::Start => lemma_head_keeps_wf(s),
        WorkerPhase::Preparing { chunk } => {
            let t = WorkerView { inflight: s.inflight.push(chunk), ..s.handed_out(chunk) };
            assert(t.main_in_order());
            let t0 = WorkerView { phase: WorkerPhase::Start, ..t };
            assert(t0.wf());
            lemma_fill_keeps_wf(t0);
            assert(t.fill() == t0.fill());
        },
        WorkerPhase::OpeningFinal => lemma_fill_final_keeps_wf(s),
        WorkerPhase::PreparingFinal { chunk } => {
            let t = WorkerView { final_chunks: s.final_chunks.push(chunk), ..s.handed_out(chunk) };
            assert(t.final_in_order());
            let t0 = WorkerView { phase: WorkerPhase::OpeningFinal, ..t };
            assert(t0.wf());
            lemma_fill_final_keeps_wf(t0);
            assert(t.fill_final() == t0.fill_final());
        },
        _ => {},
    }
}

proof fn lemma_head_keeps_wf(s: WorkerView)
    requires
        s.wf(),
        s.phase is Start,
    ensures
        s.head().0.wf(),
{
    let left = s.file_size - s.src_offset;
    lemma_blocks_for(left, s.block_size);
    lemma_fill_keeps_wf(s);
    if s.inflight.len() == 0 && 0 < blocks_for(left, s.block_size) < s.depth {
        let b = blocks_for(left, s.block_size);
        assert(left <= s.iov_size - s.block_size) by (nonlinear_arith)
            requires
                left <= b * s.block_size,
                b <= s.depth - 1,
                s.depth * s.block_size <= s.iov_size,
                0 < s.block_size,
        ;
    }
}

proof fn lemma_fill_keeps_wf(s: WorkerView)
    requires
        s.wf(),
        s.phase is Start,
    ensures
        s.fill().0.wf(),
{
}

proof fn lemma_fill_final_keeps_wf(s: WorkerView)
    requires
        s.wf(),
        s.phase is OpeningFinal,
    ensures
        s.fill_final().0.wf(),
{
    lemma_blocks_for(s.file_size - s.src_offset, s.block_size);
    if s.src_offset < s.file_size && s.place() != s.next_buf {
        let t = s.fill_final().0;
        assert forall|i: int| 0 <= i < s.final_chunks.len() implies t.out_of_the_way(
            #[trigger] s.final_chunks[i],
        ) by {
            let c = s.final_chunks[i];
            assert(c.buf_offset + (s.src_offset - c.src_offset) == s.next_buf);
        }
    }
}

/// Whatever completions arrive, what holds of every state of a copy still
/// holds.
pub proof fn lemma_polled_keeps_wf(s: WorkerView, batch: Seq<Completion>)
    requires
        s.wf(),
        s.may_bring(batch),
    ensures
        s.polled(batch).0.wf(),
{
    lemma_accepted_len(batch);
    let n = accepted_len(batch) as int;
    crate::ring::lemma_expected_bytes_take(batch, 0, n);
    assert(batch.take(0) =~= Seq::<Completion>::empty());
    if s.phase is Polling {
        let t = WorkerView {
            inflight: s.inflight.skip(n),
            completed: s.completed + accepted_bytes(batch),
            phase: WorkerPhase::Start,
            ..s
        };
        assert(t.main_in_order());
        assert(t.wf());
        lemma_head_keeps_wf(t);
        let u = WorkerView { phase: s.phase, ..t };
        assert(u.head() == t.head());
    }
}

/// The copy of one file by a worker.
pub struct WorkerPipeline {
    block_size: usize,
    iov_size: usize,
    depth: usize,
    file_size: usize,
    inflight: VecDeque<Chunk>,
    final_chunks: Vec<Chunk>,
    src_offset: usize,
    completed: usize,
    next_buf: usize,
    high_water: usize,
    final_done: usize,
    empty_polls: usize,
    phase: WorkerPhase,
}

impl View for WorkerPipeline {
    type V = WorkerView;

    closed spec fn view(&self) -> WorkerView {
        WorkerView {
            block_size: self.block_size as int,
            iov_size: self.iov_size as int,
            depth: self.depth as int,
            file_size: self.file_size as int,
            inflight: self.inflight@,
            final_chunks: self.final_chunks@,
            src_offset: self.src_offset as int,
            completed: self.completed as int,
            next_buf: self.next_buf as int,
            high_water: self.high_water as int,
            final_done: self.final_done as int,
            empty_polls: self.empty_polls as int,
            phase: self.phase,
        }
    }
}

/// How many blocks it takes to hold `bytes` bytes.
pub fn count_blocks(bytes: usize, block_size: usize) -> (r: usize)
    requires
        0 < block_size,
    ensures
        r == blocks_for(bytes as int, block_size as int),
{
    proof {
        lemma_blocks_for(bytes as int, block_size as int);
        vstd::arithmetic::div_mod::lemma_fundamental_div_mod(bytes as int, block_size as int);
        let q = bytes as int / block_size as int;
        let r = bytes as int % block_size as int;
        let b = block_size as int;
        assert(bytes + b - 1 == b * q + (r + b - 1));
        if r == 0 {
            vstd::arithmetic::div_mod::lemma_div_multiples_vanish_fancy(q, b - 1, b);
        } else {
            assert(b * (q + 1) == b * q + b) by (nonlinear_arith);
            vstd::arithmetic::div_mod::lemma_div_multiples_vanish_fancy(q + 1, r - 1, b);
            assert(q < bytes) by (nonlinear_arith)
                requires
                    bytes == b * q + r,
                    0 < r,
                    0 < b,
                    0 <= q,
            ;
        }
    }
    let whole = bytes / block_size;
    if bytes % block_size == 0 {
        whole
    } else {
        whole + 1
    }
}

impl WorkerPipeline {
    /// Starts the copy of a file of `file_size` bytes through a buffer of
    /// `iov_size` bytes, `block_size` bytes and `depth` requests at a time.
    pub fn new(block_size: usize, iov_size: usize, depth: usize, file_size: u64) -> (r: Self)
        requires
            0 < block_size,
            1 <= depth,
            depth == 1 || depth * block_size <= iov_size,
            file_size <= usize::MAX,
        ensures
            r@ == WorkerView::initial(
                block_size as int,
                iov_size as int,
                depth as int,
                file_size as int,
            ),
            r@.wf(),
    {
        let r = WorkerPipeline {
            block_size,
            iov_size,
            depth,
            file_size: file_size as usize,
            inflight: VecDeque::new(),
            final_chunks: Vec::new(),
            src_offset: 0,
            completed: 0,
            next_buf: 0,
            high_water: 0,
            final_done: 0,
            empty_polls: 0,
            phase: WorkerPhase::Start,
        };
        assert(r.inflight@ =~= Seq::<Chunk>::empty());
        assert(r.final_chunks@ =~= Seq::<Chunk>::empty());
        r
    }

    /// The size of the next chunk.
    fn next_size(&self) -> (r: usize)
        requires
            self@.wf(),
        ensures
            r == min_int(self@.block_size, self@.file_size - self@.src_offset),
    {
        let left = self.file_size - self.src_offset;
        if self.block_size <= left {
            self.block_size
        } else {
            left
        }
    }

    fn end(&mut self, action: Action) -> (r: Action)
        ensures
            (final(self)@, r) == old(self)@.ends(action),
    {
        self.phase = WorkerPhase::Closed;
        action
    }

    fn finish(&mut self) -> (r: Action)
        requires
            old(self)@.wf(),
        ensures
            (final(self)@, r) == old(self)@.finish(),
    {
        if self.completed == self.file_size {
            self.end(Action::Finished)
        } else {
            let error = PipelineError::SizeMismatch {
                completed: self.completed,
                expected: self.file_size,
            };
            self.end(Action::Failed { error })
        }
    }

    fn head(&mut self) -> (r: Action)
        requires
            old(self)@.wf(),
        ensures
            (final(self)@, r) == old(self)@.head(),
    {
        let left = count_blocks(self.file_size - self.src_offset, self.block_size);
        if self.completed >= self.file_size {
            self.finish()
        } else if self.inflight.len() == 0 && 0 < left && left < self.depth {
            self.phase = WorkerPhase::OpeningFinal;
            Action::OpenFinal { entries: left }
        } else {
            self.fill()
        }
    }

    fn fill(&mut self) -> (r: Action)
        requires
            old(self)@.wf(),
        ensures
            (final(self)@, r) == old(self)@.fill(),
    {
        let size = self.next_size();
        if self.inflight.len() >= self.depth || self.src_offset >= self.file_size {
            self.flush()
        } else {
            let fits = size <= self.iov_size - self.next_buf;
            if !fits && self.inflight.len() > 0 {
                self.flush()
            } else if size > self.iov_size {
                self.next_buf = 0;
                let error = PipelineError::ChunkTooLarge {
                    chunk_size: size,
                    iov_size: self.iov_size,
                    block_size: self.block_size,
                };
                self.end(Action::Failed { error })
            } else {
                if !fits {
                    self.next_buf = 0;
                }
                let chunk = Chunk {
                    src_offset: self.src_offset,
                    size,
                    buf_offset: self.next_buf,
                };
                self.phase = WorkerPhase::Preparing { chunk };
                Action::Prepare { ring: Ring::Main, chunk }
            }
        }
    }

    fn flush(&mut self) -> (r: Action)
        ensures
            (final(self)@, r) == old(self)@.flush(),
    {
        if self.inflight.len() == 0 {
            self.phase = WorkerPhase::Start;
            Action::Stalled
        } else {
            self.phase = WorkerPhase::Submitting;
            Action::Submit { ring: Ring::Main }
        }
    }

    fn hand_out(&mut self, chunk: Chunk)
        requires
            old(self)@.wf(),
            old(self)@.is_next(chunk),
        ensures
            final(self)@ == old(self)@.handed_out(chunk),
    {
        self.src_offset = self.src_offset + chunk.size;
        self.next_buf = self.next_buf + chunk.size;
        if self.next_buf > self.high_water {
            self.high_water = self.next_buf;
        }
    }

    fn fill_final(&mut self) -> (r: Action)
        requires
            old(self)@.wf(),
        ensures
            (final(self)@, r) == old(self)@.fill_final(),
    {
        if self.src_offset < self.file_size {
            let size = self.next_size();
            if size > self.iov_size - self.next_buf {
                self.next_buf = 0;
            }
            let chunk = Chunk { src_offset: self.src_offset, size, buf_offset: self.next_buf };
            self.phase = WorkerPhase::PreparingFinal { chunk };
            Action::Prepare { ring: Ring::Final, chunk }
        } else {
            self.phase = WorkerPhase::SubmittingFinal;
            Action::Submit { ring: Ring::Final }
        }
    }

    fn poll_final(&mut self) -> (r: Action)
        requires
            0 <= old(self)@.final_done,
        ensures
            (final(self)@, r) == old(self)@.poll_final(),
    {
        let total = self.final_chunks.len();
        if self.final_done >= total {
            self.phase = WorkerPhase::Syncing;
            Action::Sync
        } else if self.empty_polls < MAX_POLL_ATTEMPTS {
            self.phase = WorkerPhase::PollingFinal;
            Action::Poll {
                ring: Ring::Final,
                max: total - self.final_done,
                timeout_ms: FINAL_POLL_TIMEOUT_MS,
            }
        } else {
            let error = PipelineError::FinalIncomplete {
                done: self.final_done,
                total,
                polls: self.empty_polls,
            };
            self.end(Action::Failed { error })
        }
    }

    /// Tells the machine that what it asked for has been done, and asks it
    /// what to do next. The first call starts the copy.
    pub fn advance(&mut self) -> (r: Action)
        requires
            old(self)@.wf(),
            old(self)@.can_advance(),
        ensures
            (final(self)@, r) == old(self)@.advance(),
            final(self)@.wf(),
    {
        proof {
            lemma_advance_keeps_wf(self@);
        }
        match self.phase {
            WorkerPhase::Start => self.head(),
            WorkerPhase::Preparing { chunk } => {
                self.hand_out(chunk);
                self.inflight.push_back(chunk);
                if self.next_buf >= self.iov_size {
                    self.flush()
                } else {
                    self.phase = WorkerPhase::Start;
                    self.fill()
                }
            },
            WorkerPhase::Submitting => {
                self.phase = WorkerPhase::Polling;
                let open = self.inflight.len();
                Action::Poll {
                    ring: Ring::Main,
                    max: if open <= self.depth {
                        open
                    } else {
                        self.depth
                    },
                    timeout_ms: POLL_TIMEOUT_MS,
                }
            },
            WorkerPhase::OpeningFinal => self.fill_final(),
            WorkerPhase::PreparingFinal { chunk } => {
                self.hand_out(chunk);
                self.final_chunks.push(chunk);
                self.phase = WorkerPhase::OpeningFinal;
                self.fill_final()
            },
            WorkerPhase::SubmittingFinal => self.poll_final(),
            WorkerPhase::Syncing => self.finish(),
            _ => Action::Stalled,
        }
    }

    /// Tells the machine what the poll it asked for has brought, and asks it
    /// what to do next.
    pub fn polled(&mut self, batch: &Vec<Completion>) -> (r: Action)
        requires
            old(self)@.wf(),
            old(self)@.may_bring(batch@),
        ensures
            (final(self)@, r) == old(self)@.polled(batch@),
            final(self)@.wf(),
    {
        let ghost before = self@;
        proof {
            lemma_polled_keeps_wf(self@, batch@);
            lemma_accepted_len(batch@);
        }
        let is_final = matches!(self.phase, WorkerPhase::PollingFinal);
        if batch.len() == 0 {
            if is_final {
                self.empty_polls = self.empty_polls + 1;
                return self.poll_final();
            } else {
                return self.end(Action::Failed { error: PipelineError::PollTimeout });
            }
        }
        let (n, sum) = absorb(batch, self.completed);
        self.completed = sum;
        if is_final {
            self.final_done = self.final_done + n;
            if n < batch.len() {
                self.end(Action::Failed { error: batch[n].refuse(Ring::Final) })
            } else {
                self.poll_final()
            }
        } else {
            let ghost queue = self.inflight@;
            let mut k: usize = 0;
            while k < n
                invariant
                    k <= n <= queue.len(),
                    self.inflight@ =~= queue.skip(k as int),
                    self@ == (WorkerView {
                        inflight: queue.skip(k as int),
                        completed: sum as int,
                        ..before
                    }),
                decreases n - k,
            {
                self.inflight.pop_front();
                k = k + 1;
            }
            if n < batch.len() {
                self.end(Action::Failed { error: batch[n].refuse(Ring::Main) })
            } else {
                self.phase = WorkerPhase::Start;
                self.head()
            }
        }
    }

    /// How many bytes of the file have been confirmed.
    pub fn completed_bytes(&self) -> (r: usize)
        ensures
            r == self@.completed,
    {
        self.completed
    }

    /// How far the buffer has been used.
    pub fn max_buffer_used(&self) -> (r: usize)
        ensures
            r == self@.high_water,
    {
        self.high_water
    }
}

} // verus!
