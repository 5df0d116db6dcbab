//! The copy loop that keeps its requests on a moving window of the buffer.
//!
//! The buffer is used round and round, block by block. The loop tolerates a
//! silent ring for a while, watches that the copy makes progress, and gives a
//! batch that is too small for the main ring to a ring of its own.

use crate::depth::{law_requests_fit_into_the_buffer, DepthLimits};
use crate::ring::{
    absorb, accepted_bytes, accepted_len, all_apart, lemma_accepted_len, Action, Chunk, Completion,
    PipelineError, Ring, RingOptions,
};
use crate::worker_pipeline::{blocks_for, count_blocks, lemma_blocks_for, min_int};
use std::collections::VecDeque;
use vstd::prelude::*;

verus! {

/// How long a poll of the main ring waits.
pub const POLL_TIMEOUT_MS: u64 = 30000;

/// How long a poll of the final ring waits.
pub const FINAL_POLL_TIMEOUT_MS: u64 = 60000;

/// How long the loop sleeps before it submits the last batch again.
pub const RESUBMIT_PAUSE_MS: u64 = 10;

/// How many polls in a row may come back empty.
pub const MAX_CONSECUTIVE_TIMEOUTS: usize = 5;

/// How many polls are made for requests that are still open at the end.
pub const MAX_DRAIN_POLLS: usize = 3;

/// How many seconds a copy may go without confirming a byte.
pub const STUCK_SECONDS: u64 = 60;

pub const NANOS_PER_SECOND: u64 = 1000000000;

/// What the machine waits for.
#[derive(Clone, Copy, Debug, PartialEq, Eq, Structural)]
pub enum RunPhase {
    /// The head of the loop.
    Start,
    /// `chunk` is being read and queued on the main ring.
    Preparing { chunk: Chunk },
    /// The main ring is being submitted.
    Submitting,
    /// The loop sleeps before it submits the last batch again.
    Pausing,
    /// The last batch is being submitted again.
    Resubmitting,
    /// The main ring is being polled.
    Polling,
    /// The main ring is being submitted again after an empty poll.
    Retrying,
    /// The final ring is being opened for what is left of the file.
    OpeningPartial,
    /// `chunk` is being read and queued on the final ring.
    PreparingPartial { chunk: Chunk },
    /// The target file is being synchronised before the last batch moves to
    /// the final ring.
    Syncing,
    /// The final ring is being opened for the last batch.
    OpeningLast,
    /// The chunk before the one with number `next` is being queued on the
    /// final ring.
    Requeuing { next: usize },
    /// The final ring is being submitted.
    SubmittingFinal,
    /// The final ring is being polled.
    PollingFinal,
    /// The main ring is being polled for requests that are still open.
    Draining,
    /// The copy is over.
    Closed,
}

/// The state of the machine.
#[verifier::ext_equal]
pub struct RunView {
    pub block_size: int,
    pub iov_size: int,
    pub depth: int,
    pub file_size: int,
    /// The requests on the main ring that have not been accounted for.
    pub inflight: Seq<Chunk>,
    /// The requests that went to the final ring.
    pub final_chunks: Seq<Chunk>,
    /// How much of the file has been handed out.
    pub src_offset: int,
    /// How much of the file has been confirmed.
    pub completed: int,
    /// How many chunks have been handed out on the main ring.
    pub handed: int,
    /// Something is queued that has not been submitted.
    pub need_submit: bool,
    /// How many polls in a row came back empty.
    pub timeouts: int,
    /// How much had been confirmed when progress was last seen, and when.
    pub last_completed: int,
    pub last_progress: int,
    /// How many polls were made for requests that are still open at the end.
    pub drain_polls: int,
    pub phase: RunPhase,
}

impl RunView {
    /// A copy of `file_size` bytes that has not begun.
    pub open spec fn initial(
        block_size: int,
        iov_size: int,
        depth: int,
        file_size: int,
        now: int,
    ) -> Self {
        RunView {
            block_size,
            iov_size,
            depth,
            file_size,
            inflight: Seq::empty(),
            final_chunks: Seq::empty(),
            src_offset: 0,
            completed: 0,
            handed: 0,
            need_submit: false,
            timeouts: 0,
            last_completed: 0,
            last_progress: now,
            drain_polls: 0,
            phase: RunPhase::Start,
        }
    }

    /// The size of the next chunk.
    pub open spec fn next_size(self) -> int {
        min_int(self.block_size, self.file_size - self.src_offset)
    }

    /// Where the chunk with number `k` of a ring is kept.
    pub open spec fn slot(self, k: int) -> int {
        (k * self.block_size) % self.iov_size
    }

    /// The next chunk of the file, when it is kept at `buf`.
    pub open spec fn next_chunk(self, buf: int) -> Chunk {
        Chunk {
            src_offset: self.src_offset as usize,
            size: self.next_size() as usize,
            buf_offset: buf as usize,
        }
    }

    /// The whole file has been handed out.
    pub open spec fn at_end(self) -> bool {
        self.src_offset >= self.file_size
    }

    pub open spec fn ends(self, action: Action) -> (RunView, Action) {
        (RunView { phase: RunPhase::Closed, ..self }, action)
    }

    pub open spec fn fails(self, error: PipelineError) -> (RunView, Action) {
        self.ends(Action::Failed { error })
    }

    /// The confirmed bytes must add up.
    pub open spec fn finish(self) -> (RunView, Action) {
        if self.completed == self.file_size {
            self.ends(Action::Finished)
        } else {
            self.fails(
                PipelineError::SizeMismatch {
                    completed: self.completed as usize,
                    expected: self.file_size as usize,
                },
            )
        }
    }

    /// The loop is over: requests that are still open are waited for.
    pub open spec fn drain(self) -> (RunView, Action) {
        if self.inflight.len() == 0 {
            self.finish()
        } else if self.drain_polls < MAX_DRAIN_POLLS {
            (
                RunView {
                    drain_polls: self.drain_polls + 1,
                    phase: RunPhase::Draining,
                    ..self
                },
                Action::Poll {
                    ring: Ring::Main,
                    max: self.inflight.len() as usize,
                    timeout_ms: POLL_TIMEOUT_MS,
                },
            )
        } else {
            self.fails(PipelineError::DrainFailed { left: self.inflight.len() as usize })
        }
    }

    /// The head of the loop.
    pub open spec fn head(self) -> (RunView, Action) {
        let left = blocks_for(self.file_size - self.src_offset, self.block_size);
        if self.completed >= self.file_size {
            self.drain()
        } else if self.inflight.len() == 0 && 0 < left < self.depth {
            (
                RunView { phase: RunPhase::OpeningPartial, ..self },
                Action::OpenFinal { entries: left as usize },
            )
        } else {
            self.fill()
        }
    }

    /// Hands out the next chunk, while the batch has room and the chunk fits
    /// before the end of the buffer.
    pub open spec fn fill(self) -> (RunView, Action) {
        if self.inflight.len() >= self.depth || self.at_end() || self.slot(self.handed)
            + self.next_size() > self.iov_size {
            self.flush()
        } else {
            let chunk = self.next_chunk(self.slot(self.handed));
            (
                RunView { phase: RunPhase::Preparing { chunk }, ..self },
                Action::Prepare { ring: Ring::Main, chunk },
            )
        }
    }

    /// Submits what is queued and polls; the end of the file in a batch that
    /// is not full moves to the final ring.
    pub open spec fn flush(self) -> (RunView, Action) {
        if self.inflight.len() == 0 {
            (RunView { phase: RunPhase::Start, ..self }, Action::Stalled)
        } else if self.at_end() && self.inflight.len() < self.depth {
            (RunView { phase: RunPhase::Syncing, ..self }, Action::Sync)
        } else if self.need_submit {
            (
                RunView { phase: RunPhase::Submitting, ..self },
                Action::Submit { ring: Ring::Main },
            )
        } else {
            self.poll()
        }
    }

    pub open spec fn poll(self) -> (RunView, Action) {
        (
            RunView { phase: RunPhase::Polling, ..self },
            Action::Poll {
                ring: Ring::Main,
                max: min_int(self.inflight.len() as int, self.depth) as usize,
                timeout_ms: POLL_TIMEOUT_MS,
            },
        )
    }

    /// Hands out the next chunk of what is left, or submits the final ring.
    pub open spec fn fill_partial(self) -> (RunView, Action) {
        let slot = self.slot(self.final_chunks.len() as int);
        if self.at_end() || slot + self.next_size() > self.iov_size {
            self.submit_final()
        } else {
            let chunk = self.next_chunk(slot);
            (
                RunView { phase: RunPhase::PreparingPartial { chunk }, ..self },
                Action::Prepare { ring: Ring::Final, chunk },
            )
        }
    }

    pub open spec fn submit_final(self) -> (RunView, Action) {
        (
            RunView { phase: RunPhase::SubmittingFinal, ..self },
            Action::Submit { ring: Ring::Final },
        )
    }

    /// Queues the chunk number `k` of the last batch again, or submits them.
    pub open spec fn requeue(self, k: int) -> (RunView, Action) {
        if k < self.final_chunks.len() {
            (
                RunView { phase: RunPhase::Requeuing { next: (k + 1) as usize }, ..self },
                Action::Requeue { chunk: self.final_chunks[k] },
            )
        } else {
            self.submit_final()
        }
    }

    /// `chunk` has been read and queued on the main ring.
    pub open spec fn prepared(self, chunk: Chunk) -> RunView {
        RunView {
            inflight: self.inflight.push(chunk),
            src_offset: self.src_offset + chunk.size,
            handed: self.handed + 1,
            need_submit: true,
            phase: RunPhase::Start,
            ..self
        }
    }

    /// `chunk` has been read and queued on the final ring.
    pub open spec fn prepared_partial(self, chunk: Chunk) -> RunView {
        RunView {
            final_chunks: self.final_chunks.push(chunk),
            src_offset: self.src_offset + chunk.size,
            phase: RunPhase::OpeningPartial,
            ..self
        }
    }

    /// The accepted front of the batch has been counted.
    pub open spec fn credited(self, batch: Seq<Completion>, now: int) -> RunView {
        RunView {
            inflight: self.inflight.skip(accepted_len(batch) as int),
            completed: self.completed + accepted_bytes(batch),
            timeouts: 0,
            last_completed: if self.completed > self.last_completed {
                self.completed
            } else {
                self.last_completed
            },
            last_progress: if self.completed > self.last_completed {
                now
            } else {
                self.last_progress
            },
            phase: RunPhase::Start,
            ..self
        }
    }

    /// What was asked for has been done: the state and the action after it.
    pub open spec fn advance(self) -> (RunView, Action) {
        match self.phase {
            RunPhase::Start => self.head(),
            RunPhase::Preparing { chunk } => self.prepared(chunk).fill(),
            RunPhase::Submitting => {
                let s = RunView { need_submit: false, ..self };
                if self.at_end() {
                    (
                        RunView { phase: RunPhase::Pausing, ..s },
                        Action::Pause { millis: RESUBMIT_PAUSE_MS },
                    )
                } else {
                    s.poll()
                }
            },
            RunPhase::Pausing => (
                RunView { phase: RunPhase::Resubmitting, ..self },
                Action::Submit { ring: Ring::Main },
            ),
            RunPhase::Resubmitting => self.poll(),
            RunPhase::Retrying => self.head(),
            RunPhase::OpeningPartial => self.fill_partial(),
            RunPhase::PreparingPartial { chunk } => self.prepared_partial(chunk).fill_partial(),
            RunPhase::Syncing => (
                RunView { phase: RunPhase::OpeningLast, ..self },
                Action::OpenFinal { entries: self.inflight.len() as usize },
            ),
            RunPhase::OpeningLast => RunView {
                inflight: Seq::empty(),
                final_chunks: self.inflight,
                ..self
            }.requeue(0),
            RunPhase::Requeuing { next } => self.requeue(next as int),
            RunPhase::SubmittingFinal => (
                RunView { phase: RunPhase::PollingFinal, ..self },
                Action::Poll {
                    ring: Ring::Final,
                    max: self.final_chunks.len() as usize,
                    timeout_ms: FINAL_POLL_TIMEOUT_MS,
                },
            ),
            _ => (self, Action::Stalled),
        }
    }

    /// The machine waits for completions.
    pub open spec fn is_polling(self) -> bool {
        self.phase is Polling || self.phase is PollingFinal || self.phase is Draining
    }

    /// The most completions that the poll under way may bring.
    pub open spec fn poll_max(self) -> int {
        if self.phase is PollingFinal {
            self.final_chunks.len() as int
        } else {
            min_int(self.inflight.len() as int, self.depth)
        }
    }

    /// The poll has brought `batch` at the time `now`: the state and the
    /// action after it.
    pub open spec fn polled(self, batch: Seq<Completion>, now: int) -> (RunView, Action) {
        if self.phase is PollingFinal {
            self.polled_final(batch)
        } else if self.phase is Draining {
            self.drained(batch)
        } else if batch.len() == 0 {
            self.timed_out()
        } else {
            self.polled_main(batch, now)
        }
    }

    /// The main ring completed nothing.
    pub open spec fn timed_out(self) -> (RunView, Action) {
        let s = RunView { timeouts: self.timeouts + 1, ..self };
        if s.timeouts >= MAX_CONSECUTIVE_TIMEOUTS {
            s.fails(
                PipelineError::RepeatedTimeout {
                    timeouts: s.timeouts as usize,
                    inflight: s.inflight.len() as usize,
                    completed: s.completed as usize,
                    file_size: s.file_size as usize,
                },
            )
        } else if s.at_end() {
            (RunView { phase: RunPhase::Retrying, ..s }, Action::Submit { ring: Ring::Main })
        } else {
            s.head()
        }
    }

    /// The copy has confirmed nothing since progress was last seen, and that
    /// is too long ago.
    pub open spec fn is_stuck(self, now: int) -> bool {
        &&& self.completed <= self.last_completed
        &&& now >= self.last_progress
        &&& (now - self.last_progress) / (NANOS_PER_SECOND as int) > STUCK_SECONDS
    }

    /// The main ring completed something.
    pub open spec fn polled_main(self, batch: Seq<Completion>, now: int) -> (RunView, Action) {
        let n = accepted_len(batch) as int;
        if self.is_stuck(now) {
            RunView { timeouts: 0, ..self }.fails(
                PipelineError::Stuck {
                    completed: self.completed as usize,
                    file_size: self.file_size as usize,
                },
            )
        } else if n < batch.len() {
            self.credited(batch, now).fails(batch[n].refusal(Ring::Main))
        } else {
            self.credited(batch, now).head()
        }
    }

    /// The final ring was polled.
    pub open spec fn polled_final(self, batch: Seq<Completion>) -> (RunView, Action) {
        let n = accepted_len(batch) as int;
        let s = RunView { completed: self.completed + accepted_bytes(batch), ..self };
        if batch.len() == 0 {
            self.fails(PipelineError::FinalTimeout { requests: self.final_chunks.len() as usize })
        } else if n < batch.len() {
            s.fails(batch[n].refusal(Ring::Final))
        } else {
            s.drain()
        }
    }

    /// The main ring was polled for requests that are still open.
    pub open spec fn drained(self, batch: Seq<Completion>) -> (RunView, Action) {
        let n = succeeded_len(batch) as int;
        let s = RunView {
            inflight: self.inflight.skip(n),
            completed: self.completed + result_bytes(batch.take(n)),
            ..self
        };
        if n < batch.len() {
            s.fails(batch[n].refusal(Ring::Final))
        } else {
            s.drain()
        }
    }
}

/// How many completions at the front of the batch have not failed before the
/// first one that has.
pub open spec fn succeeded_len(batch: Seq<Completion>) -> nat
    decreases batch.len(),
{
    if batch.len() == 0 {
        0
    } else {
        let n = succeeded_len(batch.drop_last());
        if n + 1 == batch.len() && batch.last().result >= 0 {
            n + 1
        } else {
            n
        }
    }
}

/// The number of bytes that the completions report as written.
pub open spec fn result_bytes(batch: Seq<Completion>) -> int
    decreases batch.len(),
{
    if batch.len() == 0 {
        0
    } else {
        result_bytes(batch.drop_last()) + batch.last().result
    }
}

impl RunView {
    /// Parameters that the loop can run with: a batch of more than one block
    /// fits into the buffer.
    pub open spec fn params_ok(self) -> bool {
        &&& 0 < self.block_size <= usize::MAX
        &&& 0 <= self.iov_size <= usize::MAX
        &&& 1 <= self.depth <= usize::MAX
        &&& 0 <= self.file_size <= usize::MAX
        &&& self.depth == 1 || self.depth * self.block_size <= self.iov_size
        &&& 0 < self.iov_size || self.file_size == 0
    }

    pub open spec fn in_partial(self) -> bool {
        self.phase is OpeningPartial || self.phase is PreparingPartial
    }

    /// The final ring is in use.
    pub open spec fn in_final(self) -> bool {
        ||| self.in_partial()
        ||| self.phase is Requeuing
        ||| self.phase is SubmittingFinal
        ||| self.phase is PollingFinal
    }

    /// The chunks are those with the numbers from `first` on, each in its
    /// place of the buffer.
    pub open spec fn window(self, chunks: Seq<Chunk>, first: int) -> bool {
        &&& 0 <= first
        &&& forall|i: int|
            0 <= i < chunks.len() ==> {
                let c = #[trigger] chunks[i];
                &&& c.buf_offset == self.slot(first + i)
                &&& 0 < c.size <= self.block_size
                &&& c.in_buffer(self.iov_size)
            }
    }

    /// `chunk` is the next one, it is kept at `slot` and fits there.
    pub open spec fn is_next(self, chunk: Chunk, slot: int) -> bool {
        &&& self.src_offset < self.file_size
        &&& slot + self.next_size() <= self.iov_size
        &&& chunk == self.next_chunk(slot)
    }

    /// What holds of every state of a copy.
    pub open spec fn wf(self) -> bool {
        &&& self.params_ok()
        &&& 0 <= self.src_offset <= self.file_size
        &&& 0 <= self.completed <= usize::MAX
        &&& self.inflight.len() <= self.depth
        &&& self.final_chunks.len() <= self.depth
        &&& 0 <= self.handed <= self.file_size
        &&& 0 <= self.timeouts <= MAX_CONSECUTIVE_TIMEOUTS
        &&& 0 <= self.last_completed <= usize::MAX
        &&& 0 <= self.last_progress <= u64::MAX
        &&& 0 <= self.drain_polls <= MAX_DRAIN_POLLS
        &&& all_apart(self.final_chunks)
        &&& self.window(self.inflight, self.handed - self.inflight.len())
        &&& (!self.in_final() && !(self.phase is Closed)) ==> {
            &&& self.final_chunks.len() == 0
            &&& self.timeouts < MAX_CONSECUTIVE_TIMEOUTS
            &&& self.src_offset < self.file_size ==> self.handed * self.block_size
                == self.src_offset
        }
        &&& self.in_final() ==> self.inflight.len() == 0
        &&& self.in_partial() ==> {
            &&& self.window(self.final_chunks, 0)
            &&& self.final_chunks.len() + blocks_for(
                self.file_size - self.src_offset,
                self.block_size,
            ) < self.depth
            &&& self.src_offset < self.file_size ==> self.final_chunks.len() * self.block_size
                <= self.src_offset
        }
        &&& match self.phase {
            RunPhase::Start => true,
            RunPhase::Preparing { chunk } => self.inflight.len() < self.depth && self.is_next(
                chunk,
                self.slot(self.handed),
            ),
            RunPhase::PreparingPartial { chunk } => self.is_next(
                chunk,
                self.slot(self.final_chunks.len() as int),
            ),
            RunPhase::Requeuing { next } => 0 < next <= self.final_chunks.len(),
            RunPhase::Syncing => self.at_end() && 0 < self.inflight.len(),
            RunPhase::OpeningLast => self.at_end() && 0 < self.inflight.len(),
            RunPhase::OpeningPartial => true,
            RunPhase::SubmittingFinal => true,
            RunPhase::PollingFinal => true,
            RunPhase::Closed => true,
            RunPhase::Draining => 0 < self.inflight.len() && 0 < self.drain_polls,
            _ => 0 < self.inflight.len(),
        }
    }

    /// The machine waits for something other than completions.
    pub open spec fn can_advance(self) -> bool {
        !self.is_polling() && !(self.phase is Closed)
    }

    /// What the poll under way may bring: no more completions than were asked
    /// for, and no more bytes than can be counted.
    pub open spec fn may_bring(self, batch: Seq<Completion>) -> bool {
        &&& self.is_polling()
        &&& batch.len() <= self.poll_max()
        &&& self.phase is Draining ==> self.completed + result_bytes(
            batch.take(succeeded_len(batch) as int),
        ) <= usize::MAX
        &&& !(self.phase is Draining) ==> self.completed + accepted_bytes(batch) <= usize::MAX
    }
}

/// Two places of the buffer that are fewer than a batch apart do not overlap.
pub(crate) proof fn lemma_slots_apart(s: RunView, a: int, b: int)
    requires
        s.params_ok(),
        0 < s.iov_size,
        0 <= a < b < a + s.depth,
    ensures
        s.slot(a) + s.block_size <= s.slot(b) || s.slot(b) + s.block_size <= s.slot(a),
        0 <= s.slot(a),
        0 <= s.slot(b),
{
    let m = s.block_size;
    let v = s.iov_size;
    let d = (b - a) * m;
    assert(s.depth >= 2);
    assert(m <= d && d <= v - m) by (nonlinear_arith)
        requires
            d == (b - a) * m,
            1 <= b - a <= s.depth - 1,
            s.depth * m <= v,
            0 < m,
    ;
    assert(b * m == a * m + d) by (nonlinear_arith)
        requires
            d == (b - a) * m,
    ;
    let p = s.slot(a);
    vstd::arithmetic::div_mod::lemma_fundamental_div_mod(a * m, v);
    let q = (a * m) / v;
    if p + d < v {
        assert(b * m == q * v + (p + d)) by (nonlinear_arith)
            requires
                b * m == a * m + d,
                a * m == v * q + p,
        ;
        vstd::arithmetic::div_mod::lemma_fundamental_div_mod_converse(b * m, v, q, p + d);
    } else {
        assert(b * m == (q + 1) * v + (p + d - v)) by (nonlinear_arith)
            requires
                b * m == a * m + d,
                a * m == v * q + p,
        ;
        vstd::arithmetic::div_mod::lemma_fundamental_div_mod_converse(
            b * m,
            v,
            q + 1,
            p + d - v,
        );
    }
}

/// The chunks of a window that is no longer than a batch share no byte of the
/// buffer.
pub(crate) proof fn lemma_window_apart(s: RunView, chunks: Seq<Chunk>, first: int)
    requires
        s.params_ok(),
        s.window(chunks, first),
        chunks.len() <= s.depth,
    ensures
        all_apart(chunks),
{
    assert forall|i: int, j: int| 0 <= i < j < chunks.len() implies (
    #[trigger] chunks[i]).apart_from(#[trigger] chunks[j]) by {
        assert(chunks[i].in_buffer(s.iov_size));
        lemma_slots_apart(s, first + i, first + j);
    }
}

pub(crate) proof fn lemma_succeeded_len(batch: Seq<Completion>)
    ensures
        succeeded_len(batch) <= batch.len(),
        forall|i: int| 0 <= i < succeeded_len(batch) ==> (#[trigger] batch[i]).result >= 0,
        succeeded_len(batch) < batch.len() ==> batch[succeeded_len(batch) as int].result < 0,
    decreases batch.len(),
{
    if batch.len() > 0 {
        let front = batch.drop_last();
        lemma_succeeded_len(front);
        assert(forall|i: int| 0 <= i < front.len() ==> #[trigger] batch[i] == front[i]);
    }
}

proof fn lemma_succeeded_len_is(batch: Seq<Completion>, n: int)
    requires
        0 <= n <= batch.len(),
        forall|i: int| 0 <= i < n ==> (#[trigger] batch[i]).result >= 0,
        n < batch.len() ==> batch[n].result < 0,
    ensures
        succeeded_len(batch) == n,
{
    lemma_succeeded_len(batch);
    if succeeded_len(batch) < n {
        assert(batch[succeeded_len(batch) as int].result >= 0);
    }
    if n < succeeded_len(batch) {
        assert(batch[n].result >= 0);
    }
}

proof fn lemma_result_bytes_take(batch: Seq<Completion>, n: int, m: int)
    requires
        0 <= n <= m <= batch.len(),
        forall|i: int| 0 <= i < m ==> (#[trigger] batch[i]).result >= 0,
    ensures
        0 <= result_bytes(batch.take(n)) <= result_bytes(batch.take(m)),
    decreases m,
{
    if n < m {
        assert(batch.take(m).drop_last() =~= batch.take(m - 1));
        lemma_result_bytes_take(batch, n, m - 1);
    } else if 0 < m {
        assert(batch.take(m).drop_last() =~= batch.take(m - 1));
        lemma_result_bytes_take(batch, m - 1, m - 1);
    }
}

pub(crate) proof fn lemma_fill_keeps_wf(s: RunView)
    requires
        s.wf(),
        s.phase is Start,
    ensures
        s.fill().0.wf(),
{
}

proof fn lemma_head_keeps_wf(s: RunView)
    requires
        s.wf(),
        s.phase is Start,
    ensures
        s.head().0.wf(),
{
    lemma_blocks_for(s.file_size - s.src_offset, s.block_size);
    lemma_fill_keeps_wf(s);
    lemma_drain_keeps_wf(s);
}

proof fn lemma_drain_keeps_wf(s: RunView)
    requires
        s.wf(),
        s.phase is Start || s.inflight.len() == 0,
    ensures
        s.drain().0.wf(),
{
}

proof fn lemma_fill_partial_keeps_wf(s: RunView)
    requires
        s.wf(),
        s.phase is OpeningPartial,
    ensures
        s.fill_partial().0.wf(),
{
    lemma_blocks_for(s.file_size - s.src_offset, s.block_size);
}

pub(crate) proof fn lemma_prepared_keeps_wf(s: RunView, chunk: Chunk)
    requires
        s.wf(),
        s.phase == (RunPhase::Preparing { chunk }),
    ensures
        s.prepared(chunk).wf(),
        s.handed < s.file_size,
{
    let t = s.prepared(chunk);
    assert(s.handed <= s.src_offset && t.handed * t.block_size == s.src_offset + s.block_size)
        by (nonlinear_arith)
        requires
            s.handed * s.block_size == s.src_offset,
            0 < s.block_size,
            0 <= s.handed,
            t.handed == s.handed + 1,
            t.block_size == s.block_size,
    ;
    assert(0 <= s.slot(s.handed)) by {
        vstd::arithmetic::div_mod::lemma_mod_bound(s.handed * s.block_size, s.iov_size);
    }
    assert(t.window(t.inflight, t.handed - t.inflight.len()));
}

proof fn lemma_prepared_partial_keeps_wf(s: RunView, chunk: Chunk)
    requires
        s.wf(),
        s.phase == (RunPhase::PreparingPartial { chunk }),
    ensures
        s.prepared_partial(chunk).wf(),
{
    let t = s.prepared_partial(chunk);
    let k = s.final_chunks.len() as int;
    lemma_blocks_for(s.file_size - s.src_offset, s.block_size);
    assert(t.final_chunks.len() * t.block_size == k * s.block_size + s.block_size)
        by (nonlinear_arith)
        requires
            t.final_chunks.len() == k + 1,
            t.block_size == s.block_size,
    ;
    assert(0 <= s.slot(k)) by {
        vstd::arithmetic::div_mod::lemma_mod_bound(k * s.block_size, s.iov_size);
    }
    assert(t.window(t.final_chunks, 0));
    lemma_window_apart(t, t.final_chunks, 0);
}

pub(crate) proof fn lemma_polled_main_keeps_wf(s: RunView, batch: Seq<Completion>, now: int)
    requires
        s.wf(),
        s.phase is Polling,
        s.may_bring(batch),
        0 <= now <= u64::MAX,
    ensures
        s.credited(batch, now).wf(),
{
    lemma_accepted_len(batch);
    crate::ring::lemma_expected_bytes_take(batch, 0, accepted_len(batch) as int);
    assert(batch.take(0) =~= Seq::<Completion>::empty());
    let t = s.credited(batch, now);
    assert(t.window(t.inflight, t.handed - t.inflight.len()));
}

proof fn lemma_drained_keeps_wf(s: RunView, batch: Seq<Completion>)
    requires
        s.wf(),
        s.phase is Draining,
        s.may_bring(batch),
    ensures
        (RunView {
            inflight: s.inflight.skip(succeeded_len(batch) as int),
            completed: s.completed + result_bytes(batch.take(succeeded_len(batch) as int)),
            phase: RunPhase::Start,
            ..s
        }).wf(),
{
    lemma_succeeded_len(batch);
    let m = succeeded_len(batch) as int;
    lemma_result_bytes_take(batch, 0, m);
    assert(batch.take(0) =~= Seq::<Completion>::empty());
    let t = RunView {
        inflight: s.inflight.skip(m),
        completed: s.completed + result_bytes(batch.take(m)),
        phase: RunPhase::Start,
        ..s
    };
    assert(t.window(t.inflight, t.handed - t.inflight.len()));
}

/// Whatever is done, what holds of every state of a copy still holds.
pub proof fn lemma_advance_keeps_wf(s: RunView)
    requires
        s.wf(),
        s.can_advance(),
    ensures
        s.advance().0.wf(),
{
    lemma_blocks_for(s.file_size - s.src_offset, s.block_size);
    match s.phase {
        RunPhase::Start => lemma_head_keeps_wf(s),
        RunPhase::Preparing { chunk } => {
            let t = s.prepared(chunk);
            lemma_prepared_keeps_wf(s, chunk);
            lemma_fill_keeps_wf(t);
        },
        RunPhase::Retrying => {
            let t = RunView { phase: RunPhase::Start, ..s };
            lemma_head_keeps_wf(t);
            assert(s.head() == t.head());
        },
        RunPhase::OpeningPartial => lemma_fill_partial_keeps_wf(s),
        RunPhase::PreparingPartial { chunk } => {
            let t = s.prepared_partial(chunk);
            lemma_prepared_partial_keeps_wf(s, chunk);
            lemma_fill_partial_keeps_wf(t);
        },
        RunPhase::OpeningLast => {
            lemma_window_apart(s, s.inflight, s.handed - s.inflight.len());
        },
        _ => {},
    }
}

/// Whatever completions arrive, what holds of every state of a copy still
/// holds.
pub proof fn lemma_polled_keeps_wf(s: RunView, batch: Seq<Completion>, now: int)
    requires
        s.wf(),
        s.may_bring(batch),
        0 <= now <= u64::MAX,
    ensures
        s.polled(batch, now).0.wf(),
{
    lemma_accepted_len(batch);
    lemma_succeeded_len(batch);
    let n = accepted_len(batch) as int;
    let m = succeeded_len(batch) as int;
    crate::ring::lemma_expected_bytes_take(batch, 0, n);
    lemma_result_bytes_take(batch, 0, m);
    assert(batch.take(0) =~= Seq::<Completion>::empty());
    if s.phase is Polling {
        if batch.len() == 0 {
            let t = RunView { timeouts: s.timeouts + 1, phase: RunPhase::Start, ..s };
            if t.timeouts < MAX_CONSECUTIVE_TIMEOUTS {
                lemma_head_keeps_wf(t);
                let u = RunView { phase: s.phase, ..t };
                assert(u.head() == t.head());
            }
        } else {
            let t = s.credited(batch, now);
            lemma_polled_main_keeps_wf(s, batch, now);
            lemma_head_keeps_wf(t);
        }
    } else if s.phase is Draining {
        let t = RunView {
            inflight: s.inflight.skip(m),
            completed: s.completed + result_bytes(batch.take(m)),
            phase: RunPhase::Start,
            ..s
        };
        lemma_drained_keeps_wf(s, batch);
        lemma_drain_keeps_wf(t);
        let u = RunView { phase: s.phase, ..t };
        assert(u.drain() == t.drain());
    }
}

/// The copy of one file.
pub struct PipelineRun {
    block_size: usize,
    iov_size: usize,
    depth: usize,
    file_size: usize,
    inflight: VecDeque<Chunk>,
    final_chunks: Vec<Chunk>,
    src_offset: usize,
    completed: usize,
    handed: usize,
    need_submit: bool,
    timeouts: usize,
    last_completed: usize,
    last_progress: u64,
    drain_polls: usize,
    phase: RunPhase,
}

impl View for PipelineRun {
    type V = RunView;

    closed spec fn view(&self) -> RunView {
        RunView {
            block_size: self.block_size as int,
            iov_size: self.iov_size as int,
            depth: self.depth as int,
            file_size: self.file_size as int,
            inflight: self.inflight@,
            final_chunks: self.final_chunks@,
            src_offset: self.src_offset as int,
            completed: self.completed as int,
            handed: self.handed as int,
            need_submit: self.need_submit,
            timeouts: self.timeouts as int,
            last_completed: self.last_completed as int,
            last_progress: self.last_progress as int,
            drain_polls: self.drain_polls as int,
            phase: self.phase,
        }
    }
}

/// Counts the completions at the front of a batch that have not failed: how
/// many they are, and `completed` increased by the bytes that they report.
fn absorb_results(batch: &Vec<Completion>, completed: usize) -> (r: (usize, usize))
    requires
        completed + result_bytes(batch@.take(succeeded_len(batch@) as int)) <= usize::MAX,
    ensures
        r.0 == succeeded_len(batch@),
        r.1 == completed + result_bytes(batch@.take(succeeded_len(batch@) as int)),
{
    let mut n: usize = 0;
    let mut sum: usize = completed;
    assert(batch@.take(0) =~= Seq::<Completion>::empty());
    proof {
        lemma_succeeded_len(batch@);
    }
    let ghost all = succeeded_len(batch@) as int;
    while n < batch.len() && batch[n].result >= 0
        invariant
            n <= batch.len(),
            forall|i: int| 0 <= i < n ==> (#[trigger] batch@[i]).result >= 0,
            all == succeeded_len(batch@),
            n <= all <= batch.len(),
            all < batch.len() ==> batch@[all].result < 0,
            forall|i: int| 0 <= i < all ==> (#[trigger] batch@[i]).result >= 0,
            sum == completed + result_bytes(batch@.take(n as int)),
            completed + result_bytes(batch@.take(all)) <= usize::MAX,
        decreases batch.len() - n,
    {
        proof {
            assert(batch@[n as int].result >= 0);
            assert(n < all);
            lemma_result_bytes_take(batch@, n + 1, all);
            assert(batch@.take(n + 1).drop_last() =~= batch@.take(n as int));
        }
        sum = sum + batch[n].result as usize;
        n = n + 1;
    }
    proof {
        lemma_succeeded_len_is(batch@, n as int);
    }
    (n, sum)
}

impl PipelineRun {
    /// Starts the copy of a file of `file_size` bytes through a buffer of
    /// `iov_size` bytes, `block_size` bytes and `depth` requests at a time,
    /// at the time `now`, in nanoseconds.
    pub fn new(
        block_size: usize,
        iov_size: usize,
        depth: usize,
        file_size: u64,
        now: u64,
    ) -> (r: Self)
        requires
            0 < block_size,
            1 <= depth,
            depth == 1 || depth * block_size <= iov_size,
            0 < iov_size || file_size == 0,
            file_size <= usize::MAX,
        ensures
            r@ == RunView::initial(
                block_size as int,
                iov_size as int,
                depth as int,
                file_size as int,
                now as int,
            ),
            r@.wf(),
    {
        let r = PipelineRun {
            block_size,
            iov_size,
            depth,
            file_size: file_size as usize,
            inflight: VecDeque::new(),
            final_chunks: Vec::new(),
            src_offset: 0,
            completed: 0,
            handed: 0,
            need_submit: false,
            timeouts: 0,
            last_completed: 0,
            last_progress: now,
            drain_polls: 0,
            phase: RunPhase::Start,
        };
        assert(r.inflight@ =~= Seq::<Chunk>::empty());
        assert(r.final_chunks@ =~= Seq::<Chunk>::empty());
        assert(0 * block_size == 0);
        r
    }

    fn next_size(&self) -> (r: usize)
        requires
            self@.wf(),
        ensures
            r == self@.next_size(),
    {
        let left = self.file_size - self.src_offset;
        if self.block_size <= left {
            self.block_size
        } else {
            left
        }
    }

    fn end(&mut self, action: Action) -> (r: Action)
        ensures
            (final(self)@, r) == old(self)@.ends(action),
    {
        self.phase = RunPhase::Closed;
        action
    }

    fn fail(&mut self, error: PipelineError) -> (r: Action)
        ensures
            (final(self)@, r) == old(self)@.fails(error),
    {
        self.end(Action::Failed { error })
    }

    fn finish(&mut self) -> (r: Action)
        ensures
            (final(self)@, r) == old(self)@.finish(),
    {
        if self.completed == self.file_size {
            self.end(Action::Finished)
        } else {
            self.fail(
                PipelineError::SizeMismatch {
                    completed: self.completed,
                    expected: self.file_size,
                },
            )
        }
    }

    fn drain(&mut self) -> (r: Action)
        requires
            old(self)@.wf(),
        ensures
            (final(self)@, r) == old(self)@.drain(),
    {
        let open = self.inflight.len();
        if open == 0 {
            self.finish()
        } else if self.drain_polls < MAX_DRAIN_POLLS {
            self.drain_polls = self.drain_polls + 1;
            self.phase = RunPhase::Draining;
            Action::Poll { ring: Ring::Main, max: open, timeout_ms: POLL_TIMEOUT_MS }
        } else {
            self.fail(PipelineError::DrainFailed { left: open })
        }
    }

    fn head(&mut self) -> (r: Action)
        requires
            old(self)@.wf(),
            old(self)@.phase is Start,
        ensures
            (final(self)@, r) == old(self)@.head(),
    {
        let left = count_blocks(self.file_size - self.src_offset, self.block_size);
        if self.completed >= self.file_size {
            self.drain()
        } else if self.inflight.len() == 0 && 0 < left && left < self.depth {
            self.phase = RunPhase::OpeningPartial;
            Action::OpenFinal { entries: left }
        } else {
            self.fill()
        }
    }

    fn fill(&mut self) -> (r: Action)
        requires
            old(self)@.wf(),
            old(self)@.phase is Start,
        ensures
            (final(self)@, r) == old(self)@.fill(),
    {
        if self.inflight.len() >= self.depth || self.src_offset >= self.file_size {
            return self.flush();
        }
        proof {
            assert(self@.handed * self@.block_size == self@.src_offset);
            vstd::arithmetic::div_mod::lemma_mod_bound(self@.src_offset, self@.iov_size);
        }
        let slot = (self.handed * self.block_size) % self.iov_size;
        let size = self.next_size();
        if size > self.iov_size - slot {
            self.flush()
        } else {
            let chunk = Chunk { src_offset: self.src_offset, size, buf_offset: slot };
            self.phase = RunPhase::Preparing { chunk };
            Action::Prepare { ring: Ring::Main, chunk }
        }
    }

    fn flush(&mut self) -> (r: Action)
        ensures
            (final(self)@, r) == old(self)@.flush(),
    {
        let open = self.inflight.len();
        if open == 0 {
            self.phase = RunPhase::Start;
            Action::Stalled
        } else if self.src_offset >= self.file_size && open < self.depth {
            self.phase = RunPhase::Syncing;
            Action::Sync
        } else if self.need_submit {
            self.phase = RunPhase::Submitting;
            Action::Submit { ring: Ring::Main }
        } else {
            self.poll()
        }
    }

    fn poll(&mut self) -> (r: Action)
        ensures
            (final(self)@, r) == old(self)@.poll(),
    {
        self.phase = RunPhase::Polling;
        let open = self.inflight.len();
        Action::Poll {
            ring: Ring::Main,
            max: if open <= self.depth {
                open
            } else {
                self.depth
            },
            timeout_ms: POLL_TIMEOUT_MS,
        }
    }

    fn fill_partial(&mut self) -> (r: Action)
        requires
            old(self)@.wf(),
            old(self)@.phase is OpeningPartial,
        ensures
            (final(self)@, r) == old(self)@.fill_partial(),
    {
        if self.src_offset >= self.file_size {
            return self.submit_final();
        }
        let k = self.final_chunks.len();
        proof {
            vstd::arithmetic::div_mod::lemma_mod_bound(
                k as int * self@.block_size,
                self@.iov_size,
            );
            assert(0 <= k as int * self@.block_size) by (nonlinear_arith)
                requires
                    0 < self@.block_size,
            ;
        }
        let slot = (k * self.block_size) % self.iov_size;
        let size = self.next_size();
        if size > self.iov_size - slot {
            self.submit_final()
        } else {
            let chunk = Chunk { src_offset: self.src_offset, size, buf_offset: slot };
            self.phase = RunPhase::PreparingPartial { chunk };
            Action::Prepare { ring: Ring::Final, chunk }
        }
    }

    fn submit_final(&mut self) -> (r: Action)
        ensures
            (final(self)@, r) == old(self)@.submit_final(),
    {
        self.phase = RunPhase::SubmittingFinal;
        Action::Submit { ring: Ring::Final }
    }

    fn requeue(&mut self, k: usize) -> (r: Action)
        requires
            old(self)@.final_chunks.len() <= usize::MAX,
        ensures
            (final(self)@, r) == old(self)@.requeue(k as int),
    {
        if k < self.final_chunks.len() {
            self.phase = RunPhase::Requeuing { next: k + 1 };
            Action::Requeue { chunk: self.final_chunks[k] }
        } else {
            self.submit_final()
        }
    }

    /// Moves what is in flight to the list of the final ring.
    fn move_to_final(&mut self)
        requires
            old(self)@.wf(),
            old(self)@.phase is OpeningLast,
        ensures
            final(self)@ == (RunView {
                inflight: Seq::empty(),
                final_chunks: old(self)@.inflight,
                ..old(self)@
            }),
    {
        let ghost queue = self.inflight@;
        let ghost before = self@;
        let total = self.inflight.len();
        let mut k: usize = 0;
        while k < total
            invariant
                total == queue.len(),
                k <= total,
                self.inflight@ =~= queue.skip(k as int),
                self.final_chunks@ =~= queue.take(k as int),
                self@ == (RunView {
                    inflight: queue.skip(k as int),
                    final_chunks: queue.take(k as int),
                    ..before
                }),
            decreases total - k,
        {
            match self.inflight.pop_front() {
                Some(chunk) => {
                    self.final_chunks.push(chunk);
                },
                None => {},
            }
            k = k + 1;
        }
        assert(queue.skip(total as int) =~= Seq::<Chunk>::empty());
        assert(queue.take(total as int) =~= queue);
    }

    /// Tells the machine that what it asked for has been done, and asks it
    /// what to do next. The first call starts the copy.
    pub fn advance(&mut self) -> (r: Action)
        requires
            old(self)@.wf(),
            old(self)@.can_advance(),
        ensures
            (final(self)@, r) == old(self)@.advance(),
            final(self)@.wf(),
    {
        proof {
            lemma_advance_keeps_wf(self@);
        }
        match self.phase {
            RunPhase::Start => self.head(),
            RunPhase::Preparing { chunk } => {
                let ghost before = self@;
                proof {
                    lemma_prepared_keeps_wf(self@, chunk);
                }
                self.inflight.push_back(chunk);
                self.src_offset = self.src_offset + chunk.size;
                self.handed = self.handed + 1;
                self.need_submit = true;
                self.phase = RunPhase::Start;
                assert(self@ == before.prepared(chunk));
                self.fill()
            },
            RunPhase::Submitting => {
                self.need_submit = false;
                if self.src_offset >= self.file_size {
                    self.phase = RunPhase::Pausing;
                    Action::Pause { millis: RESUBMIT_PAUSE_MS }
                } else {
                    self.poll()
                }
            },
            RunPhase::Pausing => {
                self.phase = RunPhase::Resubmitting;
                Action::Submit { ring: Ring::Main }
            },
            RunPhase::Resubmitting => self.poll(),
            RunPhase::Retrying => {
                self.phase = RunPhase::Start;
                self.head()
            },
            RunPhase::OpeningPartial => self.fill_partial(),
            RunPhase::PreparingPartial { chunk } => {
                let ghost before = self@;
                proof {
                    lemma_prepared_partial_keeps_wf(self@, chunk);
                }
                self.final_chunks.push(chunk);
                self.src_offset = self.src_offset + chunk.size;
                self.phase = RunPhase::OpeningPartial;
                assert(self@ == before.prepared_partial(chunk));
                self.fill_partial()
            },
            RunPhase::Syncing => {
                self.phase = RunPhase::OpeningLast;
                Action::OpenFinal { entries: self.inflight.len() }
            },
            RunPhase::OpeningLast => {
                self.move_to_final();
                self.requeue(0)
            },
            RunPhase::Requeuing { next } => self.requeue(next),
            RunPhase::SubmittingFinal => {
                self.phase = RunPhase::PollingFinal;
                Action::Poll {
                    ring: Ring::Final,
                    max: self.final_chunks.len(),
                    timeout_ms: FINAL_POLL_TIMEOUT_MS,
                }
            },
            _ => Action::Stalled,
        }
    }

    /// Forgets the first `n` requests in flight.
    fn drop_front(&mut self, n: usize)
        requires
            n <= old(self)@.inflight.len(),
        ensures
            final(self)@ == (RunView {
                inflight: old(self)@.inflight.skip(n as int),
                ..old(self)@
            }),
    {
        let ghost queue = self.inflight@;
        let ghost before = self@;
        let mut k: usize = 0;
        assert(queue.skip(0) =~= queue);
        while k < n
            invariant
                k <= n <= queue.len(),
                self.inflight@ =~= queue.skip(k as int),
                self@ == (RunView { inflight: queue.skip(k as int), ..before }),
            decreases n - k,
        {
            self.inflight.pop_front();
            k = k + 1;
        }
    }

    fn time_out(&mut self) -> (r: Action)
        requires
            old(self)@.wf(),
            old(self)@.phase is Polling,
        ensures
            (final(self)@, r) == old(self)@.timed_out(),
    {
        self.timeouts = self.timeouts + 1;
        if self.timeouts >= MAX_CONSECUTIVE_TIMEOUTS {
            self.fail(
                PipelineError::RepeatedTimeout {
                    timeouts: self.timeouts,
                    inflight: self.inflight.len(),
                    completed: self.completed,
                    file_size: self.file_size,
                },
            )
        } else if self.src_offset >= self.file_size {
            self.phase = RunPhase::Retrying;
            Action::Submit { ring: Ring::Main }
        } else {
            self.phase = RunPhase::Start;
            self.head()
        }
    }

    fn polled_main(&mut self, batch: &Vec<Completion>, now: u64) -> (r: Action)
        requires
            old(self)@.wf(),
            old(self)@.phase is Polling,
            old(self)@.may_bring(batch@),
            0 < batch@.len(),
        ensures
            (final(self)@, r) == old(self)@.polled_main(batch@, now as int),
    {
        proof {
            lemma_accepted_len(batch@);
            lemma_polled_main_keeps_wf(self@, batch@, now as int);
        }
        let ghost before = self@;
        self.timeouts = 0;
        if self.completed > self.last_completed {
            self.last_completed = self.completed;
            self.last_progress = now;
        } else if now >= self.last_progress && (now - self.last_progress) / NANOS_PER_SECOND
            > STUCK_SECONDS {
            return self.fail(
                PipelineError::Stuck { completed: self.completed, file_size: self.file_size },
            );
        }
        let (n, sum) = absorb(batch, self.completed);
        self.completed = sum;
        self.drop_front(n);
        if n < batch.len() {
            self.fail(batch[n].refuse(Ring::Main))
        } else {
            self.phase = RunPhase::Start;
            assert(self@ == before.credited(batch@, now as int));
            self.head()
        }
    }

    /// Tells the machine what the poll it asked for has brought, and when, in
    /// nanoseconds, and asks it what to do next.
    pub fn polled(&mut self, batch: &Vec<Completion>, now: u64) -> (r: Action)
        requires
            old(self)@.wf(),
            old(self)@.may_bring(batch@),
        ensures
            (final(self)@, r) == old(self)@.polled(batch@, now as int),
            final(self)@.wf(),
    {
        proof {
            lemma_polled_keeps_wf(self@, batch@, now as int);
            lemma_accepted_len(batch@);
            lemma_succeeded_len(batch@);
            assert(batch@.take(0) =~= Seq::<Completion>::empty());
        }
        match self.phase {
            RunPhase::PollingFinal => {
                if batch.len() == 0 {
                    return self.fail(
                        PipelineError::FinalTimeout { requests: self.final_chunks.len() },
                    );
                }
                let (n, sum) = absorb(batch, self.completed);
                self.completed = sum;
                if n < batch.len() {
                    self.fail(batch[n].refuse(Ring::Final))
                } else {
                    self.drain()
                }
            },
            RunPhase::Draining => {
                let (n, sum) = absorb_results(batch, self.completed);
                proof {
                    lemma_drained_keeps_wf(self@, batch@);
                }
                self.completed = sum;
                self.drop_front(n);
                if n < batch.len() {
                    self.fail(batch[n].refuse(Ring::Final))
                } else {
                    self.phase = RunPhase::Start;
                    self.drain()
                }
            },
            _ => {
                if batch.len() == 0 {
                    self.time_out()
                } else {
                    self.polled_main(batch, now)
                }
            },
        }
    }

    /// How many bytes of the file have been confirmed.
    pub fn completed_bytes(&self) -> (r: usize)
        ensures
            r == self@.completed,
    {
        self.completed
    }
}

/// What a pipeline processor was made with.
#[verifier::ext_equal]
pub struct ProcessorView {
    pub mount_point: Seq<char>,
    pub limits: DepthLimits,
    pub debug: bool,
}

impl ProcessorView {
    /// The file can be copied at all: there is a depth for it that a ring can
    /// have, and a buffer that its chunks can be kept in.
    pub open spec fn can_copy(self, file_size: int) -> bool {
        &&& self.limits.block_size > 0
        &&& self.limits.depth(file_size) <= i32::MAX
        &&& 0 < self.limits.iov_size || file_size == 0
        &&& file_size <= usize::MAX
    }
}

impl ProcessorView {
    /// The ring and the run of a copy of a file of `file_size` bytes that starts at
    /// the time `now`. Nothing can be copied where no request is allowed.
    pub open spec fn started(self, file_size: int, now: int) -> Result<
        (RingOptions, RunView),
        PipelineError,
    > {
        let depth = self.limits.depth(file_size);
        if depth == 0 {
            Err(PipelineError::ZeroDepth)
        } else {
            Ok(
                (
                    RingOptions::main_ring(depth),
                    RunView::initial(
                        self.limits.block_size as int,
                        self.limits.iov_size as int,
                        depth,
                        file_size,
                        now,
                    ),
                ),
            )
        }
    }
}

/// Copies files through a buffer, with a depth that suits each file.
pub struct PipelineProcessor {
    mount_point: String,
    limits: DepthLimits,
    debug: bool,
}

impl View for PipelineProcessor {
    type V = ProcessorView;

    closed spec fn view(&self) -> ProcessorView {
        ProcessorView { mount_point: self.mount_point@, limits: self.limits, debug: self.debug }
    }
}

/// A run that begins, and the ring that it runs on.
pub struct StartedRun {
    pub ring: RingOptions,
    pub depth: usize,
    pub run: PipelineRun,
}

impl PipelineProcessor {
    /// A processor for the file system that is mounted at `mount_point`.
    pub fn new(
        mount_point: String,
        block_size: usize,
        min_pipeline_depth: usize,
        max_pipeline_depth: usize,
        iov_size: usize,
        debug: bool,
    ) -> (r: Self)
        ensures
            r@ == (ProcessorView {
                mount_point: mount_point@,
                limits: (DepthLimits {
                    block_size,
                    min_depth: min_pipeline_depth,
                    max_depth: max_pipeline_depth,
                    iov_size,
                }),
                debug,
            }),
    {
        PipelineProcessor {
            mount_point,
            limits: DepthLimits {
                block_size,
                min_depth: min_pipeline_depth,
                max_depth: max_pipeline_depth,
                iov_size,
            },
            debug,
        }
    }

    /// The depth for a file of `file_size` bytes.
    pub fn calculate_pipeline_depth(&self, file_size: u64) -> (r: usize)
        requires
            self@.limits.block_size > 0,
        ensures
            r == self@.limits.depth(file_size as int),
    {
        self.limits.calculate(file_size)
    }

    /// Whether a file of `file_size` bytes can be copied at all.
    pub fn can_copy(&self, file_size: u64) -> (r: bool)
        ensures
            r == self@.can_copy(file_size as int),
    {
        self.limits.block_size > 0 && self.limits.calculate(file_size) as u64
            <= i32::MAX as u64 && (0 < self.limits.iov_size || file_size == 0) && file_size
            <= usize::MAX as u64
    }

    /// Starts the copy of a file of `file_size` bytes at the time `now`, in
    /// nanoseconds. Nothing can be copied where no request is allowed.
    pub fn execute(&self, file_size: u64, now: u64) -> (r: Result<StartedRun, PipelineError>)
        requires
            self@.can_copy(file_size as int),
        ensures
            match r {
                Ok(started) => {
                    &&& self@.started(file_size as int, now as int) == Ok::<
                        (RingOptions, RunView),
                        PipelineError,
                    >((started.ring, started.run@))
                    &&& started.depth == self@.limits.depth(file_size as int)
                    &&& started.run@.wf()
                },
                Err(e) => self@.started(file_size as int, now as int) == Err::<
                    (RingOptions, RunView),
                    PipelineError,
                >(e),
            },
    {
        let depth = self.calculate_pipeline_depth(file_size);
        if depth == 0 {
            return Err(PipelineError::ZeroDepth);
        }
        proof {
            law_requests_fit_into_the_buffer(self.limits, file_size as int);
        }
        let run = PipelineRun::new(
            self.limits.block_size,
            self.limits.iov_size,
            depth,
            file_size,
            now,
        );
        Ok(StartedRun { ring: RingOptions::for_batches(depth), depth, run })
    }

    /// The file system that the rings belong to.
    pub fn mount_point(&self) -> (r: &str)
        ensures
            r@ == self@.mount_point,
    {
        self.mount_point.as_str()
    }

    /// Whether the user wants to know the details.
    pub fn debug(&self) -> (r: bool)
        ensures
            r == self@.debug,
    {
        self.debug
    }
}

} // verus!
