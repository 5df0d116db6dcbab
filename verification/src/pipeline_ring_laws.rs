//! How the round-robin copy loop uses its rings, whatever they report.
//!
//! The laws are told in what the copy asks for and what the rings report, and in
//! nothing that the copy keeps to itself.

use crate::pipeline::{
    lemma_advance_keeps_wf, lemma_polled_keeps_wf, lemma_succeeded_len, result_bytes, succeeded_len,
    RunPhase, RunView,
};
use crate::pipeline_laws::{
    law_requests_share_no_buffer, lemma_advance_keeps_params, lemma_chunk_bytes_bounds,
    lemma_chunk_bytes_push, lemma_chunk_bytes_split, lemma_polled_keeps_params,
};
use crate::ring::{
    accepted_len, chunk_bytes, expected_bytes, lemma_accepted_len, tiles, Action, Chunk, Completion,
    PipelineError, Ring,
};
use crate::ring_traffic::{all_written, first_refused, Sizes, Traffic};
use crate::worker_pipeline::{blocks_for, lemma_blocks_for};
use vstd::prelude::*;

verus! {

/// What happens to a copy: what it asked for has been done, or its poll has brought
/// a batch of completions at the time `now`.
pub enum SeenEvent {
    Done,
    Polled { batch: Seq<Completion>, now: int },
}

/// A copy that is watched from outside, and the time at which it began.
#[verifier::ext_equal]
pub struct WatchedRun {
    pub state: RunView,
    pub traffic: Traffic,
    pub begun: int,
}

/// The main ring is polled although the whole file was confirmed: what is still open
/// is waited for.
pub open spec fn is_draining(t: Traffic, sizes: Sizes) -> bool {
    t.polls(Ring::Main) && t.counted >= sizes.file_size
}

/// What is seen after the poll has brought the batch.
pub open spec fn seen_after(t: Traffic, sizes: Sizes, batch: Seq<Completion>) -> Traffic {
    if is_draining(t, sizes) {
        t.drained(batch)
    } else {
        t.reported(batch)
    }
}

impl WatchedRun {
    pub open spec fn start(sizes: Sizes, begun: int) -> WatchedRun {
        WatchedRun {
            state: RunView::initial(
                sizes.block_size,
                sizes.iov_size,
                sizes.depth,
                sizes.file_size,
                begun,
            ),
            traffic: Traffic::none(),
            begun,
        }
    }

    pub open spec fn sizes(self) -> Sizes {
        Sizes {
            block_size: self.state.block_size,
            iov_size: self.state.iov_size,
            depth: self.state.depth,
            file_size: self.state.file_size,
        }
    }

    /// The event can follow what the copy asked for last: a poll brings no more
    /// completions than were asked for, each of a request for at least one byte, and
    /// no more bytes than can be counted.
    pub open spec fn allows(self, event: SeenEvent) -> bool {
        match event {
            SeenEvent::Done => self.traffic.can_be_done(),
            SeenEvent::Polled { batch, now } => {
                &&& self.traffic.asked matches Some(Action::Poll { max, .. })
                &&& batch.len() <= max
                &&& forall|i: int| 0 <= i < batch.len() ==> (#[trigger] batch[i]).expected > 0
                &&& self.state.may_bring(batch)
                &&& 0 <= now <= u64::MAX
            },
        }
    }

    /// What the copy asks for after the event.
    pub open spec fn action(self, event: SeenEvent) -> Action {
        match event {
            SeenEvent::Done => self.state.advance().1,
            SeenEvent::Polled { batch, now } => self.state.polled(batch, now).1,
        }
    }

    /// The copy after the event.
    pub open spec fn next(self, event: SeenEvent) -> WatchedRun {
        match event {
            SeenEvent::Done => WatchedRun {
                state: self.state.advance().0,
                traffic: self.traffic.performed().asking(self.action(event)),
                ..self
            },
            SeenEvent::Polled { batch, now } => WatchedRun {
                state: self.state.polled(batch, now).0,
                traffic: seen_after(self.traffic, self.sizes(), batch).asking(self.action(event)),
                ..self
            },
        }
    }

    /// The copy after all the events.
    pub open spec fn after(self, events: Seq<SeenEvent>) -> WatchedRun
        decreases events.len(),
    {
        if events.len() == 0 {
            self
        } else {
            self.after(events.drop_last()).next(events.last())
        }
    }

    /// Every one of the events can happen in its turn.
    pub open spec fn allows_all(self, events: Seq<SeenEvent>) -> bool
        decreases events.len(),
    {
        events.len() > 0 ==> {
            &&& self.allows_all(events.drop_last())
            &&& self.after(events.drop_last()).allows(events.last())
        }
    }
}

/// The next chunk of the main ring, which has the number `t.main.total`, fits at its
/// place before the end of the buffer.
pub open spec fn next_fits(t: Traffic, sizes: Sizes) -> bool {
    let place = (t.main.total * sizes.block_size) % sizes.iov_size;
    ||| place + sizes.block_size <= sizes.iov_size
    ||| place + (sizes.file_size - t.read) <= sizes.iov_size
}

/// The copy may ask for the action.
///
/// A chunk is read only where it is the next one and its ring has room, and a batch is
/// begun on the main ring only where enough is left of the file to fill it. The chunks of
/// the main ring go round and round the buffer, block by block, and those of the final
/// ring lie one block behind the other from its start. The main ring is submitted only
/// when there are requests on it: new ones, or at the end of the file those of a full
/// batch, again after a short sleep or an empty poll. The final ring is submitted when all
/// the requests that it was opened for are on it. A ring is polled only when all its
/// requests were submitted, for as many as are open; at the end of the file the main ring
/// was submitted anew, and once more after a sleep. The final ring is opened once: for
/// what is left of the file when nothing is open, or, after the target was synchronised,
/// for the open requests of a last batch that is not full; those are queued on it again,
/// in their order. When the whole file was confirmed and requests are still open, three
/// more polls are made.
pub open spec fn run_may_ask(t: Traffic, sizes: Sizes, action: Action) -> bool {
    match action {
        Action::Prepare { ring: Ring::Main, chunk } => {
            &&& t.entries == 0
            &&& t.main.open.len() < sizes.depth
            &&& t.main.open.len() == 0 ==> t.fills_a_batch(sizes)
            &&& t.is_next(sizes, chunk)
            &&& chunk.buf_offset == (t.main.total * sizes.block_size) % sizes.iov_size
        },
        Action::Prepare { ring: Ring::Final, chunk } => {
            &&& t.main.open.len() == 0
            &&& t.last.total < t.entries
            &&& t.is_next(sizes, chunk)
            &&& chunk.buf_offset == t.last.total * sizes.block_size
        },
        Action::Requeue { chunk } => {
            &&& t.synced
            &&& t.main.open.len() == t.entries
            &&& t.last.total < t.entries
            &&& chunk == t.main.open[t.last.total]
        },
        Action::OpenFinal { entries } => {
            &&& t.entries == 0
            &&& 0 < entries < sizes.depth
            &&& t.main.open.len() == 0 ==> t.takes_blocks(sizes, entries as int)
            &&& t.main.open.len() > 0 ==> {
                &&& entries == t.main.open.len()
                &&& t.read == sizes.file_size
                &&& t.synced
            }
        },
        Action::Submit { ring: Ring::Main } => {
            &&& t.entries == 0
            &&& t.main.open.len() > 0
            &&& t.main.waiting > 0 || t.read == sizes.file_size
            &&& t.main.open.len() == sizes.depth || !next_fits(t, sizes)
        },
        Action::Submit { ring: Ring::Final } => {
            &&& t.entries > 0
            &&& t.last.total == t.entries
            &&& t.last.open.len() == t.entries
            &&& t.last.waiting == t.entries
        },
        Action::Pause { millis } => {
            &&& millis == 10
            &&& t.entries == 0
            &&& t.read == sizes.file_size
            &&& t.main.waiting == 0
            &&& t.main.open.len() == sizes.depth
        },
        Action::Poll { ring: Ring::Main, max, timeout_ms } => {
            &&& t.entries == 0
            &&& t.ready(Ring::Main, max as int)
            &&& timeout_ms == 30000
            &&& t.silent_main < 5
            &&& t.read == sizes.file_size && t.counted < sizes.file_size ==> t.renewed
                && t.repeated
            &&& t.counted < sizes.file_size ==> t.drains == 0
            &&& t.counted >= sizes.file_size ==> t.drains < 3
        },
        Action::Poll { ring: Ring::Final, max, timeout_ms } => {
            &&& t.last.total == t.entries
            &&& t.ready(Ring::Final, max as int)
            &&& max == t.entries
            &&& timeout_ms == 60000
        },
        Action::Sync => {
            &&& t.entries == 0
            &&& t.read == sizes.file_size
            &&& 0 < t.main.open.len() < sizes.depth
        },
        Action::Finished => {
            &&& t.counted == sizes.file_size
            &&& t.main.open.len() == 0 || t.last.total == t.entries > 0
        },
        Action::Stalled => t.main.open.len() == 0 && t.entries == 0,
        Action::Failed { .. } => true,
    }
}

/// The first completion of the batch whose write failed has the number `i`.
pub open spec fn first_failed(batch: Seq<Completion>, i: int) -> bool {
    &&& 0 <= i < batch.len()
    &&& batch[i].result < 0
    &&& forall|k: int| 0 <= k < i ==> (#[trigger] batch[k]).result >= 0
}

/// None of the writes failed.
pub open spec fn none_failed(batch: Seq<Completion>) -> bool {
    forall|k: int| 0 <= k < batch.len() ==> (#[trigger] batch[k]).result >= 0
}

/// More than sixty whole seconds have passed.
pub open spec fn is_too_long(begun: int, now: int) -> bool {
    now - begun >= 61 * 1000000000
}

/// The copy gives up for the reason, after the event.
pub open spec fn run_may_fail(
    begun: int,
    before: Traffic,
    event: SeenEvent,
    after: Traffic,
    sizes: Sizes,
    error: PipelineError,
) -> bool {
    match (error, event) {
        (
            PipelineError::RepeatedTimeout { timeouts, inflight, completed, file_size },
            SeenEvent::Polled { batch, now },
        ) => {
            &&& before.polls(Ring::Main)
            &&& batch.len() == 0
            &&& after.silent_main == 5
            &&& timeouts == 5
            &&& inflight == after.main.open.len()
            &&& completed == after.counted
            &&& file_size == sizes.file_size
        },
        (PipelineError::Stuck { completed, file_size }, SeenEvent::Polled { batch, now }) => {
            &&& before.polls(Ring::Main)
            &&& batch.len() > 0
            &&& before.counted == 0
            &&& is_too_long(begun, now)
            &&& completed == 0
            &&& file_size == sizes.file_size
        },
        (
            PipelineError::WriteFailed { ring, offset, result },
            SeenEvent::Polled { batch, now },
        ) => {
            &&& result < 0
            &&& if is_draining(before, sizes) {
                &&& ring == Ring::Final
                &&& exists|i: int|
                    #[trigger] first_failed(batch, i) && offset == batch[i].offset && result
                        == batch[i].result
            } else {
                &&& before.polls(ring)
                &&& exists|i: int|
                    #[trigger] first_refused(batch, i) && offset == batch[i].offset && result
                        == batch[i].result
            }
        },
        (
            PipelineError::WriteIncomplete { ring, expected, result },
            SeenEvent::Polled { batch, now },
        ) => {
            &&& !is_draining(before, sizes)
            &&& before.polls(ring)
            &&& result >= 0
            &&& exists|i: int|
                #[trigger] first_refused(batch, i) && expected == batch[i].expected && result
                    == batch[i].result
        },
        (PipelineError::FinalTimeout { requests }, SeenEvent::Polled { batch, now }) => {
            &&& before.polls(Ring::Final)
            &&& batch.len() == 0
            &&& requests == after.entries
        },
        (PipelineError::DrainFailed { left }, SeenEvent::Polled { batch, now }) => {
            &&& is_draining(before, sizes)
            &&& after.drains == 3
            &&& left == after.main.open.len()
            &&& left > 0
        },
        (PipelineError::SizeMismatch { completed, expected }, _) => {
            &&& completed == after.counted
            &&& expected == sizes.file_size
            &&& completed != expected
            &&& before.polls(Ring::Final) || (is_draining(before, sizes) || after.counted
                > sizes.file_size) && after.main.open.len() == 0
        },
        _ => false,
    }
}

/// After the event there is nothing left but to give up: a write was not what was
/// asked for, the main ring was silent for the fifth time in a row, the final ring was
/// silent, or nothing at all was confirmed for too long.
pub open spec fn run_must_fail(
    begun: int,
    before: Traffic,
    sizes: Sizes,
    event: SeenEvent,
) -> bool {
    match event {
        SeenEvent::Done => false,
        SeenEvent::Polled { batch, now } => if is_draining(before, sizes) {
            !none_failed(batch)
        } else if before.polls(Ring::Main) {
            ||| batch.len() == 0 && before.silent_main == 4
            ||| batch.len() > 0 && before.counted == 0 && is_too_long(begun, now)
            ||| !all_written(batch)
        } else {
            batch.len() == 0 || !all_written(batch)
        },
    }
}

spec fn blocks_left(s: RunView) -> int {
    blocks_for(s.file_size - s.src_offset, s.block_size)
}

spec fn sizes_of(s: RunView) -> Sizes {
    Sizes {
        block_size: s.block_size,
        iov_size: s.iov_size,
        depth: s.depth,
        file_size: s.file_size,
    }
}

/// The copy counts and times what is seen.
spec fn counted_alike(s: RunView, t: Traffic, begun: int) -> bool {
    &&& t.read == s.src_offset
    &&& t.counted == s.completed
    &&& t.silent_main == s.timeouts
    &&& {
        ||| s.completed == 0 && s.last_completed == 0 && s.last_progress == begun
        ||| s.completed > s.last_completed
    }
}

/// Only the main ring has been used.
spec fn main_alike(s: RunView, t: Traffic) -> bool {
    &&& t.main.open == s.inflight
    &&& t.main.total == s.handed
    &&& t.last.open.len() == 0
    &&& t.last.total == 0
    &&& t.last.waiting == 0
    &&& t.entries == 0
    &&& s.final_chunks.len() == 0
    &&& t.main.waiting >= 0
    &&& s.need_submit <==> t.main.waiting > 0
}

/// The main ring has no room for more, or the buffer has none.
spec fn batch_is_ready(s: RunView, t: Traffic) -> bool {
    &&& 0 < s.inflight.len()
    &&& s.inflight.len() == s.depth || !next_fits(t, sizes_of(s))
}

/// What the copy waits for is what it asked for, and the rings are used as the copy
/// keeps track of them.
spec fn linked(s: RunView, t: Traffic, begun: int) -> bool {
    &&& s.phase is Closed || counted_alike(s, t, begun)
    &&& !(s.phase is Closed || s.in_final()) ==> main_alike(s, t)
    &&& s.phase is OpeningPartial ==> main_alike(s, t)
    &&& !(s.phase is Closed || s.phase is Draining) ==> s.drain_polls == 0 && t.drains == 0
    &&& !(s.phase is Closed || s.phase is Draining || s.phase is Start) ==> s.completed
        < s.file_size
    &&& match s.phase {
        RunPhase::Start => {
            &&& t.asked is None || t.asked == Some(Action::Stalled)
            &&& t.main.waiting == 0
            &&& s.inflight.len() == 0
        },
        RunPhase::Preparing { chunk } => {
            &&& t.asked == Some(Action::Prepare { ring: Ring::Main, chunk })
        },
        RunPhase::Submitting => {
            &&& t.asked == Some(Action::Submit { ring: Ring::Main })
            &&& batch_is_ready(s, t)
        },
        RunPhase::Pausing => {
            &&& t.asked matches Some(Action::Pause { millis })
            &&& t.main.waiting == 0
            &&& batch_is_ready(s, t)
            &&& s.at_end()
        },
        RunPhase::Resubmitting => {
            &&& t.asked == Some(Action::Submit { ring: Ring::Main })
            &&& t.main.waiting == 0
            &&& t.paused
            &&& batch_is_ready(s, t)
        },
        RunPhase::Polling => {
            &&& t.asked matches Some(Action::Poll { ring, max, timeout_ms })
            &&& ring == Ring::Main
            &&& max == s.inflight.len()
            &&& t.main.waiting == 0
            &&& batch_is_ready(s, t)
            &&& s.at_end() ==> t.paused
        },
        RunPhase::Retrying => {
            &&& t.asked == Some(Action::Submit { ring: Ring::Main })
            &&& t.main.waiting == 0
            &&& t.paused
        },
        RunPhase::OpeningPartial => {
            &&& t.asked matches Some(Action::OpenFinal { entries })
            &&& 0 < entries == blocks_left(s)
            &&& s.inflight.len() == 0
        },
        RunPhase::PreparingPartial { chunk } => {
            &&& t.asked == Some(Action::Prepare { ring: Ring::Final, chunk })
            &&& partial_alike(s, t)
        },
        RunPhase::Syncing => {
            &&& t.asked == Some(Action::Sync)
            &&& s.inflight.len() < s.depth
        },
        RunPhase::OpeningLast => {
            &&& t.asked matches Some(Action::OpenFinal { entries })
            &&& entries == s.inflight.len()
            &&& s.inflight.len() < s.depth
            &&& t.synced
        },
        RunPhase::Requeuing { next } => {
            &&& t.asked == Some(Action::Requeue { chunk: s.final_chunks[next - 1] })
            &&& requeued_alike(s, t, next - 1)
        },
        RunPhase::SubmittingFinal => {
            &&& t.asked == Some(Action::Submit { ring: Ring::Final })
            &&& 0 < t.entries == s.final_chunks.len() == t.last.total == t.last.open.len()
        },
        RunPhase::PollingFinal => {
            &&& t.asked matches Some(Action::Poll { ring, max, timeout_ms })
            &&& ring == Ring::Final
            &&& 0 < max == t.entries == s.final_chunks.len() == t.last.total
        },
        RunPhase::Draining => {
            &&& t.asked matches Some(Action::Poll { ring, max, timeout_ms })
            &&& ring == Ring::Main
            &&& max == s.inflight.len()
            &&& t.main.waiting == 0
            &&& s.drain_polls == t.drains + 1
            &&& s.completed >= s.file_size
        },
        RunPhase::Closed => t.asked matches Some(action) && (action is Failed || action
            is Finished && t.counted == s.completed),
    }
}

/// The rest of the file goes to the final ring.
spec fn partial_alike(s: RunView, t: Traffic) -> bool {
    &&& t.main.open.len() == 0
    &&& t.last.waiting == t.last.total == t.last.open.len()
    &&& t.last.open == s.final_chunks
    &&& 0 < t.entries == t.last.total + blocks_left(s)
}

/// The first `k` chunks of the last batch have been queued again.
spec fn requeued_alike(s: RunView, t: Traffic, k: int) -> bool {
    &&& t.main.open == s.final_chunks
    &&& t.last.waiting == t.last.total == t.last.open.len() == k
    &&& 0 < t.entries == s.final_chunks.len()
    &&& t.synced
}

/// The copy after a step, apart from what it keeps to itself.
spec fn steps_to(t: Traffic, sizes: Sizes, begun: int, next: (RunView, Action)) -> bool {
    &&& run_may_ask(t, sizes, next.1)
    &&& linked(next.0, t.asking(next.1), begun)
}

/// The copy ends with bytes that do not add up, or with requests that stay open.
spec fn ends_badly(t: Traffic, sizes: Sizes, error: PipelineError) -> bool {
    match error {
        PipelineError::SizeMismatch { completed, expected } => {
            &&& completed == t.counted
            &&& expected == sizes.file_size
            &&& completed != expected
        },
        PipelineError::DrainFailed { left } => {
            &&& t.drains == 3
            &&& 0 < left == t.main.open.len()
        },
        _ => false,
    }
}

spec fn bounded(s: RunView) -> bool {
    &&& s.params_ok()
    &&& 0 <= s.src_offset <= s.file_size
    &&& 0 <= s.completed <= usize::MAX
    &&& s.inflight.len() <= s.depth
    &&& s.final_chunks.len() <= s.depth
    &&& 0 <= s.handed
}

/// The last batch was submitted anew, and once more after a sleep.
spec fn is_renewed(t: Traffic) -> bool {
    t.renewed && t.paused && t.repeated
}

proof fn lemma_drain_links(s: RunView, t: Traffic, begun: int)
    requires
        bounded(s),
        counted_alike(s, t, begun),
        s.completed >= s.file_size,
        main_alike(s, t),
        t.main.waiting == 0,
        0 <= s.drain_polls == t.drains <= 3,
        s.timeouts < 5,
    ensures
        steps_to(t, sizes_of(s), begun, s.drain()),
        s.drain().1 matches Action::Failed { error } ==> ends_badly(t, sizes_of(s), error) && (
        error is DrainFailed || t.main.open.len() == 0),
{
}

#[verifier::rlimit(50)]
proof fn lemma_fill_links(s: RunView, t: Traffic, begun: int)
    requires
        bounded(s),
        counted_alike(s, t, begun),
        main_alike(s, t),
        s.completed < s.file_size,
        s.drain_polls == 0,
        t.drains == 0,
        s.timeouts < 5,
        s.inflight.len() > 0 || t.fills_a_batch(sizes_of(s)) || s.at_end(),
        s.inflight.len() == 0 ==> t.main.waiting == 0,
        s.at_end() && !s.need_submit && s.inflight.len() == s.depth ==> is_renewed(t),
    ensures
        steps_to(t, sizes_of(s), begun, s.fill()),
        !(s.fill().1 is Failed),
{
    let (u, action) = s.fill();
    vstd::arithmetic::div_mod::lemma_mod_bound(s.handed * s.block_size, s.iov_size);
    if let Action::Prepare { ring, chunk } = action {
        assert(t.is_next(sizes_of(s), chunk));
    }
}

#[verifier::rlimit(50)]
proof fn lemma_head_links(s: RunView, t: Traffic, begun: int)
    requires
        bounded(s),
        counted_alike(s, t, begun),
        main_alike(s, t),
        t.main.waiting == 0,
        s.drain_polls == 0,
        t.drains == 0,
        s.timeouts < 5,
        s.at_end() && s.inflight.len() == s.depth ==> is_renewed(t),
    ensures
        steps_to(t, sizes_of(s), begun, s.head()),
        s.head().1 matches Action::Failed { error } ==> error is SizeMismatch && ends_badly(
            t,
            sizes_of(s),
            error,
        ) && t.main.open.len() == 0 && t.counted > s.file_size,
{
    lemma_blocks_for(s.file_size - s.src_offset, s.block_size);
    let left = blocks_left(s);
    assert((left - 1) * s.block_size == left * s.block_size - s.block_size) by (nonlinear_arith);
    if s.completed >= s.file_size {
        lemma_drain_links(s, t, begun);
    } else if !(s.inflight.len() == 0 && 0 < left < s.depth) {
        if s.inflight.len() == 0 && left > 0 {
            assert((s.depth - 1) * s.block_size <= (left - 1) * s.block_size) by (nonlinear_arith)
                requires
                    s.depth <= left,
                    s.block_size > 0,
            ;
        }
        lemma_fill_links(s, t, begun);
    }
}

#[verifier::rlimit(50)]
proof fn lemma_fill_partial_links(s: RunView, t: Traffic, begun: int)
    requires
        bounded(s),
        counted_alike(s, t, begun),
        partial_alike(s, t),
        s.phase is OpeningPartial,
        s.completed < s.file_size,
        s.drain_polls == 0,
        t.drains == 0,
        s.final_chunks.len() + blocks_left(s) < s.depth,
    ensures
        steps_to(t, sizes_of(s), begun, s.fill_partial()),
        !(s.fill_partial().1 is Failed),
{
    lemma_blocks_for(s.file_size - s.src_offset, s.block_size);
    let k = s.final_chunks.len() as int;
    let m = s.block_size;
    if !s.at_end() {
        assert(0 <= k * m && k * m + m <= s.iov_size) by (nonlinear_arith)
            requires
                0 <= k,
                k + 1 < s.depth,
                s.depth * m <= s.iov_size,
                0 < m,
        ;
        vstd::arithmetic::div_mod::lemma_small_mod((k * m) as nat, s.iov_size as nat);
        let (u, action) = s.fill_partial();
        if let Action::Prepare { ring, chunk } = action {
            assert(t.is_next(sizes_of(s), chunk));
        }
    }
}

#[verifier::rlimit(50)]
proof fn lemma_done_step(w: WatchedRun)
    requires
        linked(w.state, w.traffic, w.begun),
        w.state.wf(),
        w.allows(SeenEvent::Done),
    ensures
        w.state.can_advance(),
        steps_to(w.traffic.performed(), w.sizes(), w.begun, w.state.advance()),
        w.state.advance().1 matches Action::Failed { error } ==> run_may_fail(
            w.begun,
            w.traffic,
            SeenEvent::Done,
            w.traffic.performed(),
            w.sizes(),
            error,
        ) && (error is SizeMismatch || error is DrainFailed),
{
    let s = w.state;
    let t = w.traffic;
    let p = t.performed();
    assert(w.sizes() == sizes_of(s));
    match s.phase {
        RunPhase::Start => lemma_head_links(s, p, w.begun),
        RunPhase::Preparing { chunk } => lemma_fill_links(s.prepared(chunk), p, w.begun),
        RunPhase::Retrying => lemma_head_links(s, p, w.begun),
        RunPhase::OpeningPartial => {
            assert(p.last.open =~= s.final_chunks);
            lemma_fill_partial_links(s, p, w.begun);
        },
        RunPhase::PreparingPartial { chunk } => {
            lemma_blocks_for(s.file_size - s.src_offset, s.block_size);
            lemma_fill_partial_links(s.prepared_partial(chunk), p, w.begun);
        },
        _ => {},
    }
}

proof fn lemma_refused(batch: Seq<Completion>)
    ensures
        accepted_len(batch) < batch.len() ==> first_refused(batch, accepted_len(batch) as int),
        all_written(batch) <==> accepted_len(batch) == batch.len(),
        succeeded_len(batch) < batch.len() ==> first_failed(batch, succeeded_len(batch) as int),
        none_failed(batch) <==> succeeded_len(batch) == batch.len(),
        accepted_len(batch) <= batch.len(),
        succeeded_len(batch) <= batch.len(),
{
    lemma_accepted_len(batch);
    lemma_succeeded_len(batch);
    let n = accepted_len(batch) as int;
    assert(forall|k: int| 0 <= k < n ==> (#[trigger] batch[k]).accepted());
    if n < batch.len() {
        assert(!batch[n].accepted());
    }
}

proof fn lemma_expected_bytes_positive(batch: Seq<Completion>)
    requires
        forall|i: int| 0 <= i < batch.len() ==> (#[trigger] batch[i]).expected > 0,
    ensures
        expected_bytes(batch) >= batch.len(),
    decreases batch.len(),
{
    if batch.len() > 0 {
        let front = batch.drop_last();
        assert forall|i: int| 0 <= i < front.len() implies (#[trigger] front[i]).expected > 0 by {
            assert(front[i] == batch[i]);
        }
        lemma_expected_bytes_positive(front);
        assert(batch[batch.len() - 1].expected > 0);
    }
}

#[verifier::rlimit(50)]
proof fn lemma_polled_step(w: WatchedRun, batch: Seq<Completion>, now: int)
    requires
        linked(w.state, w.traffic, w.begun),
        w.state.wf(),
        w.allows(SeenEvent::Polled { batch, now }),
    ensures
        steps_to(
            seen_after(w.traffic, w.sizes(), batch),
            w.sizes(),
            w.begun,
            w.state.polled(batch, now),
        ),
        w.state.polled(batch, now).1 matches Action::Failed { error } ==> run_may_fail(
            w.begun,
            w.traffic,
            SeenEvent::Polled { batch, now },
            seen_after(w.traffic, w.sizes(), batch),
            w.sizes(),
            error,
        ) && (error is SizeMismatch || error is DrainFailed || run_must_fail(
            w.begun,
            w.traffic,
            w.sizes(),
            SeenEvent::Polled { batch, now },
        )),
        run_must_fail(w.begun, w.traffic, w.sizes(), SeenEvent::Polled { batch, now })
            ==> w.state.polled(batch, now).1 is Failed,
{
    let s = w.state;
    let t = w.traffic;
    let r = seen_after(t, w.sizes(), batch);
    let n = accepted_len(batch) as int;
    assert(w.sizes() == sizes_of(s));
    lemma_refused(batch);
    lemma_expected_bytes_positive(batch);
    match s.phase {
        RunPhase::Polling => {
            if batch.len() == 0 {
                let m = RunView { timeouts: s.timeouts + 1, ..s };
                assert(expected_bytes(batch) == 0);
                assert(s.inflight.skip(0) =~= s.inflight);
                if m.timeouts < 5 && !m.at_end() {
                    lemma_head_links(m, r, w.begun);
                }
            } else if s.is_stuck(now) {
            } else if n < batch.len() {
                assert(first_refused(batch, n));
            } else {
                assert(batch.take(n) =~= batch);
                lemma_head_links(s.credited(batch, now), r, w.begun);
            }
        },
        RunPhase::PollingFinal => {
            if n < batch.len() {
                assert(first_refused(batch, n));
            } else {
                assert(batch.take(n) =~= batch);
            }
        },
        RunPhase::Draining => {
            let k = succeeded_len(batch) as int;
            if k < batch.len() {
                assert(first_failed(batch, k));
            } else {
                assert(batch.take(k) =~= batch);
                let m = RunView {
                    inflight: s.inflight.skip(k),
                    completed: s.completed + result_bytes(batch),
                    ..s
                };
                lemma_result_bytes_nonnegative(batch);
                lemma_drain_links(m, r, w.begun);
            }
        },
        _ => {},
    }
}

proof fn lemma_result_bytes_nonnegative(batch: Seq<Completion>)
    requires
        none_failed(batch),
    ensures
        result_bytes(batch) >= 0,
    decreases batch.len(),
{
    if batch.len() > 0 {
        let front = batch.drop_last();
        assert forall|k: int| 0 <= k < front.len() implies (#[trigger] front[k]).result >= 0 by {
            assert(front[k] == batch[k]);
        }
        lemma_result_bytes_nonnegative(front);
        assert(batch[batch.len() - 1].result >= 0);
    }
}

spec fn in_step(w: WatchedRun) -> bool {
    linked(w.state, w.traffic, w.begun) && w.state.wf()
}

/// Each step of a copy is one that it may take.
#[verifier::rlimit(50)]
proof fn lemma_watched_step(w: WatchedRun, event: SeenEvent)
    requires
        in_step(w),
        w.allows(event),
    ensures
        in_step(w.next(event)),
        w.next(event).sizes() == w.sizes(),
        w.next(event).begun == w.begun,
        ({
            let seen = w.next(event).traffic;
            &&& run_may_ask(seen, w.sizes(), w.action(event))
            &&& (w.action(event) matches Action::Failed { error } ==> run_may_fail(
                w.begun,
                w.traffic,
                event,
                seen,
                w.sizes(),
                error,
            ) && (error is SizeMismatch || error is DrainFailed || run_must_fail(
                w.begun,
                w.traffic,
                w.sizes(),
                event,
            )))
            &&& run_must_fail(w.begun, w.traffic, w.sizes(), event) ==> w.action(event) is Failed
        }),
{
    match event {
        SeenEvent::Done => {
            lemma_done_step(w);
            lemma_advance_keeps_params(w.state);
            lemma_advance_keeps_wf(w.state);
        },
        SeenEvent::Polled { batch, now } => {
            lemma_polled_step(w, batch, now);
            lemma_polled_keeps_params(w.state, batch, now);
            lemma_polled_keeps_wf(w.state, batch, now);
        },
    }
}

proof fn lemma_watched_run(start: WatchedRun, events: Seq<SeenEvent>)
    requires
        in_step(start),
        start.allows_all(events),
    ensures
        in_step(start.after(events)),
        start.after(events).sizes() == start.sizes(),
        start.after(events).begun == start.begun,
    decreases events.len(),
{
    if events.len() > 0 {
        lemma_watched_run(start, events.drop_last());
        lemma_watched_step(start.after(events.drop_last()), events.last());
    }
}

proof fn lemma_watched_start(sizes: Sizes, begun: int)
    requires
        WatchedRun::start(sizes, begun).state.params_ok(),
        0 <= begun <= u64::MAX,
    ensures
        in_step(WatchedRun::start(sizes, begun)),
        WatchedRun::start(sizes, begun).sizes() == sizes,
{
}

/// In every run the copy uses its rings in order, whatever they report: it asks for
/// nothing but what it may ask for. Above all, a ring is polled only when all the
/// requests that were queued on it have been submitted on it, and a ring is submitted
/// only when requests were queued on it.
pub proof fn law_rings_are_used_in_order(sizes: Sizes, begun: int, events: Seq<SeenEvent>)
    requires
        WatchedRun::start(sizes, begun).state.params_ok(),
        0 <= begun <= u64::MAX,
        events.len() > 0,
        WatchedRun::start(sizes, begun).allows_all(events),
    ensures
        ({
            let seen = WatchedRun::start(sizes, begun).after(events).traffic;
            &&& seen.asked is Some
            &&& run_may_ask(seen, sizes, seen.asked->Some_0)
        }),
{
    let start = WatchedRun::start(sizes, begun);
    lemma_watched_start(sizes, begun);
    lemma_watched_run(start, events.drop_last());
    lemma_watched_step(start.after(events.drop_last()), events.last());
}

/// A ring is polled only after all the requests that were queued on it were submitted on
/// that same ring, and only while there are some; and a ring is submitted only when there
/// are requests on that same ring.
pub proof fn law_ring_is_polled_after_its_submission(
    sizes: Sizes,
    begun: int,
    events: Seq<SeenEvent>,
    ring: Ring,
)
    requires
        WatchedRun::start(sizes, begun).state.params_ok(),
        0 <= begun <= u64::MAX,
        WatchedRun::start(sizes, begun).allows_all(events),
    ensures
        ({
            let seen = WatchedRun::start(sizes, begun).after(events).traffic;
            &&& seen.polls(ring) ==> seen.ring(ring).waiting == 0 && seen.ring(ring).open.len() > 0
            &&& seen.asked == Some(Action::Submit { ring }) ==> seen.ring(ring).open.len() > 0
        }),
{
    if events.len() > 0 {
        law_rings_are_used_in_order(sizes, begun, events);
    }
}

/// The copy gives up where it has to and nowhere else, and says why.
pub proof fn law_run_fails_for_a_reason(sizes: Sizes, begun: int, events: Seq<SeenEvent>)
    requires
        WatchedRun::start(sizes, begun).state.params_ok(),
        0 <= begun <= u64::MAX,
        events.len() > 0,
        WatchedRun::start(sizes, begun).allows_all(events),
    ensures
        ({
            let before = WatchedRun::start(sizes, begun).after(events.drop_last()).traffic;
            let seen = WatchedRun::start(sizes, begun).after(events).traffic;
            &&& run_must_fail(begun, before, sizes, events.last()) ==> seen.asked->Some_0 is Failed
            &&& seen.asked matches Some(Action::Failed { error }) ==> {
                &&& run_may_fail(begun, before, events.last(), seen, sizes, error)
                &&& error is SizeMismatch || error is DrainFailed || run_must_fail(
                    begun,
                    before,
                    sizes,
                    events.last(),
                )
            }
        }),
{
    let start = WatchedRun::start(sizes, begun);
    lemma_watched_start(sizes, begun);
    lemma_watched_run(start, events.drop_last());
    lemma_watched_step(start.after(events.drop_last()), events.last());
}

/// At every moment the copy tells truly how many bytes the rings have confirmed, as long
/// as it has not given up.
pub proof fn law_run_tells_what_was_seen(sizes: Sizes, begun: int, events: Seq<SeenEvent>)
    requires
        WatchedRun::start(sizes, begun).state.params_ok(),
        0 <= begun <= u64::MAX,
        WatchedRun::start(sizes, begun).allows_all(events),
    ensures
        ({
            let w = WatchedRun::start(sizes, begun).after(events);
            !(w.traffic.asked matches Some(Action::Failed { .. })) ==> w.state.completed
                == w.traffic.counted
        }),
{
    lemma_watched_start(sizes, begun);
    lemma_watched_run(WatchedRun::start(sizes, begun), events);
}

/// A chunk that the copy is seen to read shares no byte of the buffer with a request of
/// the same ring that was not reported, where the ring reports the oldest ones first.
pub proof fn law_chunks_that_are_read_keep_clear(
    sizes: Sizes,
    begun: int,
    events: Seq<SeenEvent>,
)
    requires
        WatchedRun::start(sizes, begun).state.params_ok(),
        0 <= begun <= u64::MAX,
        WatchedRun::start(sizes, begun).allows_all(events),
    ensures
        ({
            let seen = WatchedRun::start(sizes, begun).after(events).traffic;
            seen.asked matches Some(Action::Prepare { ring, chunk }) ==> forall|i: int|
                0 <= i < seen.ring(ring).open.len() ==> chunk.apart_from(
                    #[trigger] seen.ring(ring).open[i],
                )
        }),
{
    let start = WatchedRun::start(sizes, begun);
    lemma_watched_start(sizes, begun);
    lemma_watched_run(start, events);
    let w = start.after(events);
    let s = w.state;
    law_requests_share_no_buffer(s);
    if let Some(Action::Prepare { ring, chunk }) = w.traffic.asked {
        let open = w.traffic.ring(ring).open;
        let all = open.push(chunk);
        assert(crate::ring::all_apart(all));
        assert forall|i: int| 0 <= i < open.len() implies chunk.apart_from(#[trigger] open[i]) by {
            assert(all[i].apart_from(all[open.len() as int]));
        }
    }
}

/// The requests that have not been confirmed: those of the final ring where it was
/// opened for what was left of the file, and those of the main ring otherwise.
pub open spec fn outstanding(t: Traffic) -> Seq<Chunk> {
    if t.entries == 0 || t.main.open.len() > 0 {
        t.main.open
    } else {
        t.last.open
    }
}

/// The rings report no more than there was: the main ring the oldest requests first, and
/// the final ring no more bytes than were queued on it.
pub open spec fn is_fair(t: Traffic, event: SeenEvent) -> bool {
    match event {
        SeenEvent::Done => true,
        SeenEvent::Polled { batch, now } => {
            &&& t.polls(Ring::Main) ==> expected_bytes(batch) == chunk_bytes(
                t.main.open.take(batch.len() as int),
            )
            &&& t.polls(Ring::Final) ==> expected_bytes(batch) <= chunk_bytes(outstanding(t))
        },
    }
}

impl WatchedRun {
    /// Every one of the events is fair in its turn.
    pub open spec fn all_fair(self, events: Seq<SeenEvent>) -> bool
        decreases events.len(),
    {
        events.len() > 0 ==> {
            &&& self.all_fair(events.drop_last())
            &&& is_fair(self.after(events.drop_last()).traffic, events.last())
        }
    }
}

/// What was read is confirmed or outstanding, and it is the file from its beginning on.
spec fn adds_up(t: Traffic) -> bool {
    &&& t.counted + chunk_bytes(outstanding(t)) == t.read
    &&& forall|i: int| 0 <= i < t.main.open.len() ==> (#[trigger] t.main.open[i]).size > 0
    &&& tiles(t.taken, t.read)
}

proof fn lemma_chunk_bytes_nonnegative(chunks: Seq<Chunk>)
    ensures
        chunk_bytes(chunks) >= 0,
    decreases chunks.len(),
{
    if chunks.len() > 0 {
        lemma_chunk_bytes_nonnegative(chunks.drop_last());
    }
}

#[verifier::rlimit(50)]
proof fn lemma_fair_done(w: WatchedRun)
    requires
        in_step(w),
        adds_up(w.traffic),
        w.allows(SeenEvent::Done),
    ensures
        adds_up(w.traffic.performed()),
        w.traffic.performed().read <= w.state.file_size,
{
    let t = w.traffic;
    let s = w.state;
    let p = t.performed();
    match t.asked {
        Some(Action::Prepare { ring, chunk }) => {
            assert(t.is_next(w.sizes(), chunk));
            lemma_chunk_bytes_push(outstanding(t), chunk);
            assert(p.taken.drop_last() =~= t.taken);
            assert(outstanding(p) == outstanding(t).push(chunk));
        },
        Some(Action::OpenFinal { entries }) => {
            if t.main.open.len() == 0 {
                assert(t.last.open =~= t.main.open);
            }
        },
        _ => {},
    }
}

#[verifier::rlimit(50)]
proof fn lemma_fair_polled(w: WatchedRun, batch: Seq<Completion>, now: int)
    requires
        in_step(w),
        adds_up(w.traffic),
        w.allows(SeenEvent::Polled { batch, now }),
        is_fair(w.traffic, SeenEvent::Polled { batch, now }),
    ensures
        !is_draining(w.traffic, w.sizes()),
        w.traffic.polls(Ring::Main) ==> adds_up(w.traffic.reported(batch)),
        w.traffic.reported(batch).counted <= w.traffic.reported(batch).read <= w.state.file_size,
        tiles(w.traffic.reported(batch).taken, w.traffic.reported(batch).read),
{
    let t = w.traffic;
    let r = t.reported(batch);
    let n = batch.len() as int;
    if t.polls(Ring::Main) {
        lemma_chunk_bytes_bounds(t.main.open);
        lemma_chunk_bytes_split(t.main.open, n);
        assert forall|i: int| 0 <= i < r.main.open.len() implies (#[trigger] r.main.open[i]).size
            > 0 by {
            assert(r.main.open[i] == t.main.open[i + n]);
        }
        lemma_chunk_bytes_bounds(r.main.open);
    } else {
        lemma_chunk_bytes_nonnegative(outstanding(t));
    }
}

#[verifier::rlimit(50)]
proof fn lemma_fair_step(w: WatchedRun, event: SeenEvent)
    requires
        in_step(w),
        adds_up(w.traffic),
        w.allows(event),
        is_fair(w.traffic, event),
    ensures
        !(w.next(event).state.phase is Closed) ==> adds_up(w.next(event).traffic),
        ({
            let seen = w.next(event).traffic;
            &&& seen.counted <= seen.read <= w.state.file_size
            &&& tiles(seen.taken, seen.read)
        }),
{
    lemma_watched_step(w, event);
    match event {
        SeenEvent::Done => {
            lemma_fair_done(w);
            let p = w.traffic.performed();
            lemma_chunk_bytes_nonnegative(outstanding(p));
            assert(outstanding(w.next(event).traffic) == outstanding(p));
        },
        SeenEvent::Polled { batch, now } => {
            lemma_fair_polled(w, batch, now);
            assert(outstanding(w.next(event).traffic) == outstanding(w.traffic.reported(batch)));
        },
    }
}

proof fn lemma_fair_run(start: WatchedRun, events: Seq<SeenEvent>)
    requires
        in_step(start),
        adds_up(start.traffic),
        start.allows_all(events),
        start.all_fair(events),
    ensures
        !(start.after(events).state.phase is Closed) ==> adds_up(start.after(events).traffic),
    decreases events.len(),
{
    if events.len() > 0 {
        lemma_watched_run(start, events.drop_last());
        lemma_fair_run(start, events.drop_last());
        lemma_fair_step(start.after(events.drop_last()), events.last());
    }
}

/// Where the rings report no more than there was, a copy that finishes was seen to read
/// the whole file: the chunks that it read follow each other without gap or overlap from
/// the beginning of the file to its end, and all their bytes were confirmed.
pub proof fn law_finished_run_was_seen_to_read_all(
    sizes: Sizes,
    begun: int,
    events: Seq<SeenEvent>,
)
    requires
        WatchedRun::start(sizes, begun).state.params_ok(),
        0 <= begun <= u64::MAX,
        events.len() > 0,
        WatchedRun::start(sizes, begun).allows_all(events),
        WatchedRun::start(sizes, begun).all_fair(events),
    ensures
        ({
            let seen = WatchedRun::start(sizes, begun).after(events).traffic;
            &&& seen.counted <= seen.read <= sizes.file_size
            &&& tiles(seen.taken, seen.read)
            &&& seen.asked matches Some(Action::Finished) ==> seen.counted == seen.read
                && seen.read == sizes.file_size
        }),
{
    let start = WatchedRun::start(sizes, begun);
    lemma_watched_start(sizes, begun);
    lemma_watched_run(start, events.drop_last());
    let w = start.after(events.drop_last());
    assert(tiles(start.traffic.taken, 0));
    lemma_fair_run(start, events.drop_last());
    lemma_fair_step(w, events.last());
    lemma_watched_step(w, events.last());
}

} // verus!
