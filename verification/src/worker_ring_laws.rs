//! How a worker's copy uses its rings, whatever order its requests complete in.
//!
//! The laws are told in what the copy asks for and what the rings report, and in
//! nothing that the copy keeps to itself. They are about rings that play by the rules:
//! a ring reports a request at most once, only after it was queued, and with the offset
//! and the size that the request was queued with.

use crate::ring::{
    accepted_bytes, accepted_len, expected_bytes, lemma_accepted_len, tiles, Action, Chunk,
    Completion, PipelineError, Ring,
};
use crate::ring_traffic::{all_written, first_refused, Sizes, Traffic};
use crate::worker_laws::{
    lemma_advance_keeps_params, lemma_confirm, lemma_ledger_bounds, lemma_polled_keeps_params,
    lemma_start, lemma_step, Copying, Ledger, WorkerEvent,
};
use crate::worker_pipeline::{blocks_for, lemma_blocks_for, min_int, WorkerPhase, WorkerView};
use vstd::prelude::*;

verus! {

/// A copy that is watched from outside: its requests, and what it asks for.
#[verifier::ext_equal]
pub struct WatchedCopy {
    pub state: WorkerView,
    pub ledger: Ledger,
    pub traffic: Traffic,
}

impl WatchedCopy {
    pub open spec fn start(sizes: Sizes) -> WatchedCopy {
        WatchedCopy {
            state: WorkerView::initial(
                sizes.block_size,
                sizes.iov_size,
                sizes.depth,
                sizes.file_size,
            ),
            ledger: Ledger::empty(),
            traffic: Traffic::none(),
        }
    }

    /// The event can follow what the copy asked for last.
    pub open spec fn allows(self, event: WorkerEvent) -> bool {
        match event {
            WorkerEvent::Done => self.traffic.can_be_done(),
            WorkerEvent::Polled { batch } => {
                &&& self.traffic.asked matches Some(Action::Poll { max, .. })
                &&& batch.len() <= max
                &&& self.ledger.honest(batch)
            },
        }
    }

    /// What the copy asks for after the event.
    pub open spec fn action(self, event: WorkerEvent) -> Action {
        match event {
            WorkerEvent::Done => self.state.advance().1,
            WorkerEvent::Polled { batch } => self.state.polled(batch).1,
        }
    }

    /// The copy after the event.
    pub open spec fn next(self, event: WorkerEvent) -> WatchedCopy {
        match event {
            WorkerEvent::Done => WatchedCopy {
                state: self.state.advance().0,
                ledger: match self.traffic.asked {
                    Some(Action::Prepare { chunk, .. }) => self.ledger.queue(chunk),
                    _ => self.ledger,
                },
                traffic: self.traffic.performed().asking(self.action(event)),
            },
            WorkerEvent::Polled { batch } => WatchedCopy {
                state: self.state.polled(batch).0,
                ledger: self.ledger.confirm(batch, accepted_len(batch) as int),
                traffic: self.traffic.reported(batch).asking(self.action(event)),
            },
        }
    }

    /// The copy after all the events.
    pub open spec fn after(self, events: Seq<WorkerEvent>) -> WatchedCopy
        decreases events.len(),
    {
        if events.len() == 0 {
            self
        } else {
            self.after(events.drop_last()).next(events.last())
        }
    }

    /// Every one of the events can happen in its turn.
    pub open spec fn allows_all(self, events: Seq<WorkerEvent>) -> bool
        decreases events.len(),
    {
        events.len() > 0 ==> {
            &&& self.allows_all(events.drop_last())
            &&& self.after(events.drop_last()).allows(events.last())
        }
    }

    pub open spec fn sizes(self) -> Sizes {
        Sizes {
            block_size: self.state.block_size,
            iov_size: self.state.iov_size,
            depth: self.state.depth,
            file_size: self.state.file_size,
        }
    }

    spec fn copying(self) -> Copying {
        Copying { state: self.state, ledger: self.ledger }
    }
}

/// The chunk comes right behind the one before it in the buffer, or at the start of the
/// buffer where it has no room there.
pub open spec fn follows_in_the_buffer(t: Traffic, sizes: Sizes, chunk: Chunk) -> bool {
    if t.used + chunk.size <= sizes.iov_size {
        chunk.buf_offset == t.used
    } else {
        chunk.buf_offset == 0
    }
}

/// A worker may ask for the action.
///
/// A chunk is read only where it is the next one and its ring has room, and a batch is
/// begun on the main ring only where enough is left of the file to fill it. It comes right
/// behind the one before it in the buffer, and goes back to the start only where it has no
/// room there, on the main ring also only when nothing is open. A ring is submitted only
/// when there are requests on it: the main ring when the batch is full, the file is at its
/// end or the buffer has no room, and the final ring when all the requests that it was
/// opened for are on it. A ring is polled only when all its requests were submitted, for
/// as many as are open. The final ring is opened once, for what is left of the file, when
/// nothing is open. The target is synchronised when the final ring has reported
/// everything. The copy finishes when everything was read and reported, and after the
/// final ring was used, synchronised.
pub open spec fn worker_may_ask(t: Traffic, sizes: Sizes, action: Action) -> bool {
    match action {
        Action::Prepare { ring: Ring::Main, chunk } => {
            &&& t.entries == 0
            &&& t.main.open.len() < sizes.depth
            &&& t.main.open.len() == 0 ==> t.fills_a_batch(sizes)
            &&& t.is_next(sizes, chunk)
            &&& follows_in_the_buffer(t, sizes, chunk)
            &&& chunk.buf_offset < t.used ==> t.main.open.len() == 0
        },
        Action::Prepare { ring: Ring::Final, chunk } => {
            &&& t.last.total < t.entries
            &&& t.is_next(sizes, chunk)
            &&& follows_in_the_buffer(t, sizes, chunk)
        },
        Action::OpenFinal { entries } => {
            &&& t.entries == 0
            &&& t.main.open.len() == 0
            &&& 0 < entries < sizes.depth
            &&& t.takes_blocks(sizes, entries as int)
        },
        Action::Submit { ring: Ring::Main } => {
            &&& t.entries == 0
            &&& t.main.open.len() > 0
            &&& {
                ||| t.main.open.len() == sizes.depth
                ||| t.read == sizes.file_size
                ||| t.used + sizes.block_size > sizes.iov_size
                ||| t.used + (sizes.file_size - t.read) > sizes.iov_size
            }
        },
        Action::Submit { ring: Ring::Final } => {
            &&& t.entries > 0
            &&& t.last.total == t.entries
            &&& t.last.open.len() == t.entries
            &&& t.last.waiting == t.entries
        },
        Action::Poll { ring: Ring::Main, max, timeout_ms } => {
            &&& t.entries == 0
            &&& t.ready(Ring::Main, max as int)
            &&& timeout_ms == 30000
        },
        Action::Poll { ring: Ring::Final, max, timeout_ms } => {
            &&& t.last.total == t.entries
            &&& t.ready(Ring::Final, max as int)
            &&& timeout_ms == 60000
            &&& t.silent_last < 10
        },
        Action::Sync => {
            &&& t.entries > 0
            &&& t.last.total == t.entries
            &&& t.last.open.len() == 0
            &&& !t.synced
        },
        Action::Finished => {
            &&& t.read == sizes.file_size
            &&& t.main.open.len() == 0
            &&& t.last.open.len() == 0
            &&& t.counted == sizes.file_size
            &&& t.entries > 0 ==> t.synced
        },
        Action::Failed { .. } => true,
        _ => false,
    }
}

/// A worker gives up for the reason, after the event.
pub open spec fn worker_may_fail(
    before: Traffic,
    event: WorkerEvent,
    after: Traffic,
    sizes: Sizes,
    error: PipelineError,
) -> bool {
    match (error, event) {
        (PipelineError::PollTimeout, WorkerEvent::Polled { batch }) => {
            before.polls(Ring::Main) && batch.len() == 0
        },
        (
            PipelineError::WriteFailed { ring, offset, result },
            WorkerEvent::Polled { batch },
        ) => {
            &&& before.polls(ring)
            &&& result < 0
            &&& exists|i: int|
                #[trigger] first_refused(batch, i) && offset == batch[i].offset && result
                    == batch[i].result
        },
        (
            PipelineError::WriteIncomplete { ring, expected, result },
            WorkerEvent::Polled { batch },
        ) => {
            &&& before.polls(ring)
            &&& result >= 0
            &&& exists|i: int|
                #[trigger] first_refused(batch, i) && expected == batch[i].expected && result
                    == batch[i].result
        },
        (
            PipelineError::FinalIncomplete { done, total, polls },
            WorkerEvent::Polled { batch },
        ) => {
            &&& before.polls(Ring::Final)
            &&& batch.len() == 0
            &&& after.silent_last == 10
            &&& polls == 10
            &&& total == after.entries
            &&& done == after.entries - after.last.open.len()
        },
        (PipelineError::ChunkTooLarge { chunk_size, iov_size, block_size }, _) => {
            &&& iov_size == sizes.iov_size
            &&& block_size == sizes.block_size
            &&& chunk_size > iov_size
            &&& chunk_size == min_int(sizes.block_size, sizes.file_size - after.read)
            &&& after.main.open.len() == 0
        },
        _ => false,
    }
}

/// After the event there is nothing left but to give up: a write was not what was
/// asked for, the main ring was silent, or the final ring was silent once too often.
pub open spec fn worker_must_fail(before: Traffic, event: WorkerEvent) -> bool {
    match event {
        WorkerEvent::Done => false,
        WorkerEvent::Polled { batch } => {
            ||| !all_written(batch)
            ||| batch.len() == 0 && before.polls(Ring::Main)
            ||| batch.len() == 0 && before.polls(Ring::Final) && before.silent_last == 9
        },
    }
}

/// How many blocks what is left of the file takes.
spec fn blocks_left(s: WorkerView) -> int {
    blocks_for(s.file_size - s.src_offset, s.block_size)
}

/// The rings are used as the copy keeps track of them.
spec fn tracked_alike(s: WorkerView, t: Traffic) -> bool {
    &&& t.read == s.src_offset
    &&& t.counted == s.completed
    &&& t.main.open.len() == s.inflight.len()
    &&& t.last.open.len() == s.final_chunks.len() - s.final_done
    &&& t.last.total == s.final_chunks.len()
    &&& t.silent_last == s.empty_polls
    &&& t.peak == s.high_water
}

/// The final ring has not been used.
spec fn final_unused(s: WorkerView, t: Traffic) -> bool {
    &&& s.final_chunks.len() == 0
    &&& s.final_done == 0
    &&& s.empty_polls == 0
    &&& t.entries == 0
    &&& t.last.waiting == 0
    &&& !t.synced
}

/// What the copy waits for is what it asked for, and the rings are used as the copy
/// keeps track of them.
spec fn linked(s: WorkerView, t: Traffic) -> bool {
    &&& s.phase is Closed || tracked_alike(s, t)
    &&& t.peak == s.high_water
    &&& match s.phase {
        WorkerPhase::Start => {
            &&& final_unused(s, t)
            &&& t.used == s.next_buf
            &&& t.asked is None
        },
        WorkerPhase::Preparing { chunk } => {
            &&& final_unused(s, t)
            &&& t.asked == Some(Action::Prepare { ring: Ring::Main, chunk })
        },
        WorkerPhase::Submitting => {
            &&& final_unused(s, t)
            &&& t.used == s.next_buf
            &&& t.asked == Some(Action::Submit { ring: Ring::Main })
        },
        WorkerPhase::Polling => {
            &&& final_unused(s, t)
            &&& t.used == s.next_buf
            &&& t.main.waiting == 0
            &&& t.asked matches Some(Action::Poll { ring, max, timeout_ms })
            &&& ring == Ring::Main
            &&& max == s.inflight.len()
        },
        WorkerPhase::OpeningFinal => {
            &&& final_unused(s, t)
            &&& t.used == s.next_buf
            &&& t.asked matches Some(Action::OpenFinal { entries })
            &&& 0 < entries == blocks_left(s)
        },
        WorkerPhase::PreparingFinal { chunk } => {
            &&& t.asked == Some(Action::Prepare { ring: Ring::Final, chunk })
            &&& t.last.waiting == t.last.total == t.last.open.len()
            &&& 0 < t.entries == t.last.total + blocks_left(s)
            &&& t.silent_last == 0
            &&& !t.synced
        },
        WorkerPhase::SubmittingFinal => {
            &&& t.asked == Some(Action::Submit { ring: Ring::Final })
            &&& t.last.waiting == t.last.total == t.last.open.len()
            &&& 0 < t.entries == t.last.total
            &&& t.silent_last == 0
            &&& !t.synced
        },
        WorkerPhase::PollingFinal => {
            &&& t.asked matches Some(Action::Poll { ring, max, timeout_ms })
            &&& ring == Ring::Final
            &&& max == t.last.open.len()
            &&& t.last.waiting == 0
            &&& 0 < t.entries == t.last.total
            &&& !t.synced
        },
        WorkerPhase::Syncing => {
            &&& t.asked == Some(Action::Sync)
            &&& 0 < t.entries == t.last.total
        },
        WorkerPhase::Closed => t.asked matches Some(action) && (action is Finished
            || action is Failed),
    }
}

/// The copy after a step, apart from what it keeps to itself.
spec fn steps_to(t: Traffic, sizes: Sizes, next: (WorkerView, Action)) -> bool {
    &&& worker_may_ask(t, sizes, next.1)
    &&& next.0.phase is Closed || linked(next.0, t.asking(next.1))
    &&& next.0.high_water == t.peak
    &&& next.0.phase is Closed <==> next.1 is Finished || next.1 is Failed
    &&& next.1 matches Action::Failed { error } ==> error is ChunkTooLarge || error
        is FinalIncomplete
}

spec fn sizes_of(s: WorkerView) -> Sizes {
    Sizes {
        block_size: s.block_size,
        iov_size: s.iov_size,
        depth: s.depth,
        file_size: s.file_size,
    }
}

/// The numbers of the copy are within their bounds.
spec fn bounded(s: WorkerView) -> bool {
    &&& s.params_ok()
    &&& 0 <= s.src_offset <= s.file_size
    &&& 0 <= s.next_buf <= s.iov_size
    &&& s.inflight.len() <= s.depth
}

#[verifier::rlimit(50)]
proof fn lemma_fill_links(s: WorkerView, t: Traffic)
    requires
        bounded(s),
        tracked_alike(s, t),
        final_unused(s, t),
        t.used == s.next_buf,
        s.inflight.len() > 0 || t.fills_a_batch(sizes_of(s)),
    ensures
        steps_to(t, sizes_of(s), s.fill()),
        s.fill().1 matches Action::Failed { error } ==> error is ChunkTooLarge && worker_may_fail(
            t,
            WorkerEvent::Done,
            t,
            sizes_of(s),
            error,
        ),
{
    let (u, action) = s.fill();
    if s.inflight.len() == 0 {
        assert((s.depth - 1) * s.block_size >= 0) by (nonlinear_arith)
            requires
                s.depth >= 1,
                s.block_size > 0,
        ;
    }
    if let Action::Prepare { ring, chunk } = action {
        assert(t.is_next(sizes_of(s), chunk));
    }
}

#[verifier::rlimit(50)]
proof fn lemma_head_links(s: WorkerView, t: Traffic)
    requires
        bounded(s),
        tracked_alike(s, t),
        final_unused(s, t),
        t.used == s.next_buf,
        s.completed <= s.file_size,
        s.inflight.len() == 0 ==> s.completed == s.src_offset,
        s.completed == s.file_size ==> s.src_offset == s.file_size && s.inflight.len() == 0,
    ensures
        steps_to(t, sizes_of(s), s.head()),
        s.head().1 matches Action::Failed { error } ==> error is ChunkTooLarge && worker_may_fail(
            t,
            WorkerEvent::Done,
            t,
            sizes_of(s),
            error,
        ),
{
    lemma_blocks_for(s.file_size - s.src_offset, s.block_size);
    let left = blocks_left(s);
    assert((left - 1) * s.block_size == left * s.block_size - s.block_size) by (nonlinear_arith);
    if s.completed < s.file_size && !(s.inflight.len() == 0 && 0 < left < s.depth) {
        if s.inflight.len() == 0 {
            assert((s.depth - 1) * s.block_size <= (left - 1) * s.block_size) by (nonlinear_arith)
                requires
                    s.depth <= left,
                    s.block_size > 0,
            ;
        }
        lemma_fill_links(s, t);
    }
}

#[verifier::rlimit(50)]
proof fn lemma_fill_final_links(s: WorkerView, t: Traffic)
    requires
        bounded(s),
        s.file_size - s.src_offset <= s.iov_size - s.block_size,
        s.inflight.len() == 0,
        tracked_alike(s, t),
        t.used == s.next_buf,
        s.final_done == 0,
        t.last.waiting == t.last.total == t.last.open.len(),
        0 < t.entries == t.last.total + blocks_left(s),
        t.silent_last == 0,
        !t.synced,
    ensures
        steps_to(t, sizes_of(s), s.fill_final()),
        !(s.fill_final().1 is Failed),
{
    lemma_blocks_for(s.file_size - s.src_offset, s.block_size);
    let (u, action) = s.fill_final();
    if let Action::Prepare { ring, chunk } = action {
        assert(s.file_size - s.src_offset <= s.iov_size - s.block_size);
        assert(t.is_next(sizes_of(s), chunk));
    }
}

#[verifier::rlimit(50)]
proof fn lemma_poll_final_links(s: WorkerView, t: Traffic)
    requires
        s.params_ok(),
        tracked_alike(s, t),
        0 <= s.final_done <= s.final_chunks.len() <= usize::MAX,
        s.empty_polls <= 10,
        s.inflight.len() == 0,
        s.src_offset == s.file_size,
        t.last.waiting == 0,
        0 < t.entries == t.last.total,
        !t.synced,
    ensures
        steps_to(t, sizes_of(s), s.poll_final()),
        s.poll_final().1 matches Action::Failed { error } ==> {
            &&& t.silent_last == 10
            &&& error matches PipelineError::FinalIncomplete { done, total, polls }
            &&& polls == 10
            &&& total == t.entries
            &&& done == t.entries - t.last.open.len()
        },
        s.poll_final().1 is Failed <==> s.empty_polls == 10 && s.final_done < s.final_chunks.len(),
{
}

/// What the copy keeps to itself and what is seen of it go together.
spec fn in_step(w: WatchedCopy) -> bool {
    &&& linked(w.state, w.traffic)
    &&& !(w.state.phase is Closed) ==> w.copying().consistent()
}

#[verifier::rlimit(50)]
proof fn lemma_done_step(w: WatchedCopy)
    requires
        in_step(w),
        w.allows(WorkerEvent::Done),
    ensures
        w.copying().allows(WorkerEvent::Done),
        steps_to(w.traffic.performed(), w.sizes(), w.state.advance()),
        w.state.advance().1 matches Action::Failed { error } ==> worker_may_fail(
            w.traffic,
            WorkerEvent::Done,
            w.traffic.performed(),
            w.sizes(),
            error,
        ),
        w.next(WorkerEvent::Done).ledger == w.copying().next(WorkerEvent::Done).ledger,
{
    let s = w.state;
    let t = w.traffic;
    let l = w.ledger;
    let p = t.performed();
    assert(w.sizes() == sizes_of(s));
    lemma_ledger_bounds(l, s.src_offset);
    lemma_step(w.copying(), WorkerEvent::Done);
    match s.phase {
        WorkerPhase::Start => lemma_head_links(s, p),
        WorkerPhase::Preparing { chunk } => {
            let m = WorkerView { inflight: s.inflight.push(chunk), ..s.handed_out(chunk) };
            lemma_fill_links(m, p);
        },
        WorkerPhase::Submitting => {},
        WorkerPhase::OpeningFinal => {
            lemma_blocks_for(s.file_size - s.src_offset, s.block_size);
            lemma_fill_final_links(s, p);
        },
        WorkerPhase::PreparingFinal { chunk } => {
            lemma_blocks_for(s.file_size - s.src_offset, s.block_size);
            let m = WorkerView { final_chunks: s.final_chunks.push(chunk), ..s.handed_out(chunk) };
            lemma_fill_final_links(m, p);
        },
        WorkerPhase::SubmittingFinal => lemma_poll_final_links(s, p),
        WorkerPhase::Syncing => {},
        _ => {},
    }
}

proof fn lemma_refused(batch: Seq<Completion>)
    ensures
        accepted_len(batch) < batch.len() ==> first_refused(batch, accepted_len(batch) as int),
        all_written(batch) <==> accepted_len(batch) == batch.len(),
{
    lemma_accepted_len(batch);
    let n = accepted_len(batch) as int;
    assert(forall|k: int| 0 <= k < n ==> (#[trigger] batch[k]).accepted());
    if n < batch.len() {
        assert(!batch[n].accepted());
    }
}

#[verifier::rlimit(50)]
proof fn lemma_polled_step(w: WatchedCopy, batch: Seq<Completion>)
    requires
        in_step(w),
        w.allows(WorkerEvent::Polled { batch }),
    ensures
        w.copying().allows(WorkerEvent::Polled { batch }),
        worker_may_ask(w.traffic.reported(batch), w.sizes(), w.state.polled(batch).1),
        w.state.polled(batch).1 matches Action::Failed { error } ==> worker_may_fail(
            w.traffic,
            WorkerEvent::Polled { batch },
            w.traffic.reported(batch),
            w.sizes(),
            error,
        ) && (error is ChunkTooLarge || worker_must_fail(
            w.traffic,
            WorkerEvent::Polled { batch },
        )),
        worker_must_fail(w.traffic, WorkerEvent::Polled { batch }) ==> w.state.polled(batch).1
            is Failed,
        linked(
            w.state.polled(batch).0,
            w.traffic.reported(batch).asking(w.state.polled(batch).1),
        ),
{
    let s = w.state;
    let t = w.traffic;
    let l = w.ledger;
    let r = t.reported(batch);
    let n = accepted_len(batch) as int;
    let event = WorkerEvent::Polled { batch };
    assert(w.sizes() == sizes_of(s));
    lemma_refused(batch);
    lemma_accepted_len(batch);
    lemma_step(w.copying(), event);
    lemma_confirm(l, s.src_offset, batch, n);
    let k = l.confirm(batch, n);
    lemma_ledger_bounds(k, s.src_offset);
    if n < batch.len() {
        assert(first_refused(batch, n));
    } else {
        assert(batch.take(n) =~= batch);
        let credited = WorkerView { completed: s.completed + accepted_bytes(batch), ..s };
        if s.phase is Polling {
            if batch.len() > 0 {
                let m = WorkerView { inflight: s.inflight.skip(n), ..credited };
                lemma_head_links(m, r);
            }
        } else {
            if batch.len() == 0 {
                assert(expected_bytes(batch) == 0);
                lemma_poll_final_links(WorkerView { empty_polls: s.empty_polls + 1, ..s }, r);
            } else {
                lemma_poll_final_links(
                    WorkerView { final_done: s.final_done + n, ..credited },
                    r,
                );
            }
        }
    }
}

/// What was asked for last has no part in what may be asked for next.
proof fn lemma_asking(t: Traffic, sizes: Sizes, action: Action)
    ensures
        worker_may_ask(t.asking(action), sizes, action) == worker_may_ask(t, sizes, action),
        forall|before: Traffic, event: WorkerEvent, error: PipelineError| #[trigger]
            worker_may_fail(before, event, t.asking(action), sizes, error) == worker_may_fail(
                before,
                event,
                t,
                sizes,
                error,
            ),
{
}

/// The step that follows the event is one that the copy may take.
spec fn steps_rightly(w: WatchedCopy, event: WorkerEvent) -> bool {
    let seen = w.next(event).traffic;
    &&& worker_may_ask(seen, w.sizes(), w.action(event))
    &&& (w.action(event) matches Action::Failed { error } ==> worker_may_fail(
        w.traffic,
        event,
        seen,
        w.sizes(),
        error,
    ) && (error is ChunkTooLarge || worker_must_fail(w.traffic, event)))
    &&& worker_must_fail(w.traffic, event) ==> w.action(event) is Failed
}

#[verifier::rlimit(50)]
proof fn lemma_done_is_right(w: WatchedCopy)
    requires
        in_step(w),
        w.allows(WorkerEvent::Done),
    ensures
        steps_rightly(w, WorkerEvent::Done),
        linked(w.next(WorkerEvent::Done).state, w.next(WorkerEvent::Done).traffic),
        w.copying().allows(WorkerEvent::Done),
        w.next(WorkerEvent::Done).ledger == w.copying().next(WorkerEvent::Done).ledger,
{
    lemma_done_step(w);
    lemma_asking(w.traffic.performed(), w.sizes(), w.action(WorkerEvent::Done));
}

#[verifier::rlimit(50)]
proof fn lemma_polled_is_right(w: WatchedCopy, batch: Seq<Completion>)
    requires
        in_step(w),
        w.allows(WorkerEvent::Polled { batch }),
    ensures
        steps_rightly(w, WorkerEvent::Polled { batch }),
        linked(
            w.next(WorkerEvent::Polled { batch }).state,
            w.next(WorkerEvent::Polled { batch }).traffic,
        ),
        w.copying().allows(WorkerEvent::Polled { batch }),
{
    lemma_polled_step(w, batch);
    lemma_asking(w.traffic.reported(batch), w.sizes(), w.action(WorkerEvent::Polled { batch }));
}

/// Each step of a copy is one that it may take.
#[verifier::rlimit(50)]
proof fn lemma_watched_step(w: WatchedCopy, event: WorkerEvent)
    requires
        in_step(w),
        w.allows(event),
    ensures
        in_step(w.next(event)),
        w.copying().next(event).honours(w.action(event)),
        w.next(event).copying() == w.copying().next(event),
        w.next(event).sizes() == w.sizes(),
        steps_rightly(w, event),
{
    match event {
        WorkerEvent::Done => {
            lemma_done_is_right(w);
            lemma_advance_keeps_params(w.state);
        },
        WorkerEvent::Polled { batch } => {
            lemma_polled_is_right(w, batch);
            lemma_polled_keeps_params(w.state, batch);
        },
    }
    assert(!(w.state.phase is Closed));
    lemma_step(w.copying(), event);
}

proof fn lemma_watched_run(start: WatchedCopy, events: Seq<WorkerEvent>)
    requires
        in_step(start),
        start.allows_all(events),
    ensures
        in_step(start.after(events)),
        start.after(events).sizes() == start.sizes(),
    decreases events.len(),
{
    if events.len() > 0 {
        lemma_watched_run(start, events.drop_last());
        lemma_watched_step(start.after(events.drop_last()), events.last());
    }
}

proof fn lemma_watched_start(sizes: Sizes)
    requires
        WatchedCopy::start(sizes).state.params_ok(),
    ensures
        in_step(WatchedCopy::start(sizes)),
        WatchedCopy::start(sizes).sizes() == sizes,
{
    lemma_start(sizes.block_size, sizes.iov_size, sizes.depth, sizes.file_size);
}

/// In every run a worker uses its rings in order: it asks for nothing but what it may
/// ask for. Above all, a ring is polled only when all the requests that were queued on
/// it have been submitted on it, and a ring is submitted only when requests were
/// queued on it.
pub proof fn law_rings_are_used_in_order(sizes: Sizes, events: Seq<WorkerEvent>)
    requires
        WatchedCopy::start(sizes).state.params_ok(),
        events.len() > 0,
        WatchedCopy::start(sizes).allows_all(events),
    ensures
        ({
            let seen = WatchedCopy::start(sizes).after(events).traffic;
            &&& seen.asked is Some
            &&& worker_may_ask(seen, sizes, seen.asked->Some_0)
        }),
{
    let start = WatchedCopy::start(sizes);
    lemma_watched_start(sizes);
    lemma_watched_run(start, events.drop_last());
    lemma_watched_step(start.after(events.drop_last()), events.last());
}

/// A ring is polled only after all the requests that were queued on it were submitted on
/// that same ring, and only while there are some; and a ring is submitted only when there
/// are requests on that same ring.
pub proof fn law_ring_is_polled_after_its_submission(
    sizes: Sizes,
    events: Seq<WorkerEvent>,
    ring: Ring,
)
    requires
        WatchedCopy::start(sizes).state.params_ok(),
        WatchedCopy::start(sizes).allows_all(events),
    ensures
        ({
            let seen = WatchedCopy::start(sizes).after(events).traffic;
            &&& seen.polls(ring) ==> seen.ring(ring).waiting == 0 && seen.ring(ring).open.len() > 0
            &&& seen.asked == Some(Action::Submit { ring }) ==> seen.ring(ring).open.len() > 0
        }),
{
    if events.len() > 0 {
        law_rings_are_used_in_order(sizes, events);
    }
}

/// A worker gives up where it has to and nowhere else, and says why: the main ring was
/// silent, the final ring was silent ten times, the first write that was not complete
/// had failed or stopped short, or a chunk has no room in the buffer.
pub proof fn law_worker_fails_for_a_reason(sizes: Sizes, events: Seq<WorkerEvent>)
    requires
        WatchedCopy::start(sizes).state.params_ok(),
        events.len() > 0,
        WatchedCopy::start(sizes).allows_all(events),
    ensures
        ({
            let before = WatchedCopy::start(sizes).after(events.drop_last()).traffic;
            let seen = WatchedCopy::start(sizes).after(events).traffic;
            &&& worker_must_fail(before, events.last()) ==> seen.asked->Some_0 is Failed
            &&& seen.asked matches Some(Action::Failed { error }) ==> {
                &&& worker_may_fail(before, events.last(), seen, sizes, error)
                &&& error is ChunkTooLarge || worker_must_fail(before, events.last())
            }
        }),
{
    let start = WatchedCopy::start(sizes);
    lemma_watched_start(sizes);
    lemma_watched_run(start, events.drop_last());
    lemma_watched_step(start.after(events.drop_last()), events.last());
}

/// The chunks that a worker was seen to read keep clear of each other, and when it
/// finishes they are the whole file: a chunk shares no byte of the buffer with a
/// request that the ring has not confirmed, and in the end the chunks follow each other
/// without gap or overlap from the beginning of the file to its end, and all of them
/// are confirmed.
pub proof fn law_chunks_that_are_read_make_up_the_file(sizes: Sizes, events: Seq<WorkerEvent>)
    requires
        WatchedCopy::start(sizes).state.params_ok(),
        events.len() > 0,
        WatchedCopy::start(sizes).allows_all(events),
    ensures
        ({
            let w = WatchedCopy::start(sizes).after(events);
            &&& w.traffic.asked matches Some(Action::Prepare { chunk, .. }) ==> forall|i: int|
                #[trigger]
                w.ledger.is_open(i) ==> chunk.apart_from(w.ledger.queued[i])
            &&& w.traffic.asked matches Some(Action::Finished) ==> {
                &&& tiles(w.ledger.queued, sizes.file_size)
                &&& forall|i: int| !#[trigger] w.ledger.is_open(i)
            }
        }),
{
    let start = WatchedCopy::start(sizes);
    lemma_watched_start(sizes);
    lemma_watched_run(start, events.drop_last());
    let w = start.after(events.drop_last());
    lemma_watched_step(w, events.last());
    assert(w.sizes().file_size == w.next(events.last()).state.file_size);
}

/// A worker is seen to read the file from its beginning on: what it has read so far
/// follows each other without gap or overlap, up to where the source stands.
pub proof fn law_file_is_read_in_order(sizes: Sizes, events: Seq<WorkerEvent>)
    requires
        WatchedCopy::start(sizes).state.params_ok(),
        WatchedCopy::start(sizes).allows_all(events),
        WatchedCopy::start(sizes).after(events).traffic.can_be_done()
            || WatchedCopy::start(sizes).after(events).traffic.asked matches Some(
            Action::Poll { .. },
        ),
    ensures
        ({
            let w = WatchedCopy::start(sizes).after(events);
            tiles(w.ledger.queued, w.traffic.read)
        }),
{
    let start = WatchedCopy::start(sizes);
    lemma_watched_start(sizes);
    lemma_watched_run(start, events);
}

/// At every moment the worker tells truly how far its buffer has been used, and, as long
/// as it has not given up, how many bytes the rings have confirmed.
pub proof fn law_worker_tells_what_was_seen(sizes: Sizes, events: Seq<WorkerEvent>)
    requires
        WatchedCopy::start(sizes).state.params_ok(),
        WatchedCopy::start(sizes).allows_all(events),
    ensures
        ({
            let w = WatchedCopy::start(sizes).after(events);
            &&& w.state.high_water == w.traffic.peak
            &&& !(w.traffic.asked matches Some(Action::Failed { .. })) ==> w.state.completed
                == w.traffic.counted
        }),
{
    let start = WatchedCopy::start(sizes);
    lemma_watched_start(sizes);
    lemma_watched_run(start, events);
    if events.len() > 0 {
        lemma_watched_run(start, events.drop_last());
        let w = start.after(events.drop_last());
        lemma_watched_step(w, events.last());
    }
}

} // verus!
