//! What the round-robin copy loop guarantees over a ring that reports requests in
//! any order, where the buffer can hold the whole file.
//!
//! The ring plays by the rules: it reports a request at most once, only after it
//! was queued, and with the offset and the size that the request was queued with.

use crate::pipeline::{
    lemma_advance_keeps_wf, lemma_polled_keeps_wf, lemma_polled_main_keeps_wf,
    lemma_prepared_keeps_wf, RunPhase, RunView, MAX_CONSECUTIVE_TIMEOUTS,
};
use crate::pipeline_laws::{
    law_requests_share_no_buffer, lemma_polled_prepare_phase, lemma_prepare_phase, reports,
    RunEvent,
};
use crate::ring::{accepted_len, lemma_accepted_len, tiles, Action, Chunk, Completion, Ring};
use crate::worker_laws::lemma_tiles_in_order;
use vstd::prelude::*;
use vstd::set_lib::{lemma_int_range, lemma_subset_equality, set_int_range};

verus! {

/// A copy together with the chunks that it has read, in order, and the places
/// among them of those that a ring has confirmed.
#[verifier::ext_equal]
pub struct Unordered {
    pub state: RunView,
    pub read: Seq<Chunk>,
    pub done: Set<int>,
}

impl Unordered {
    pub open spec fn start(
        block_size: int,
        iov_size: int,
        depth: int,
        file_size: int,
        now: int,
    ) -> Unordered {
        Unordered {
            state: RunView::initial(block_size, iov_size, depth, file_size, now),
            read: Seq::empty(),
            done: Set::empty(),
        }
    }

    /// The chunk at the place `i` was read and is not confirmed.
    pub open spec fn is_open(self, i: int) -> bool {
        0 <= i < self.read.len() && !self.done.contains(i)
    }

    /// The event can happen to the copy. `which` tells the requests that the
    /// completions belong to, by the places of their chunks among those that were
    /// read. The main ring reports any open requests; the final ring reports any of
    /// those that were queued on it.
    pub open spec fn allows(self, event: RunEvent) -> bool {
        match event {
            RunEvent::Done => self.state.can_advance(),
            RunEvent::Polled { batch, which, now } => {
                &&& self.state.may_bring(batch)
                &&& 0 <= now <= u64::MAX
                &&& reports(batch, self.read, which)
                &&& which.no_duplicates()
                &&& forall|k: int|
                    0 <= k < which.len() ==> {
                        let i = #[trigger] which[k];
                        if self.state.phase is PollingFinal {
                            0 <= i < self.read.len() && self.state.final_chunks.contains(
                                self.read[i],
                            )
                        } else {
                            self.is_open(i)
                        }
                    }
            },
        }
    }

    /// What the copy asks for after the event.
    pub open spec fn action(self, event: RunEvent) -> Action {
        match event {
            RunEvent::Done => self.state.advance().1,
            RunEvent::Polled { batch, now, .. } => self.state.polled(batch, now).1,
        }
    }

    /// The copy after the event.
    pub open spec fn next(self, event: RunEvent) -> Unordered {
        match event {
            RunEvent::Done => Unordered {
                state: self.state.advance().0,
                read: match self.state.phase {
                    RunPhase::Preparing { chunk } => self.read.push(chunk),
                    RunPhase::PreparingPartial { chunk } => self.read.push(chunk),
                    _ => self.read,
                },
                done: self.done,
            },
            RunEvent::Polled { batch, which, now } => Unordered {
                state: self.state.polled(batch, now).0,
                read: self.read,
                done: self.done.union(which.take(accepted_len(batch) as int).to_set()),
            },
        }
    }

    /// The copy after all the events.
    pub open spec fn after(self, events: Seq<RunEvent>) -> Unordered
        decreases events.len(),
    {
        if events.len() == 0 {
            self
        } else {
            self.after(events.drop_last()).next(events.last())
        }
    }

    /// Every one of the events can happen in its turn.
    pub open spec fn allows_all(self, events: Seq<RunEvent>) -> bool
        decreases events.len(),
    {
        events.len() > 0 ==> {
            &&& self.allows_all(events.drop_last())
            &&& self.after(events.drop_last()).allows(events.last())
        }
    }

    /// Only the main ring has been used, and it may be used further.
    spec fn on_main(self) -> bool {
        let s = self.state;
        !s.in_final() && !(s.phase is Closed) && !(s.phase is Draining)
    }

    /// The records of a copy tell how many requests are open, and chunks lie in the
    /// buffer where they lie in the file. What is left for the final ring begins
    /// when nothing is open.
    spec fn consistent(self) -> bool {
        let s = self.state;
        let first = self.read.len() - s.final_chunks.len();
        &&& s.wf()
        &&& s.file_size <= s.iov_size
        &&& tiles(self.read, s.src_offset)
        &&& self.on_main() ==> {
            &&& self.done.subset_of(set_int_range(0, self.read.len() as int))
            &&& self.done.len() + s.inflight.len() == self.read.len()
            &&& forall|i: int|
                0 <= i < self.read.len() ==> (#[trigger] self.read[i]).buf_offset
                    == self.read[i].src_offset
        }
        &&& s.in_partial() ==> {
            &&& 0 <= first
            &&& s.final_chunks == self.read.skip(first)
            &&& forall|i: int| 0 <= i < first ==> #[trigger] self.done.contains(i)
        }
    }
}

/// In a buffer that holds the file, the next chunk is kept where it lies in the
/// file.
proof fn lemma_slot_is_offset(s: RunView)
    requires
        s.wf(),
        s.file_size <= s.iov_size,
        s.src_offset < s.file_size,
        !s.in_final(),
        !(s.phase is Closed),
    ensures
        s.slot(s.handed) == s.src_offset,
{
    vstd::arithmetic::div_mod::lemma_small_mod(s.src_offset as nat, s.iov_size as nat);
}

/// Where nothing is open, every chunk is confirmed.
proof fn lemma_all_done(u: Unordered)
    requires
        u.consistent(),
        u.on_main(),
        u.state.inflight.len() == 0,
    ensures
        forall|i: int| 0 <= i < u.read.len() ==> #[trigger] u.done.contains(i),
{
    let all = set_int_range(0, u.read.len() as int);
    lemma_int_range(0, u.read.len() as int);
    lemma_subset_equality(u.done, all);
    assert forall|i: int| 0 <= i < u.read.len() implies #[trigger] u.done.contains(i) by {
        assert(all.contains(i));
    }
}

proof fn lemma_head(u: Unordered)
    requires
        u.consistent(),
        u.state.phase is Start,
    ensures
        (Unordered { state: u.state.head().0, ..u }).consistent(),
        (Unordered { state: u.state.fill().0, ..u }).consistent(),
{
    let s = u.state;
    lemma_advance_keeps_wf(s);
    crate::pipeline::lemma_fill_keeps_wf(s);
    if s.inflight.len() == 0 {
        lemma_all_done(u);
        assert(u.read.skip(u.read.len() as int) =~= s.final_chunks);
    }
}

proof fn lemma_step(u: Unordered, event: RunEvent)
    requires
        u.consistent(),
        u.allows(event),
    ensures
        u.next(event).consistent(),
{
    let s = u.state;
    match event {
        RunEvent::Done => {
            lemma_advance_keeps_wf(s);
            match s.phase {
                RunPhase::Start => lemma_head(u),
                RunPhase::Retrying => {
                    let t = RunView { phase: RunPhase::Start, ..s };
                    lemma_head(Unordered { state: t, ..u });
                    assert(s.head() == t.head());
                },
                RunPhase::Preparing { chunk } => {
                    let t = s.prepared(chunk);
                    let m = Unordered { state: t, read: u.read.push(chunk), ..u };
                    lemma_prepared_keeps_wf(s, chunk);
                    lemma_slot_is_offset(s);
                    assert(m.read.drop_last() =~= u.read);
                    lemma_head(m);
                },
                RunPhase::PreparingPartial { chunk } => {
                    let read = u.read.push(chunk);
                    let first = u.read.len() - s.final_chunks.len();
                    assert(read.drop_last() =~= u.read);
                    assert(read.skip(first) =~= s.final_chunks.push(chunk));
                },
                _ => {},
            }
        },
        RunEvent::Polled { batch, which, now } => {
            lemma_polled_keeps_wf(s, batch, now);
            if s.phase is Polling {
                lemma_polled(u, batch, which, now);
            }
        },
    }
}

proof fn lemma_polled(u: Unordered, batch: Seq<Completion>, which: Seq<int>, now: int)
    requires
        u.consistent(),
        u.state.phase is Polling,
        u.allows(RunEvent::Polled { batch, which, now }),
    ensures
        u.next(RunEvent::Polled { batch, which, now }).consistent(),
{
    let s = u.state;
    let n = accepted_len(batch) as int;
    lemma_accepted_len(batch);
    lemma_polled_keeps_wf(s, batch, now);
    let some = which.take(n).to_set();
    let done = u.done.union(some);
    if batch.len() == 0 {
        assert(which.take(n) =~= Seq::<int>::empty());
        assert(done =~= u.done);
        let t = RunView { timeouts: s.timeouts + 1, phase: RunPhase::Start, ..s };
        if t.timeouts < MAX_CONSECUTIVE_TIMEOUTS {
            lemma_head(Unordered { state: t, ..u });
            let v = RunView { phase: s.phase, ..t };
            assert(v.head() == t.head());
        }
    } else {
        let t = s.credited(batch, now);
        lemma_polled_main_keeps_wf(s, batch, now);
        lemma_int_range(0, u.read.len() as int);
        which.take(n).unique_seq_to_set();
        assert forall|i: int| some.contains(i) implies u.is_open(i) by {
            let k = choose|k: int| 0 <= k < n && which.take(n)[k] == i;
            assert(which[k] == i);
        }
        vstd::set_lib::lemma_len_subset(u.done, set_int_range(0, u.read.len() as int));
        assert(u.done.disjoint(some));
        vstd::set_lib::lemma_set_disjoint_lens(u.done, some);
        assert(done =~= u.done + some);
        lemma_head(Unordered { state: t, done, ..u });
    }
}

proof fn lemma_run(start: Unordered, events: Seq<RunEvent>)
    requires
        start.consistent(),
        start.allows_all(events),
    ensures
        start.after(events).consistent(),
    decreases events.len(),
{
    if events.len() > 0 {
        lemma_run(start, events.drop_last());
        lemma_step(start.after(events.drop_last()), events.last());
    }
}

proof fn lemma_same_buffer(start: Unordered, events: Seq<RunEvent>)
    ensures
        start.after(events).state.iov_size == start.state.iov_size,
    decreases events.len(),
{
    if events.len() > 0 {
        lemma_same_buffer(start, events.drop_last());
        let s = start.after(events.drop_last()).state;
        match events.last() {
            RunEvent::Done => crate::pipeline_laws::lemma_advance_keeps_params(s),
            RunEvent::Polled { batch, now, .. } => {
                crate::pipeline_laws::lemma_polled_keeps_params(s, batch, now)
            },
        }
    }
}

/// In a buffer that holds the file, a copy never reads a chunk over bytes that a
/// request still needs, whatever order the ring reports requests in: a chunk that
/// it asks to read lies inside the buffer and shares no byte of it with any chunk
/// that was read and is not confirmed.
pub proof fn law_open_chunks_are_not_overwritten_in_any_order(
    block_size: int,
    iov_size: int,
    depth: int,
    file_size: int,
    now: int,
    events: Seq<RunEvent>,
    ring: Ring,
    chunk: Chunk,
)
    requires
        RunView::initial(block_size, iov_size, depth, file_size, now).wf(),
        file_size <= iov_size,
        events.len() > 0,
        Unordered::start(block_size, iov_size, depth, file_size, now).allows_all(events),
        Unordered::start(block_size, iov_size, depth, file_size, now).after(
            events.drop_last(),
        ).action(events.last()) == (Action::Prepare { ring, chunk }),
    ensures
        ({
            let u = Unordered::start(block_size, iov_size, depth, file_size, now).after(events);
            &&& chunk.in_buffer(iov_size)
            &&& forall|i: int| #[trigger] u.is_open(i) ==> chunk.apart_from(u.read[i])
        }),
{
    let start = Unordered::start(block_size, iov_size, depth, file_size, now);
    let u = start.after(events);
    let s = u.state;
    assert(start.done.len() == 0);
    lemma_run(start, events);
    lemma_same_buffer(start, events);
    let before = start.after(events.drop_last());
    match events.last() {
        RunEvent::Done => lemma_prepare_phase(before.state),
        RunEvent::Polled { batch, now, .. } => lemma_polled_prepare_phase(before.state, batch, now),
    }
    law_requests_share_no_buffer(s);
    assert forall|i: int| #[trigger] u.is_open(i) implies chunk.apart_from(u.read[i]) by {
        lemma_tiles_in_order(u.read, s.src_offset);
        if s.phase is Preparing {
            lemma_slot_is_offset(s);
            assert(u.read[i].buf_offset == u.read[i].src_offset);
        } else {
            let first = u.read.len() - s.final_chunks.len();
            let grown = s.final_chunks.push(chunk);
            assert(u.done.contains(i) || first <= i);
            assert(s.final_chunks[i - first] == u.read[i]);
            assert(grown[i - first] == u.read[i]);
            assert(grown[grown.len() - 1] == chunk);
        }
    }
}

} // verus!
