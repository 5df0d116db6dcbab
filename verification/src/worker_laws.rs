//! What a worker's copy guarantees as a whole, whatever order its requests
//! complete in.
//!
//! The laws are about a ring that plays by the rules: it reports a request at
//! most once, only after it was queued, and with the offset and the size that
//! the request was queued with.

use crate::ring::{
    accepted_bytes, accepted_len, expected_bytes, lemma_accepted_len, tiles, Action, Chunk,
    Completion, Ring,
};
use crate::worker_pipeline::{
    lemma_advance_keeps_wf, lemma_polled_keeps_wf, WorkerPhase, WorkerView,
};
use vstd::prelude::*;

verus! {

/// The requests that have been queued, in order, and the file offsets of those
/// that have been confirmed.
#[verifier::ext_equal]
pub struct Ledger {
    pub queued: Seq<Chunk>,
    pub confirmed: Set<int>,
}

impl Ledger {
    pub open spec fn empty() -> Ledger {
        Ledger { queued: Seq::empty(), confirmed: Set::empty() }
    }

    /// The request has been queued and not been confirmed.
    pub open spec fn is_open(self, i: int) -> bool {
        0 <= i < self.queued.len() && !self.confirmed.contains(self.queued[i].src_offset as int)
    }

    /// How many requests are open.
    pub open spec fn open_count(self) -> int
        decreases self.queued.len(),
    {
        if self.queued.len() == 0 {
            0
        } else {
            let front = Ledger { queued: self.queued.drop_last(), ..self };
            front.open_count() + if self.confirmed.contains(
                self.queued.last().src_offset as int,
            ) {
                0int
            } else {
                1int
            }
        }
    }

    /// How many bytes have been confirmed.
    pub open spec fn confirmed_bytes(self) -> int
        decreases self.queued.len(),
    {
        if self.queued.len() == 0 {
            0
        } else {
            let front = Ledger { queued: self.queued.drop_last(), ..self };
            front.confirmed_bytes() + if self.confirmed.contains(
                self.queued.last().src_offset as int,
            ) {
                self.queued.last().size as int
            } else {
                0int
            }
        }
    }

    /// `chunk` has been queued.
    pub open spec fn queue(self, chunk: Chunk) -> Ledger {
        Ledger { queued: self.queued.push(chunk), ..self }
    }

    /// The first `n` completions of the batch have been accepted.
    pub open spec fn confirm(self, batch: Seq<Completion>, n: int) -> Ledger
        decreases n,
    {
        if n <= 0 {
            self
        } else {
            let before = self.confirm(batch, n - 1);
            Ledger { confirmed: before.confirmed.insert(batch[n - 1].offset as int), ..before }
        }
    }

    /// The completion reports the open request `i`.
    pub open spec fn reports(self, c: Completion, i: int) -> bool {
        &&& self.is_open(i)
        &&& self.queued[i].src_offset == c.offset
        &&& self.queued[i].size == c.expected
    }

    /// Every completion of the batch reports an open request, and no two
    /// report the same one.
    pub open spec fn honest(self, batch: Seq<Completion>) -> bool {
        &&& forall|k: int|
            0 <= k < batch.len() ==> exists|i: int| self.reports(#[trigger] batch[k], i)
        &&& forall|j: int, k: int|
            0 <= j < k < batch.len() ==> (#[trigger] batch[j]).offset != (
            #[trigger] batch[k]).offset
    }
}

/// What happens to a copy: what it asked for has been done, or its poll has
/// brought a batch of completions.
pub enum WorkerEvent {
    Done,
    Polled { batch: Seq<Completion> },
}

/// A copy together with the ledger of its requests.
#[verifier::ext_equal]
pub struct Copying {
    pub state: WorkerView,
    pub ledger: Ledger,
}

impl Copying {
    pub open spec fn start(block_size: int, iov_size: int, depth: int, file_size: int) -> Copying {
        Copying {
            state: WorkerView::initial(block_size, iov_size, depth, file_size),
            ledger: Ledger::empty(),
        }
    }

    /// The event can happen to the copy when the ring plays by the rules.
    pub open spec fn allows(self, event: WorkerEvent) -> bool {
        match event {
            WorkerEvent::Done => self.state.can_advance(),
            WorkerEvent::Polled { batch } => {
                &&& self.state.is_polling()
                &&& batch.len() <= self.state.poll_max()
                &&& self.ledger.honest(batch)
            },
        }
    }

    /// What the copy asks for after the event.
    pub open spec fn action(self, event: WorkerEvent) -> Action {
        match event {
            WorkerEvent::Done => self.state.advance().1,
            WorkerEvent::Polled { batch } => self.state.polled(batch).1,
        }
    }

    /// The copy after the event.
    pub open spec fn next(self, event: WorkerEvent) -> Copying {
        match event {
            WorkerEvent::Done => Copying {
                state: self.state.advance().0,
                ledger: match self.state.phase {
                    WorkerPhase::Preparing { chunk } => self.ledger.queue(chunk),
                    WorkerPhase::PreparingFinal { chunk } => self.ledger.queue(chunk),
                    _ => self.ledger,
                },
            },
            WorkerEvent::Polled { batch } => Copying {
                state: self.state.polled(batch).0,
                ledger: self.ledger.confirm(batch, accepted_len(batch) as int),
            },
        }
    }

    /// The copy after all the events.
    pub open spec fn after(self, events: Seq<WorkerEvent>) -> Copying
        decreases events.len(),
    {
        if events.len() == 0 {
            self
        } else {
            self.after(events.drop_last()).next(events.last())
        }
    }

    /// Every one of the events can happen in its turn.
    pub open spec fn allows_all(self, events: Seq<WorkerEvent>) -> bool
        decreases events.len(),
    {
        events.len() > 0 ==> {
            &&& self.allows_all(events.drop_last())
            &&& self.after(events.drop_last()).allows(events.last())
        }
    }

    /// What the machine and the ledger agree on.
    pub open spec fn consistent(self) -> bool {
        let s = self.state;
        let l = self.ledger;
        &&& s.wf()
        &&& tiles(l.queued, s.src_offset)
        &&& s.completed == l.confirmed_bytes()
        &&& forall|o: int| #[trigger]
            l.confirmed.contains(o) ==> exists|i: int|
                0 <= i < l.queued.len() && (#[trigger] l.queued[i]).src_offset == o
        &&& if s.in_final_batch() {
            &&& l.open_count() == s.final_chunks.len() - s.final_done
            &&& forall|i: int| #[trigger]
                l.is_open(i) ==> s.final_chunks.contains(l.queued[i])
        } else if s.phase is Closed {
            true
        } else {
            &&& l.open_count() == s.inflight.len()
            &&& forall|i: int| #[trigger]
                l.is_open(i) ==> l.queued[i].buf_offset + l.queued[i].size <= s.next_buf
        }
    }
}

/// The chunks of a tiling lie one behind the other in the file.
pub(crate) proof fn lemma_tiles_in_order(chunks: Seq<Chunk>, end: int)
    requires
        tiles(chunks, end),
    ensures
        forall|i: int|
            0 <= i < chunks.len() ==> 0 < (#[trigger] chunks[i]).size && chunks[i].src_offset
                + chunks[i].size <= end,
        forall|i: int, j: int|
            0 <= i < j < chunks.len() ==> (#[trigger] chunks[i]).src_offset + chunks[i].size <= (
            #[trigger] chunks[j]).src_offset,
    decreases chunks.len(),
{
    if chunks.len() > 0 {
        let front = chunks.drop_last();
        lemma_tiles_in_order(front, chunks.last().src_offset as int);
        assert(forall|i: int| 0 <= i < front.len() ==> #[trigger] chunks[i] == front[i]);
    }
}

/// Nothing more is confirmed than was queued; all of it exactly when no
/// request is open.
pub(crate) proof fn lemma_ledger_bounds(l: Ledger, end: int)
    requires
        tiles(l.queued, end),
    ensures
        0 <= l.confirmed_bytes() <= end,
        0 <= l.open_count() <= l.queued.len(),
        l.open_count() == 0 <==> l.confirmed_bytes() == end,
        l.open_count() == 0 ==> forall|i: int| !#[trigger] l.is_open(i),
    decreases l.queued.len(),
{
    if l.queued.len() > 0 {
        let front = Ledger { queued: l.queued.drop_last(), ..l };
        lemma_ledger_bounds(front, l.queued.last().src_offset as int);
        if l.open_count() == 0 {
            assert forall|i: int| !#[trigger] l.is_open(i) by {
                if 0 <= i < front.queued.len() {
                    assert(front.queued[i] == l.queued[i]);
                    assert(!front.is_open(i));
                }
            }
        }
    }
}

proof fn lemma_queue(l: Ledger, end: int, chunk: Chunk)
    requires
        tiles(l.queued, end),
        chunk.src_offset == end,
        0 < chunk.size,
        !l.confirmed.contains(end),
    ensures
        tiles(l.queue(chunk).queued, end + chunk.size),
        l.queue(chunk).open_count() == l.open_count() + 1,
        l.queue(chunk).confirmed_bytes() == l.confirmed_bytes(),
{
    let t = l.queue(chunk);
    assert(t.queued.drop_last() =~= l.queued);
    assert(Ledger { queued: t.queued.drop_last(), ..t } =~= l);
}

/// Confirming an open request closes it and counts its bytes.
proof fn lemma_confirm_one(l: Ledger, end: int, i: int)
    requires
        tiles(l.queued, end),
        l.is_open(i),
    ensures
        ({
            let o = l.queued[i].src_offset as int;
            let t = Ledger { confirmed: l.confirmed.insert(o), ..l };
            &&& t.open_count() == l.open_count() - 1
            &&& t.confirmed_bytes() == l.confirmed_bytes() + l.queued[i].size
        }),
    decreases l.queued.len(),
{
    lemma_tiles_in_order(l.queued, end);
    let o = l.queued[i].src_offset as int;
    let t = Ledger { confirmed: l.confirmed.insert(o), ..l };
    let lf = Ledger { queued: l.queued.drop_last(), ..l };
    let tf = Ledger { queued: t.queued.drop_last(), ..t };
    let last = l.queued.last();
    if i == l.queued.len() - 1 {
        lemma_confirm_none(lf, o);
        assert(tf == (Ledger { confirmed: lf.confirmed.insert(o), ..lf }));
    } else {
        assert(lf.queued[i] == l.queued[i]);
        lemma_confirm_one(lf, last.src_offset as int, i);
        assert(tf == (Ledger { confirmed: lf.confirmed.insert(o), ..lf }));
        assert(last == l.queued[l.queued.len() - 1]);
        assert(last.src_offset != o);
    }
}

/// An offset at which no request was queued changes nothing.
proof fn lemma_confirm_none(l: Ledger, o: int)
    requires
        forall|i: int| 0 <= i < l.queued.len() ==> (#[trigger] l.queued[i]).src_offset != o,
    ensures
        ({
            let t = Ledger { confirmed: l.confirmed.insert(o), ..l };
            &&& t.open_count() == l.open_count()
            &&& t.confirmed_bytes() == l.confirmed_bytes()
        }),
    decreases l.queued.len(),
{
    if l.queued.len() > 0 {
        let t = Ledger { confirmed: l.confirmed.insert(o), ..l };
        let lf = Ledger { queued: l.queued.drop_last(), ..l };
        let tf = Ledger { queued: t.queued.drop_last(), ..t };
        assert(l.queued.last() == l.queued[l.queued.len() - 1]);
        lemma_confirm_none(lf, o);
        assert(tf == (Ledger { confirmed: lf.confirmed.insert(o), ..lf }));
    }
}

/// An accepted front of an honest batch closes as many requests as it has
/// completions and counts the bytes that they were queued for.
pub(crate) proof fn lemma_confirm(l: Ledger, end: int, batch: Seq<Completion>, n: int)
    requires
        tiles(l.queued, end),
        l.honest(batch),
        0 <= n <= batch.len(),
    ensures
        ({
            let t = l.confirm(batch, n);
            &&& t.queued == l.queued
            &&& t.open_count() == l.open_count() - n
            &&& t.confirmed_bytes() == l.confirmed_bytes() + expected_bytes(batch.take(n))
            &&& forall|i: int| #[trigger]
                t.is_open(i) <==> l.is_open(i) && forall|k: int|
                    0 <= k < n ==> (#[trigger] batch[k]).offset != l.queued[i].src_offset
            &&& forall|o: int| #[trigger]
                t.confirmed.contains(o) <==> l.confirmed.contains(o) || exists|k: int|
                    0 <= k < n && (#[trigger] batch[k]).offset == o
        }),
    decreases n,
{
    if n > 0 {
        lemma_confirm(l, end, batch, n - 1);
        let before = l.confirm(batch, n - 1);
        let c = batch[n - 1];
        let i = choose|i: int| l.reports(c, i);
        assert(l.reports(batch[n - 1], i));
        assert(before.is_open(i));
        lemma_confirm_one(before, end, i);
        assert(batch.take(n).drop_last() =~= batch.take(n - 1));
        let t = l.confirm(batch, n);
        assert forall|o: int| #[trigger]
            t.confirmed.contains(o) <==> l.confirmed.contains(o) || exists|k: int|
                0 <= k < n && (#[trigger] batch[k]).offset == o by {
            if t.confirmed.contains(o) && !l.confirmed.contains(o) {
                if before.confirmed.contains(o) {
                    let k = choose|k: int| 0 <= k < n - 1 && (#[trigger] batch[k]).offset == o;
                    assert(0 <= k < n && batch[k].offset == o);
                } else {
                    assert(batch[n - 1].offset == o);
                }
            }
            if exists|k: int| 0 <= k < n && (#[trigger] batch[k]).offset == o {
                let k = choose|k: int| 0 <= k < n && (#[trigger] batch[k]).offset == o;
                if k < n - 1 {
                    assert(before.confirmed.contains(o));
                }
            }
        }
        assert forall|i: int| #[trigger]
            t.is_open(i) <==> l.is_open(i) && forall|k: int|
                0 <= k < n ==> (#[trigger] batch[k]).offset != l.queued[i].src_offset by {
            if 0 <= i < l.queued.len() {
                let o = l.queued[i].src_offset as int;
                assert(t.confirmed.contains(o) <==> l.confirmed.contains(o) || exists|k: int|
                    0 <= k < n && (#[trigger] batch[k]).offset == o);
            }
        }
    } else {
        assert(batch.take(0) =~= Seq::<Completion>::empty());
    }
}

impl Copying {
    /// What a copy that asks for `action` owes: it never stalls and its bytes
    /// always add up; a chunk that it reads goes to a part of the buffer that
    /// holds no byte of an open request; and it finishes only when the whole
    /// file has been queued and every request confirmed.
    pub open spec fn honours(self, action: Action) -> bool {
        let s = self.state;
        let l = self.ledger;
        &&& !(action is Stalled)
        &&& action matches Action::Failed { error } ==> !(error is SizeMismatch)
        &&& action matches Action::Prepare { chunk, .. } ==> {
            &&& chunk.in_buffer(s.iov_size)
            &&& 0 < chunk.size
            &&& chunk.src_offset == s.src_offset
            &&& chunk.src_offset + chunk.size <= s.file_size
            &&& forall|i: int| #[trigger] l.is_open(i) ==> chunk.apart_from(l.queued[i])
        }
        &&& action is Finished ==> {
            &&& tiles(l.queued, s.file_size)
            &&& s.completed == s.file_size
            &&& forall|i: int| !#[trigger] l.is_open(i)
        }
    }
}

proof fn lemma_fill_honours(c: Copying)
    requires
        c.consistent(),
        c.state.phase is Start,
        c.state.completed < c.state.file_size || c.state.inflight.len() > 0,
    ensures
        ({
            let (t, action) = c.state.fill();
            let n = Copying { state: t, ..c };
            n.consistent() && n.honours(action)
        }),
{
    let s = c.state;
    let l = c.ledger;
    lemma_ledger_bounds(l, s.src_offset);
    lemma_fill_wf(s);
    let (t, action) = s.fill();
    let n = Copying { state: t, ..c };
    if s.inflight.len() == 0 {
        assert(l.open_count() == 0);
        assert(s.src_offset == s.completed);
    }
    assert(n.consistent());
    if let Action::Prepare { chunk, .. } = action {
        assert forall|i: int| #[trigger] l.is_open(i) implies chunk.apart_from(l.queued[i]) by {}
    }
}

proof fn lemma_fill_wf(s: WorkerView)
    requires
        s.wf(),
        s.phase is Start,
    ensures
        s.fill().0.wf(),
{
}

proof fn lemma_head_honours(c: Copying)
    requires
        c.consistent(),
        c.state.phase is Start,
    ensures
        ({
            let (t, action) = c.state.head();
            let n = Copying { state: t, ..c };
            n.consistent() && n.honours(action)
        }),
{
    let s = c.state;
    lemma_ledger_bounds(c.ledger, s.src_offset);
    lemma_advance_keeps_wf(s);
    if s.completed < s.file_size {
        lemma_fill_honours(c);
    }
}

proof fn lemma_fill_final_honours(c: Copying)
    requires
        c.consistent(),
        c.state.phase is OpeningFinal,
    ensures
        ({
            let (t, action) = c.state.fill_final();
            let n = Copying { state: t, ..c };
            n.consistent() && n.honours(action)
        }),
{
    let s = c.state;
    let l = c.ledger;
    lemma_advance_keeps_wf(s);
    let (t, action) = s.fill_final();
    if let Action::Prepare { chunk, .. } = action {
        assert forall|i: int| #[trigger] l.is_open(i) implies chunk.apart_from(l.queued[i]) by {
            let k = choose|k: int|
                0 <= k < s.final_chunks.len() && s.final_chunks[k] == l.queued[i];
            assert(t.out_of_the_way(t.final_chunks[k]));
        }
    }
}

proof fn lemma_poll_final_honours(c: Copying)
    requires
        c.consistent(),
        c.state.phase is SubmittingFinal || c.state.phase is PollingFinal,
        c.state.poll_final().0.wf(),
    ensures
        ({
            let (t, action) = c.state.poll_final();
            let n = Copying { state: t, ..c };
            n.consistent() && n.honours(action)
        }),
{
}

/// Each step of a copy keeps the machine and the ledger in agreement, and the
/// copy honours what it owes.
pub proof fn lemma_step(c: Copying, event: WorkerEvent)
    requires
        c.consistent(),
        c.allows(event),
    ensures
        c.next(event).consistent(),
        c.next(event).honours(c.action(event)),
{
    let s = c.state;
    let l = c.ledger;
    lemma_ledger_bounds(l, s.src_offset);
    lemma_tiles_in_order(l.queued, s.src_offset);
    match event {
        WorkerEvent::Done => {
            lemma_advance_keeps_wf(s);
            match s.phase {
                WorkerPhase::Start => lemma_head_honours(c),
                WorkerPhase::Preparing { chunk } => {
                    lemma_queue(l, s.src_offset, chunk);
                    let t = WorkerView {
                        inflight: s.inflight.push(chunk),
                        phase: WorkerPhase::Start,
                        ..s.handed_out(chunk)
                    };
                    let m = Copying { state: t, ledger: l.queue(chunk) };
                    lemma_queued_consistent(c, chunk, m);
                    lemma_fill_honours(m);
                    let u = WorkerView { phase: s.phase, ..t };
                    assert(u.fill() == t.fill());
                },
                WorkerPhase::OpeningFinal => lemma_fill_final_honours(c),
                WorkerPhase::PreparingFinal { chunk } => {
                    lemma_queue(l, s.src_offset, chunk);
                    let t = WorkerView {
                        final_chunks: s.final_chunks.push(chunk),
                        phase: WorkerPhase::OpeningFinal,
                        ..s.handed_out(chunk)
                    };
                    let m = Copying { state: t, ledger: l.queue(chunk) };
                    lemma_queued_consistent(c, chunk, m);
                    lemma_fill_final_honours(m);
                    let u = WorkerView { phase: s.phase, ..t };
                    assert(u.fill_final() == t.fill_final());
                },
                WorkerPhase::SubmittingFinal => lemma_poll_final_honours(c),
                _ => {},
            }
        },
        WorkerEvent::Polled { batch } => lemma_polled_step(c, batch),
    }
}

proof fn lemma_queued_consistent(c: Copying, chunk: Chunk, m: Copying)
    requires
        c.consistent(),
        c.state.phase == (WorkerPhase::Preparing { chunk }) || c.state.phase == (
        WorkerPhase::PreparingFinal { chunk }),
        m.ledger == c.ledger.queue(chunk),
        c.state.phase is Preparing ==> m.state == (WorkerView {
            inflight: c.state.inflight.push(chunk),
            phase: WorkerPhase::Start,
            ..c.state.handed_out(chunk)
        }),
        c.state.phase is PreparingFinal ==> m.state == (WorkerView {
            final_chunks: c.state.final_chunks.push(chunk),
            phase: WorkerPhase::OpeningFinal,
            ..c.state.handed_out(chunk)
        }),
        m.state.wf(),
        tiles(m.ledger.queued, m.state.src_offset),
        m.ledger.open_count() == c.ledger.open_count() + 1,
        m.ledger.confirmed_bytes() == c.ledger.confirmed_bytes(),
    ensures
        m.consistent(),
{
    let l = c.ledger;
    let k = m.ledger;
    assert forall|o: int| #[trigger] k.confirmed.contains(o) implies exists|i: int|
        0 <= i < k.queued.len() && (#[trigger] k.queued[i]).src_offset == o by {
        let i = choose|i: int| 0 <= i < l.queued.len() && (#[trigger] l.queued[i]).src_offset == o;
        assert(k.queued[i] == l.queued[i]);
    }
    if c.state.phase is Preparing {
        assert forall|i: int| #[trigger] k.is_open(i) implies k.queued[i].buf_offset
            + k.queued[i].size <= m.state.next_buf by {
            if i < l.queued.len() {
                assert(l.is_open(i));
            }
        }
    } else {
        assert forall|i: int| #[trigger] k.is_open(i) implies m.state.final_chunks.contains(
            k.queued[i],
        ) by {
            if i < l.queued.len() {
                assert(l.is_open(i));
                let j = choose|j: int|
                    0 <= j < c.state.final_chunks.len() && c.state.final_chunks[j] == l.queued[i];
                assert(m.state.final_chunks[j] == k.queued[i]);
            } else {
                assert(m.state.final_chunks.last() == chunk);
                assert(m.state.final_chunks[m.state.final_chunks.len() - 1] == k.queued[i]);
            }
        }
    }
}

proof fn lemma_polled_step(c: Copying, batch: Seq<Completion>)
    requires
        c.consistent(),
        c.allows(WorkerEvent::Polled { batch }),
    ensures
        c.next(WorkerEvent::Polled { batch }).consistent(),
        c.next(WorkerEvent::Polled { batch }).honours(c.action(WorkerEvent::Polled { batch })),
        c.state.may_bring(batch),
{
    let s = c.state;
    let l = c.ledger;
    let n = accepted_len(batch) as int;
    lemma_accepted_len(batch);
    lemma_confirm(l, s.src_offset, batch, n);
    let k = l.confirm(batch, n);
    lemma_ledger_bounds(k, s.src_offset);
    lemma_polled_keeps_wf(s, batch);
    assert forall|o: int| #[trigger] k.confirmed.contains(o) implies exists|i: int|
        0 <= i < k.queued.len() && (#[trigger] k.queued[i]).src_offset == o by {
        if !l.confirmed.contains(o) {
            let j = choose|j: int| 0 <= j < n && (#[trigger] batch[j]).offset == o;
            let i = choose|i: int| l.reports(batch[j], i);
            assert(l.reports(batch[j], i));
            assert(k.queued[i].src_offset == o);
        }
    }
    assert(forall|i: int| #[trigger] k.is_open(i) ==> l.is_open(i));
    if s.phase is Polling {
        let t = WorkerView {
            inflight: s.inflight.skip(n),
            completed: s.completed + accepted_bytes(batch),
            phase: WorkerPhase::Start,
            ..s
        };
        let m = Copying { state: t, ledger: k };
        assert(t.wf());
        assert(m.consistent());
        lemma_head_honours(m);
        let u = WorkerView { phase: s.phase, ..t };
        assert(u.head() == t.head());
    } else {
        if batch.len() == 0 {
            assert(k =~= l);
        }
        let t = WorkerView {
            final_done: s.final_done + n,
            completed: s.completed + accepted_bytes(batch),
            empty_polls: if batch.len() == 0 {
                s.empty_polls + 1
            } else {
                s.empty_polls
            },
            ..s
        };
        assert(batch.take(0) =~= Seq::<Completion>::empty());
        let (v, action) = t.poll_final();
        assert(n == batch.len() ==> s.polled(batch) == (v, action));
    }
}

/// Whatever happens to a copy of a file, as long as the ring plays by the
/// rules, the machine and the ledger agree.
pub proof fn lemma_run(start: Copying, events: Seq<WorkerEvent>)
    requires
        start.consistent(),
        start.allows_all(events),
    ensures
        start.after(events).consistent(),
    decreases events.len(),
{
    if events.len() > 0 {
        lemma_run(start, events.drop_last());
        lemma_step(start.after(events.drop_last()), events.last());
    }
}

/// A copy that has not begun agrees with its empty ledger.
pub proof fn lemma_start(block_size: int, iov_size: int, depth: int, file_size: int)
    requires
        WorkerView::initial(block_size, iov_size, depth, file_size).params_ok(),
    ensures
        Copying::start(block_size, iov_size, depth, file_size).consistent(),
{
}

/// A worker that finishes has copied the file: the requests that it queued
/// cover every byte of the file exactly once, and the ring has confirmed each
/// of them.
pub proof fn law_finished_copy_is_complete(
    block_size: int,
    iov_size: int,
    depth: int,
    file_size: int,
    events: Seq<WorkerEvent>,
)
    requires
        WorkerView::initial(block_size, iov_size, depth, file_size).params_ok(),
        events.len() > 0,
        Copying::start(block_size, iov_size, depth, file_size).allows_all(events),
        Copying::start(block_size, iov_size, depth, file_size).after(events.drop_last()).action(
            events.last(),
        ) is Finished,
    ensures
        ({
            let end = Copying::start(block_size, iov_size, depth, file_size).after(events);
            &&& tiles(end.ledger.queued, file_size)
            &&& end.ledger.confirmed_bytes() == file_size
            &&& forall|i: int| !#[trigger] end.ledger.is_open(i)
        }),
{
    let start = Copying::start(block_size, iov_size, depth, file_size);
    lemma_start(block_size, iov_size, depth, file_size);
    lemma_run(start, events.drop_last());
    lemma_step(start.after(events.drop_last()), events.last());
    lemma_run(start, events);
    lemma_params_stay(start, events);
}

/// A worker never reads a chunk over bytes that a request still needs: a chunk
/// that it asks to read lies inside the buffer and shares no byte of it with
/// any request that the ring has not confirmed, in whatever order the ring
/// works.
pub proof fn law_open_requests_are_not_overwritten(
    block_size: int,
    iov_size: int,
    depth: int,
    file_size: int,
    events: Seq<WorkerEvent>,
    ring: Ring,
    chunk: Chunk,
)
    requires
        WorkerView::initial(block_size, iov_size, depth, file_size).params_ok(),
        events.len() > 0,
        Copying::start(block_size, iov_size, depth, file_size).allows_all(events),
        Copying::start(block_size, iov_size, depth, file_size).after(events.drop_last()).action(
            events.last(),
        ) == (Action::Prepare { ring, chunk }),
    ensures
        ({
            let l = Copying::start(block_size, iov_size, depth, file_size).after(events).ledger;
            &&& chunk.in_buffer(iov_size)
            &&& forall|i: int| #[trigger] l.is_open(i) ==> chunk.apart_from(l.queued[i])
        }),
{
    let start = Copying::start(block_size, iov_size, depth, file_size);
    lemma_start(block_size, iov_size, depth, file_size);
    lemma_run(start, events.drop_last());
    lemma_step(start.after(events.drop_last()), events.last());
    lemma_params_stay(start, events);
}

/// A worker always has something to do next: it never stalls, and it never
/// ends with bytes that do not add up.
pub proof fn law_copy_does_not_stall(
    block_size: int,
    iov_size: int,
    depth: int,
    file_size: int,
    events: Seq<WorkerEvent>,
)
    requires
        WorkerView::initial(block_size, iov_size, depth, file_size).params_ok(),
        events.len() > 0,
        Copying::start(block_size, iov_size, depth, file_size).allows_all(events),
    ensures
        ({
            let action = Copying::start(block_size, iov_size, depth, file_size).after(
                events.drop_last(),
            ).action(events.last());
            &&& !(action is Stalled)
            &&& action matches Action::Failed { error } ==> !(error is SizeMismatch)
        }),
{
    let start = Copying::start(block_size, iov_size, depth, file_size);
    lemma_start(block_size, iov_size, depth, file_size);
    lemma_run(start, events.drop_last());
    lemma_step(start.after(events.drop_last()), events.last());
}

/// At every moment the bytes that a worker reports as copied are exactly those
/// of the confirmed requests.
pub proof fn law_progress_is_what_was_confirmed(
    block_size: int,
    iov_size: int,
    depth: int,
    file_size: int,
    events: Seq<WorkerEvent>,
)
    requires
        WorkerView::initial(block_size, iov_size, depth, file_size).params_ok(),
        Copying::start(block_size, iov_size, depth, file_size).allows_all(events),
    ensures
        ({
            let now = Copying::start(block_size, iov_size, depth, file_size).after(events);
            now.state.completed == now.ledger.confirmed_bytes() <= file_size
        }),
{
    let start = Copying::start(block_size, iov_size, depth, file_size);
    lemma_start(block_size, iov_size, depth, file_size);
    lemma_run(start, events);
    let now = start.after(events);
    lemma_ledger_bounds(now.ledger, now.state.src_offset);
    lemma_params_stay(start, events);
}

proof fn lemma_params_stay(start: Copying, events: Seq<WorkerEvent>)
    ensures
        start.after(events).state.file_size == start.state.file_size,
        start.after(events).state.iov_size == start.state.iov_size,
    decreases events.len(),
{
    if events.len() > 0 {
        lemma_params_stay(start, events.drop_last());
        let s = start.after(events.drop_last()).state;
        match events.last() {
            WorkerEvent::Done => lemma_advance_keeps_params(s),
            WorkerEvent::Polled { batch } => lemma_polled_keeps_params(s, batch),
        }
    }
}

/// The two copies work with the same sizes.
pub open spec fn same_params(s: WorkerView, t: WorkerView) -> bool {
    &&& s.file_size == t.file_size
    &&& s.iov_size == t.iov_size
    &&& s.block_size == t.block_size
    &&& s.depth == t.depth
}

pub(crate) proof fn lemma_advance_keeps_params(s: WorkerView)
    ensures
        same_params(s, s.advance().0),
{
    match s.phase {
        WorkerPhase::Start => {
            assert(same_params(s, s.fill().0));
        },
        WorkerPhase::Preparing { chunk } => {
            let t = WorkerView { inflight: s.inflight.push(chunk), ..s.handed_out(chunk) };
            assert(same_params(s, t));
            assert(same_params(t, t.fill().0));
            assert(same_params(t, t.flush().0));
        },
        _ => {},
    }
}

pub(crate) proof fn lemma_polled_keeps_params(s: WorkerView, batch: Seq<Completion>)
    ensures
        same_params(s, s.polled(batch).0),
{
    let n = accepted_len(batch) as int;
    if !(s.phase is PollingFinal) {
        let t = WorkerView {
            inflight: s.inflight.skip(n),
            completed: s.completed + accepted_bytes(batch),
            ..s
        };
        assert(same_params(t, t.fill().0));
        assert(same_params(t, t.head().0));
    }
}

} // verus!
