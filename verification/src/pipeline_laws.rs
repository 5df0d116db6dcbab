//! What the round-robin copy loop guarantees as a whole.
//!
//! The laws are about a main ring that reports the oldest requests first: a poll
//! that brings some completions brings those of the requests that have waited
//! longest, in any order among them. The final ring may report any of its
//! requests, in any order.

use crate::pipeline::{
    lemma_advance_keeps_wf, lemma_polled_keeps_wf, lemma_window_apart, result_bytes, succeeded_len,
    RunPhase, RunView,
};
use crate::ring::{
    accepted_bytes, accepted_len, all_apart, chunk_bytes, expected_bytes, lemma_accepted_len, tiles,
    Action, Chunk, Completion, Ring,
};
use vstd::multiset::Multiset;
use vstd::prelude::*;
use vstd::set_lib::{lemma_int_range, lemma_len_subset, set_int_range};

verus! {

/// What happens to a copy: what it asked for has been done, or its poll has
/// brought a batch of completions. `which` tells the requests that they belong
/// to, by their places among those that are waited for.
pub enum RunEvent {
    Done,
    Polled { batch: Seq<Completion>, which: Seq<int>, now: int },
}

/// The places are different, and all of them are below `end`.
pub open spec fn places_below(which: Seq<int>, end: int) -> bool {
    &&& which.no_duplicates()
    &&& forall|k: int| 0 <= k < which.len() ==> 0 <= #[trigger] which[k] < end
}

/// The completions are those of the chunks at the places `which`.
pub open spec fn reports(batch: Seq<Completion>, chunks: Seq<Chunk>, which: Seq<int>) -> bool {
    &&& which.len() == batch.len()
    &&& forall|k: int|
        0 <= k < batch.len() ==> (#[trigger] batch[k]).offset == chunks[which[k]].src_offset
            && batch[k].expected == chunks[which[k]].size
}

/// The chunks at the places.
pub open spec fn picked(chunks: Seq<Chunk>, which: Seq<int>) -> Seq<Chunk> {
    which.map_values(|place: int| chunks[place])
}

/// A copy together with the chunks that it has read, in order, and those that the
/// rings have confirmed, each as often as it was confirmed.
#[verifier::ext_equal]
pub struct Running {
    pub state: RunView,
    pub read: Seq<Chunk>,
    pub confirmed: Multiset<Chunk>,
}

impl Running {
    pub open spec fn start(
        block_size: int,
        iov_size: int,
        depth: int,
        file_size: int,
        now: int,
    ) -> Running {
        Running {
            state: RunView::initial(block_size, iov_size, depth, file_size, now),
            read: Seq::empty(),
            confirmed: Multiset::empty(),
        }
    }

    /// The chunks that the poll under way waits for.
    pub open spec fn awaited(self) -> Seq<Chunk> {
        if self.state.phase is PollingFinal {
            self.state.final_chunks
        } else {
            self.state.inflight
        }
    }

    /// The chunks that were read and whose writes are not confirmed.
    pub open spec fn open(self) -> Seq<Chunk> {
        if self.state.in_final() {
            self.state.final_chunks
        } else {
            self.state.inflight
        }
    }

    /// The event can happen to the copy.
    pub open spec fn allows(self, event: RunEvent) -> bool {
        match event {
            RunEvent::Done => self.state.can_advance(),
            RunEvent::Polled { batch, which, now } => {
                &&& self.state.is_polling()
                &&& batch.len() <= self.state.poll_max()
                &&& 0 <= now <= u64::MAX
                &&& reports(batch, self.awaited(), which)
                &&& places_below(
                    which,
                    if self.state.phase is PollingFinal {
                        self.awaited().len() as int
                    } else {
                        batch.len() as int
                    },
                )
            },
        }
    }

    /// What the copy asks for after the event.
    pub open spec fn action(self, event: RunEvent) -> Action {
        match event {
            RunEvent::Done => self.state.advance().1,
            RunEvent::Polled { batch, now, .. } => self.state.polled(batch, now).1,
        }
    }

    /// The copy after the event.
    pub open spec fn next(self, event: RunEvent) -> Running {
        match event {
            RunEvent::Done => Running {
                state: self.state.advance().0,
                read: match self.state.phase {
                    RunPhase::Preparing { chunk } => self.read.push(chunk),
                    RunPhase::PreparingPartial { chunk } => self.read.push(chunk),
                    _ => self.read,
                },
                confirmed: self.confirmed,
            },
            RunEvent::Polled { batch, which, now } => Running {
                state: self.state.polled(batch, now).0,
                read: self.read,
                confirmed: self.confirmed.add(
                    picked(
                        self.awaited(),
                        which.take(accepted_len(batch) as int),
                    ).to_multiset(),
                ),
            },
        }
    }

    /// The copy after all the events.
    pub open spec fn after(self, events: Seq<RunEvent>) -> Running
        decreases events.len(),
    {
        if events.len() == 0 {
            self
        } else {
            self.after(events.drop_last()).next(events.last())
        }
    }

    /// Every one of the events can happen in its turn.
    pub open spec fn allows_all(self, events: Seq<RunEvent>) -> bool
        decreases events.len(),
    {
        events.len() > 0 ==> {
            &&& self.allows_all(events.drop_last())
            &&& self.after(events.drop_last()).allows(events.last())
        }
    }

    /// Every chunk that was read is either confirmed, once, or open.
    pub open spec fn balanced(self) -> bool {
        self.read.to_multiset() == self.confirmed.add(self.open().to_multiset())
    }

    /// What is confirmed and what is open make up what was read.
    pub open spec fn consistent(self) -> bool {
        let s = self.state;
        &&& s.wf()
        &&& tiles(self.read, s.src_offset)
        &&& !(s.phase is Draining)
        &&& !s.in_final() && !(s.phase is Closed) ==> {
            &&& s.completed + chunk_bytes(s.inflight) == s.src_offset
            &&& self.balanced()
        }
        &&& s.in_final() ==> {
            &&& s.completed + chunk_bytes(s.final_chunks) == s.src_offset
            &&& self.balanced()
            &&& forall|i: int|
                0 <= i < s.final_chunks.len() ==> 0 < (#[trigger] s.final_chunks[i]).size
        }
    }
}

/// The buffer has room for every chunk where its turn comes: it is made of
/// whole blocks, or it can hold the whole file.
pub open spec fn buffer_suits(block_size: int, iov_size: int, file_size: int) -> bool {
    iov_size % block_size == 0 || file_size <= iov_size
}

/// In a buffer that suits the file, the next chunk always fits at its place.
pub proof fn law_next_chunk_fits(s: RunView)
    requires
        s.wf(),
        !s.in_final(),
        !(s.phase is Closed),
        s.src_offset < s.file_size,
        buffer_suits(s.block_size, s.iov_size, s.file_size),
    ensures
        s.slot(s.handed) + s.next_size() <= s.iov_size,
{
    let v = s.iov_size;
    let m = s.block_size;
    let p = s.slot(s.handed);
    vstd::arithmetic::div_mod::lemma_mod_bound(s.src_offset, v);
    if s.file_size <= v {
        vstd::arithmetic::div_mod::lemma_small_mod(s.src_offset as nat, v as nat);
    } else {
        let c = v / m;
        vstd::arithmetic::div_mod::lemma_fundamental_div_mod(v, m);
        vstd::arithmetic::div_mod::lemma_fundamental_div_mod(s.src_offset, v);
        let q = s.src_offset / v;
        let k = s.handed - q * c;
        assert(p == k * m) by (nonlinear_arith)
            requires
                s.src_offset == v * q + p,
                v == m * c,
                s.handed * m == s.src_offset,
                k == s.handed - q * c,
        ;
        assert(p + m <= v) by (nonlinear_arith)
            requires
                p == k * m,
                v == m * c,
                p < v,
                0 < m,
        ;
    }
}

/// The requests that a copy keeps track of share no byte of the buffer, and a
/// chunk that it asks to read next on a ring shares none with those of that
/// ring.
pub proof fn law_requests_share_no_buffer(s: RunView)
    requires
        s.wf(),
    ensures
        all_apart(s.inflight),
        all_apart(s.final_chunks),
        s.phase matches RunPhase::Preparing { chunk } ==> chunk.in_buffer(s.iov_size) && all_apart(
            s.inflight.push(chunk),
        ),
        s.phase matches RunPhase::PreparingPartial { chunk } ==> chunk.in_buffer(s.iov_size)
            && all_apart(s.final_chunks.push(chunk)),
{
    lemma_window_apart(s, s.inflight, s.handed - s.inflight.len());
    match s.phase {
        RunPhase::Preparing { chunk } => {
            vstd::arithmetic::div_mod::lemma_mod_bound(s.handed * s.block_size, s.iov_size);
            assert(s.window(s.inflight.push(chunk), s.handed - s.inflight.len()));
            lemma_window_apart(s, s.inflight.push(chunk), s.handed - s.inflight.len());
        },
        RunPhase::PreparingPartial { chunk } => {
            let k = s.final_chunks.len() as int;
            vstd::arithmetic::div_mod::lemma_mod_bound(k * s.block_size, s.iov_size);
            crate::worker_pipeline::lemma_blocks_for(s.file_size - s.src_offset, s.block_size);
            assert(s.window(s.final_chunks.push(chunk), 0));
            lemma_window_apart(s, s.final_chunks.push(chunk), 0);
        },
        _ => {},
    }
}

pub(crate) proof fn lemma_chunk_bytes_bounds(chunks: Seq<Chunk>)
    requires
        forall|i: int| 0 <= i < chunks.len() ==> 0 < (#[trigger] chunks[i]).size,
    ensures
        0 <= chunk_bytes(chunks),
        chunk_bytes(chunks) == 0 <==> chunks.len() == 0,
    decreases chunks.len(),
{
    if chunks.len() > 0 {
        lemma_chunk_bytes_bounds(chunks.drop_last());
    }
}

pub(crate) proof fn lemma_chunk_bytes_push(chunks: Seq<Chunk>, chunk: Chunk)
    ensures
        chunk_bytes(chunks.push(chunk)) == chunk_bytes(chunks) + chunk.size,
{
    assert(chunks.push(chunk).drop_last() =~= chunks);
}

pub(crate) proof fn lemma_chunk_bytes_split(chunks: Seq<Chunk>, n: int)
    requires
        0 <= n <= chunks.len(),
    ensures
        chunk_bytes(chunks.take(n)) + chunk_bytes(chunks.skip(n)) == chunk_bytes(chunks),
    decreases chunks.len(),
{
    if n == chunks.len() {
        assert(chunks.take(n) =~= chunks);
        assert(chunks.skip(n) =~= Seq::<Chunk>::empty());
    } else {
        let front = chunks.drop_last();
        lemma_chunk_bytes_split(front, n);
        assert(front.take(n) =~= chunks.take(n));
        assert(chunks.skip(n).drop_last() =~= front.skip(n));
        assert(chunks.skip(n).last() == chunks.last());
    }
}

proof fn lemma_multiset_split(chunks: Seq<Chunk>, n: int)
    requires
        0 <= n <= chunks.len(),
    ensures
        chunks.to_multiset() == chunks.take(n).to_multiset().add(chunks.skip(n).to_multiset()),
    decreases chunks.len(),
{
    broadcast use vstd::seq_lib::group_to_multiset_ensures;

    let empty = Seq::<Chunk>::empty();
    assert(empty.to_multiset() =~= Multiset::<Chunk>::empty());
    if n == chunks.len() {
        assert(chunks.take(n) =~= chunks);
        assert(chunks.skip(n) =~= empty);
    } else {
        let front = chunks.drop_last();
        lemma_multiset_split(front, n);
        assert(front.take(n) =~= chunks.take(n));
        assert(chunks.skip(n) =~= front.skip(n).push(chunks.last()));
        assert(chunks =~= front.push(chunks.last()));
    }
    assert(chunks.to_multiset() =~= chunks.take(n).to_multiset().add(
        chunks.skip(n).to_multiset(),
    ));
}

proof fn lemma_chunk_bytes_remove(chunks: Seq<Chunk>, p: int)
    requires
        0 <= p < chunks.len(),
    ensures
        chunk_bytes(chunks) == chunk_bytes(chunks.remove(p)) + chunks[p].size,
    decreases chunks.len(),
{
    if p == chunks.len() - 1 {
        assert(chunks.remove(p) =~= chunks.drop_last());
    } else {
        let front = chunks.drop_last();
        lemma_chunk_bytes_remove(front, p);
        assert(chunks.remove(p).drop_last() =~= front.remove(p));
        assert(chunks.remove(p).last() == chunks.last());
    }
}

/// There are no more different places below `end` than `end`.
proof fn lemma_places_len(which: Seq<int>, end: int)
    requires
        0 <= end,
        places_below(which, end),
    ensures
        which.len() <= end,
{
    which.unique_seq_to_set();
    lemma_int_range(0, end);
    let all = set_int_range(0, end);
    assert forall|x: int| which.to_set().contains(x) implies all.contains(x) by {
        let k = choose|k: int| 0 <= k < which.len() && which[k] == x;
        assert(0 <= which[k] < end);
    }
    lemma_len_subset(which.to_set(), all);
}

/// The place before `end` occurs at `p`: the others are below it.
proof fn lemma_places_remove(which: Seq<int>, end: int, p: int)
    requires
        places_below(which, end),
        0 <= p < which.len(),
        which[p] == end - 1,
    ensures
        places_below(which.remove(p), end - 1),
{
    let rest = which.remove(p);
    assert forall|k: int| 0 <= k < rest.len() implies 0 <= #[trigger] rest[k] < end - 1 by {
        let j = if k < p {
            k
        } else {
            k + 1
        };
        assert(rest[k] == which[j]);
        assert(which[j] != which[p]);
    }
    assert forall|i: int, j: int| 0 <= i < rest.len() && 0 <= j < rest.len() && i != j implies rest[i]
        != rest[j] by {
        let a = if i < p {
            i
        } else {
            i + 1
        };
        let b = if j < p {
            j
        } else {
            j + 1
        };
        assert(rest[i] == which[a] && rest[j] == which[b]);
    }
}

/// What is picked at different places is no more than there is, and it is all
/// that there is only if it is as many.
proof fn lemma_picked(chunks: Seq<Chunk>, which: Seq<int>)
    requires
        places_below(which, chunks.len() as int),
        forall|i: int| 0 <= i < chunks.len() ==> 0 < (#[trigger] chunks[i]).size,
    ensures
        which.len() <= chunks.len(),
        0 <= chunk_bytes(picked(chunks, which)) <= chunk_bytes(chunks),
        chunk_bytes(picked(chunks, which)) == chunk_bytes(chunks) <==> which.len() == chunks.len(),
        which.len() == chunks.len() ==> picked(chunks, which).to_multiset()
            == chunks.to_multiset(),
    decreases chunks.len(),
{
    broadcast use vstd::seq_lib::group_to_multiset_ensures;

    let end = chunks.len() as int;
    lemma_places_len(which, end);
    let got = picked(chunks, which);
    if end == 0 {
        assert(which =~= Seq::<int>::empty());
        assert(got =~= chunks);
    } else {
        let front = chunks.drop_last();
        let last = chunks.last();
        assert(chunks =~= front.push(last));
        if exists|p: int| 0 <= p < which.len() && which[p] == end - 1 {
            let p = choose|p: int| 0 <= p < which.len() && which[p] == end - 1;
            let rest = which.remove(p);
            lemma_places_remove(which, end, p);
            lemma_picked(front, rest);
            assert(got.remove(p) =~= picked(front, rest)) by {
                assert forall|k: int| 0 <= k < rest.len() implies got.remove(p)[k] == picked(
                    front,
                    rest,
                )[k] by {
                    assert(0 <= rest[k] < end - 1);
                }
            }
            lemma_chunk_bytes_remove(got, p);
            assert(got[p] == last);
            if which.len() == end {
                let m = got.to_multiset();
                assert(got.remove(p).to_multiset() == m.remove(last));
                assert(got.contains(last));
                assert(m.count(last) > 0);
                assert(m =~= m.remove(last).insert(last));
                assert(chunks.to_multiset() =~= front.to_multiset().insert(last));
            }
        } else {
            assert(places_below(which, end - 1)) by {
                assert forall|k: int| 0 <= k < which.len() implies 0 <= #[trigger] which[k] < end
                    - 1 by {
                    assert(which[k] != end - 1);
                }
            }
            lemma_picked(front, which);
            assert(got =~= picked(front, which)) by {
                assert forall|k: int| 0 <= k < which.len() implies got[k] == picked(
                    front,
                    which,
                )[k] by {
                    assert(0 <= which[k] < end - 1);
                }
            }
            assert(0 < chunks[end - 1].size);
            lemma_places_len(which, end - 1);
        }
    }
}

/// The bytes that some completions at the front of the batch were requested for
/// are those of their chunks.
proof fn lemma_reported_bytes(
    batch: Seq<Completion>,
    chunks: Seq<Chunk>,
    which: Seq<int>,
    n: int,
)
    requires
        reports(batch, chunks, which),
        0 <= n <= batch.len(),
    ensures
        expected_bytes(batch.take(n)) == chunk_bytes(picked(chunks, which.take(n))),
    decreases n,
{
    if n == 0 {
        assert(batch.take(0) =~= Seq::<Completion>::empty());
        assert(picked(chunks, which.take(0)) =~= Seq::<Chunk>::empty());
    } else {
        lemma_reported_bytes(batch, chunks, which, n - 1);
        assert(batch.take(n).drop_last() =~= batch.take(n - 1));
        assert(batch.take(n).last() == batch[n - 1]);
        let got = picked(chunks, which.take(n));
        assert(got.drop_last() =~= picked(chunks, which.take(n - 1)));
        assert(got.last() == chunks[which[n - 1]]);
    }
}

/// The places of a front of the batch are still different and below `end`.
proof fn lemma_places_take(which: Seq<int>, end: int, n: int)
    requires
        places_below(which, end),
        0 <= n <= which.len(),
    ensures
        places_below(which.take(n), end),
{
    assert forall|k: int| 0 <= k < n implies 0 <= #[trigger] which.take(n)[k] < end by {
        assert(which.take(n)[k] == which[k]);
    }
}

proof fn lemma_fill_consistent(r: Running)
    requires
        r.consistent(),
        r.state.phase is Start,
    ensures
        (Running { state: r.state.fill().0, ..r }).consistent(),
        !(r.state.fill().1 is Finished),
        buffer_suits(r.state.block_size, r.state.iov_size, r.state.file_size)
            && (r.state.completed < r.state.file_size || r.state.inflight.len() > 0) ==> !(
        r.state.fill().1 is Stalled),
{
    let s = r.state;
    lemma_start_advances(s);
    lemma_chunk_bytes_bounds(s.inflight);
    if s.src_offset < s.file_size && buffer_suits(s.block_size, s.iov_size, s.file_size) {
        law_next_chunk_fits(s);
    }
}

proof fn lemma_start_advances(s: RunView)
    requires
        s.wf(),
        s.phase is Start,
    ensures
        s.fill().0.wf(),
        s.head().0.wf(),
{
    lemma_advance_keeps_wf(s);
}

proof fn lemma_head_consistent(r: Running)
    requires
        r.consistent(),
        r.state.phase is Start,
    ensures
        ({
            let (t, action) = r.state.head();
            let n = Running { state: t, ..r };
            &&& n.consistent()
            &&& action is Finished ==> t.completed == t.file_size == t.src_offset
                && r.read.to_multiset() == r.confirmed
            &&& buffer_suits(t.block_size, t.iov_size, t.file_size) ==> !(action is Stalled)
        }),
{
    let s = r.state;
    lemma_start_advances(s);
    lemma_chunk_bytes_bounds(s.inflight);
    lemma_fill_consistent(r);
    if s.inflight.len() == 0 {
        assert(s.inflight =~= Seq::<Chunk>::empty());
        assert(s.inflight.to_multiset() =~= Multiset::<Chunk>::empty()) by {
            broadcast use vstd::seq_lib::group_to_multiset_ensures;

        }
        assert(r.confirmed.add(s.inflight.to_multiset()) =~= r.confirmed);
        assert(s.inflight =~= s.final_chunks);
    }
}

/// Each step of a copy keeps the account of its bytes; it finishes only when
/// the whole file was read and confirmed, and stalls only in a buffer that
/// does not suit the file.
pub proof fn lemma_step(r: Running, event: RunEvent)
    requires
        r.consistent(),
        r.allows(event),
    ensures
        r.next(event).consistent(),
        r.action(event) is Finished ==> r.next(event).state.completed
            == r.next(event).state.file_size == r.next(event).state.src_offset && r.next(
            event,
        ).read.to_multiset() == r.next(event).confirmed,
        buffer_suits(r.state.block_size, r.state.iov_size, r.state.file_size) ==> !(r.action(
            event,
        ) is Stalled),
{
    broadcast use vstd::seq_lib::group_to_multiset_ensures;

    let s = r.state;
    match event {
        RunEvent::Done => {
            lemma_advance_keeps_wf(s);
            match s.phase {
                RunPhase::Start => lemma_head_consistent(r),
                RunPhase::Preparing { chunk } => {
                    let t = s.prepared(chunk);
                    lemma_chunk_bytes_push(s.inflight, chunk);
                    crate::pipeline::lemma_prepared_keeps_wf(s, chunk);
                    let m = Running { state: t, read: r.read.push(chunk), ..r };
                    assert(m.read.to_multiset() =~= r.confirmed.add(t.inflight.to_multiset()));
                    assert(m.read.drop_last() =~= r.read);
                    lemma_fill_consistent(m);
                },
                RunPhase::Retrying => {
                    let t = RunView { phase: RunPhase::Start, ..s };
                    lemma_head_consistent(Running { state: t, ..r });
                    assert(s.head() == t.head());
                },
                RunPhase::PreparingPartial { chunk } => {
                    lemma_chunk_bytes_push(s.final_chunks, chunk);
                    assert(r.read.push(chunk).drop_last() =~= r.read);
                    assert(r.read.push(chunk).to_multiset() =~= r.confirmed.add(
                        s.final_chunks.push(chunk).to_multiset(),
                    ));
                },
                _ => {},
            }
        },
        RunEvent::Polled { batch, which, now } => lemma_polled_step(r, batch, which, now),
    }
}

proof fn lemma_polled_step(r: Running, batch: Seq<Completion>, which: Seq<int>, now: int)
    requires
        r.consistent(),
        r.allows(RunEvent::Polled { batch, which, now }),
    ensures
        ({
            let n = r.next(RunEvent::Polled { batch, which, now });
            let action = r.action(RunEvent::Polled { batch, which, now });
            &&& n.consistent()
            &&& action is Finished ==> n.state.completed == n.state.file_size
                == n.state.src_offset && n.read.to_multiset() == n.confirmed
            &&& buffer_suits(r.state.block_size, r.state.iov_size, r.state.file_size) ==> !(
            action is Stalled)
        }),
{
    let s = r.state;
    let n = accepted_len(batch) as int;
    lemma_accepted_len(batch);
    crate::ring::lemma_expected_bytes_take(batch, 0, n);
    assert(batch.take(0) =~= Seq::<Completion>::empty());
    lemma_reported_bytes(batch, r.awaited(), which, n);
    if s.phase is PollingFinal {
        lemma_places_take(which, s.final_chunks.len() as int, n);
        lemma_picked(s.final_chunks, which.take(n));
        lemma_polled_keeps_wf(s, batch, now);
    } else {
        let k = batch.len() as int;
        let oldest = s.inflight.take(k);
        assert(s.inflight =~= oldest + s.inflight.skip(k));
        lemma_chunk_bytes_split(s.inflight, k);
        lemma_chunk_bytes_bounds(s.inflight.skip(k));
        assert forall|i: int| 0 <= i < oldest.len() implies 0 < (#[trigger] oldest[i]).size by {
            assert(oldest[i] == s.inflight[i]);
        }
        lemma_places_take(which, k, n);
        assert(picked(s.inflight, which.take(n)) =~= picked(oldest, which.take(n))) by {
            assert forall|i: int| 0 <= i < n implies picked(s.inflight, which.take(n))[i]
                == picked(oldest, which.take(n))[i] by {
                assert(0 <= which.take(n)[i] < k);
            }
        }
        lemma_picked(oldest, which.take(n));
        lemma_polled_keeps_wf(s, batch, now);
        if batch.len() == 0 {
            let none = picked(s.inflight, which.take(n));
            assert(none =~= Seq::<Chunk>::empty());
            assert(none.to_multiset() =~= Multiset::<Chunk>::empty()) by {
                broadcast use vstd::seq_lib::group_to_multiset_ensures;

            }
            assert(r.confirmed.add(none.to_multiset()) =~= r.confirmed);
            let t = RunView { timeouts: s.timeouts + 1, phase: RunPhase::Start, ..s };
            if t.timeouts < crate::pipeline::MAX_CONSECUTIVE_TIMEOUTS {
                lemma_head_consistent(Running { state: t, ..r });
                let u = RunView { phase: s.phase, ..t };
                assert(u.head() == t.head());
            }
        } else {
            let t = s.credited(batch, now);
            crate::pipeline::lemma_polled_main_keeps_wf(s, batch, now);
            if n == k {
                let m = r.confirmed.add(oldest.to_multiset());
                lemma_multiset_split(s.inflight, k);
                assert(r.confirmed.add(s.inflight.to_multiset()) =~= m.add(
                    t.inflight.to_multiset(),
                ));
                lemma_head_consistent(Running { state: t, confirmed: m, ..r });
            }
        }
    }
}

/// A copy that has not begun has nothing to account for.
proof fn lemma_start(r: Running)
    requires
        r.state.wf(),
        r == Running::start(
            r.state.block_size,
            r.state.iov_size,
            r.state.depth,
            r.state.file_size,
            r.state.last_progress,
        ),
    ensures
        r.consistent(),
{
    let empty = Seq::<Chunk>::empty();
    assert(empty.to_multiset() =~= Multiset::<Chunk>::empty()) by {
        broadcast use vstd::seq_lib::group_to_multiset_ensures;

    }
    assert(r.confirmed.add(empty.to_multiset()) =~= empty.to_multiset());
}

proof fn lemma_run(start: Running, events: Seq<RunEvent>)
    requires
        start.consistent(),
        start.allows_all(events),
    ensures
        start.after(events).consistent(),
    decreases events.len(),
{
    if events.len() > 0 {
        lemma_run(start, events.drop_last());
        lemma_step(start.after(events.drop_last()), events.last());
    }
}

/// A copy that finishes has copied the file: the chunks that it read cover every
/// byte of the file exactly once, and a ring has confirmed each of them exactly
/// once.
pub proof fn law_finished_run_is_complete(
    block_size: int,
    iov_size: int,
    depth: int,
    file_size: int,
    now: int,
    events: Seq<RunEvent>,
)
    requires
        RunView::initial(block_size, iov_size, depth, file_size, now).wf(),
        events.len() > 0,
        Running::start(block_size, iov_size, depth, file_size, now).allows_all(events),
        Running::start(block_size, iov_size, depth, file_size, now).after(
            events.drop_last(),
        ).action(events.last()) is Finished,
    ensures
        ({
            let end = Running::start(block_size, iov_size, depth, file_size, now).after(events);
            &&& tiles(end.read, file_size)
            &&& end.confirmed == end.read.to_multiset()
            &&& end.state.completed == file_size
        }),
{
    let start = Running::start(block_size, iov_size, depth, file_size, now);
    lemma_start(start);
    lemma_run(start, events.drop_last());
    lemma_step(start.after(events.drop_last()), events.last());
    lemma_params_stay(start, events);
}

/// A copy never reads a chunk over bytes that a request still needs: a chunk that
/// it asks to read lies inside the buffer and shares no byte of it with any chunk
/// that was read and is not confirmed.
pub proof fn law_open_chunks_are_not_overwritten(
    block_size: int,
    iov_size: int,
    depth: int,
    file_size: int,
    now: int,
    events: Seq<RunEvent>,
    ring: Ring,
    chunk: Chunk,
)
    requires
        RunView::initial(block_size, iov_size, depth, file_size, now).wf(),
        events.len() > 0,
        Running::start(block_size, iov_size, depth, file_size, now).allows_all(events),
        Running::start(block_size, iov_size, depth, file_size, now).after(
            events.drop_last(),
        ).action(events.last()) == (Action::Prepare { ring, chunk }),
    ensures
        ({
            let r = Running::start(block_size, iov_size, depth, file_size, now).after(events);
            &&& chunk.in_buffer(iov_size)
            &&& r.read.to_multiset() == r.confirmed.add(r.open().to_multiset())
            &&& forall|i: int|
                0 <= i < r.open().len() ==> chunk.apart_from(#[trigger] r.open()[i])
        }),
{
    let start = Running::start(block_size, iov_size, depth, file_size, now);
    lemma_start(start);
    let r = start.after(events);
    lemma_run(start, events);
    lemma_params_stay(start, events);
    let before = start.after(events.drop_last());
    match events.last() {
        RunEvent::Done => lemma_prepare_phase(before.state),
        RunEvent::Polled { batch, now, .. } => lemma_polled_prepare_phase(before.state, batch, now),
    }
    let s = r.state;
    law_requests_share_no_buffer(s);
    let grown = r.open().push(chunk);
    assert forall|i: int| 0 <= i < r.open().len() implies chunk.apart_from(
        #[trigger] r.open()[i],
    ) by {
        assert(grown[i] == r.open()[i]);
        assert(grown[grown.len() - 1] == chunk);
    }
}

/// A copy that asks to read a chunk remembers the chunk.
pub(crate) proof fn lemma_prepare_phase(s: RunView)
    ensures
        s.advance().1 matches Action::Prepare { chunk, .. } ==> remembers(s.advance().0, chunk),
{
    match s.phase {
        RunPhase::Preparing { chunk } => {
            let t = s.prepared(chunk);
            lemma_fill_phase(t);
        },
        _ => {
            lemma_fill_phase(s);
        },
    }
}

proof fn lemma_fill_phase(s: RunView)
    ensures
        s.fill().1 matches Action::Prepare { chunk, .. } ==> remembers(s.fill().0, chunk),
        s.head().1 matches Action::Prepare { chunk, .. } ==> remembers(s.head().0, chunk),
        !(s.drain().1 is Prepare),
{
}

pub(crate) proof fn lemma_polled_prepare_phase(s: RunView, batch: Seq<Completion>, now: int)
    ensures
        s.polled(batch, now).1 matches Action::Prepare { chunk, .. } ==> remembers(
            s.polled(batch, now).0,
            chunk,
        ),
{
    lemma_fill_phase(RunView { timeouts: s.timeouts + 1, ..s });
    lemma_fill_phase(s.credited(batch, now));
    lemma_fill_phase(RunView { completed: s.completed + accepted_bytes(batch), ..s });
    let m = succeeded_len(batch) as int;
    lemma_fill_phase(
        RunView {
            inflight: s.inflight.skip(m),
            completed: s.completed + result_bytes(batch.take(m)),
            ..s
        },
    );
}

/// The copy waits for the chunk to be read.
pub open spec fn remembers(s: RunView, chunk: Chunk) -> bool {
    ||| s.phase == (RunPhase::Preparing { chunk })
    ||| s.phase == (RunPhase::PreparingPartial { chunk })
}

/// A copy through a buffer that is made of whole blocks, or that can hold the
/// whole file, never stalls.
pub proof fn law_run_does_not_stall(
    block_size: int,
    iov_size: int,
    depth: int,
    file_size: int,
    now: int,
    events: Seq<RunEvent>,
)
    requires
        RunView::initial(block_size, iov_size, depth, file_size, now).wf(),
        buffer_suits(block_size, iov_size, file_size),
        events.len() > 0,
        Running::start(block_size, iov_size, depth, file_size, now).allows_all(events),
    ensures
        !(Running::start(block_size, iov_size, depth, file_size, now).after(
            events.drop_last(),
        ).action(events.last()) is Stalled),
{
    let start = Running::start(block_size, iov_size, depth, file_size, now);
    lemma_start(start);
    lemma_run(start, events.drop_last());
    lemma_params_stay(start, events.drop_last());
    lemma_step(start.after(events.drop_last()), events.last());
}

proof fn lemma_params_stay(start: Running, events: Seq<RunEvent>)
    ensures
        same_params(start.state, start.after(events).state),
    decreases events.len(),
{
    if events.len() > 0 {
        lemma_params_stay(start, events.drop_last());
        let s = start.after(events.drop_last()).state;
        match events.last() {
            RunEvent::Done => lemma_advance_keeps_params(s),
            RunEvent::Polled { batch, now, .. } => lemma_polled_keeps_params(s, batch, now),
        }
    }
}

pub open spec fn same_params(s: RunView, t: RunView) -> bool {
    &&& s.file_size == t.file_size
    &&& s.iov_size == t.iov_size
    &&& s.block_size == t.block_size
    &&& s.depth == t.depth
}

pub(crate) proof fn lemma_advance_keeps_params(s: RunView)
    ensures
        same_params(s, s.advance().0),
{
    match s.phase {
        RunPhase::Start => {
            assert(same_params(s, s.fill().0));
            assert(same_params(s, s.drain().0));
        },
        RunPhase::Retrying => {
            assert(same_params(s, s.fill().0));
            assert(same_params(s, s.drain().0));
        },
        RunPhase::Preparing { chunk } => {
            let t = s.prepared(chunk);
            assert(same_params(t, t.flush().0));
            assert(same_params(t, t.fill().0));
        },
        _ => {},
    }
}

pub(crate) proof fn lemma_polled_keeps_params(s: RunView, batch: Seq<Completion>, now: int)
    ensures
        same_params(s, s.polled(batch, now).0),
{
    let t = RunView { timeouts: s.timeouts + 1, ..s };
    assert(same_params(t, t.fill().0));
    assert(same_params(t, t.drain().0));
    assert(same_params(t, t.head().0));
    assert(same_params(s, s.timed_out().0));
    let u = s.credited(batch, now);
    assert(same_params(u, u.fill().0));
    assert(same_params(u, u.drain().0));
    assert(same_params(u, u.head().0));
    assert(same_params(s, s.polled_main(batch, now).0));
    assert(same_params(s, s.polled_final(batch).0));
    assert(same_params(s, s.drained(batch).0));
}

} // verus!
