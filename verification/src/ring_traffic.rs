//! What a copy asks of its rings, and what they report, as it is seen from outside.

use crate::pipeline::result_bytes;
use crate::ring::{expected_bytes, Action, Chunk, Completion, Ring};
use vstd::prelude::*;

verus! {

/// The sizes that a copy works with.
#[verifier::ext_equal]
pub struct Sizes {
    pub block_size: int,
    pub iov_size: int,
    pub depth: int,
    pub file_size: int,
}

/// How a ring has been used.
#[verifier::ext_equal]
pub struct RingUse {
    /// The requests that were queued, without as many of the first ones as were
    /// reported.
    pub open: Seq<Chunk>,
    /// How many requests were queued since the ring was last submitted.
    pub waiting: int,
    /// How many requests were ever queued.
    pub total: int,
}

impl RingUse {
    pub open spec fn none() -> RingUse {
        RingUse { open: Seq::empty(), waiting: 0, total: 0 }
    }

    pub open spec fn queue(self, chunk: Chunk) -> RingUse {
        RingUse {
            open: self.open.push(chunk),
            waiting: self.waiting + 1,
            total: self.total + 1,
        }
    }

    pub open spec fn submit(self) -> RingUse {
        RingUse { waiting: 0, ..self }
    }

    pub open spec fn report(self, n: int) -> RingUse {
        RingUse { open: self.open.skip(n), ..self }
    }
}

/// What a copy has asked for, and what has come of it.
#[verifier::ext_equal]
pub struct Traffic {
    /// What was asked for last.
    pub asked: Option<Action>,
    pub main: RingUse,
    /// How the final ring has been used.
    pub last: RingUse,
    /// How many requests the final ring was opened for, none before it was opened.
    pub entries: int,
    /// The chunks of the source that were read, in order.
    pub taken: Seq<Chunk>,
    /// How many bytes of the source were read.
    pub read: int,
    /// The end of the chunk in the buffer that was read last.
    pub used: int,
    /// How far the buffer has been used.
    pub peak: int,
    /// Whether the target was synchronised after the last completion.
    pub synced: bool,
    /// How many bytes the completions have confirmed.
    pub counted: int,
    /// Whether the main ring was submitted since it was last polled.
    pub renewed: bool,
    /// Whether there was a sleep since a chunk was last read.
    pub paused: bool,
    /// Whether the main ring was submitted after that sleep.
    pub repeated: bool,
    /// How many polls of the main ring brought nothing, since one brought something.
    pub silent_main: int,
    /// How many polls of the final ring brought nothing.
    pub silent_last: int,
    /// How many polls were made after the whole file was confirmed.
    pub drains: int,
}

impl Traffic {
    pub open spec fn none() -> Traffic {
        Traffic {
            asked: None,
            main: RingUse::none(),
            last: RingUse::none(),
            entries: 0,
            taken: Seq::empty(),
            read: 0,
            used: 0,
            peak: 0,
            synced: false,
            counted: 0,
            renewed: false,
            paused: false,
            repeated: false,
            silent_main: 0,
            silent_last: 0,
            drains: 0,
        }
    }

    pub open spec fn ring(self, ring: Ring) -> RingUse {
        match ring {
            Ring::Main => self.main,
            Ring::Final => self.last,
        }
    }

    /// What was asked for can be done, and nothing has to be reported of it.
    pub open spec fn can_be_done(self) -> bool {
        match self.asked {
            Some(Action::Poll { .. }) => false,
            Some(Action::Finished) => false,
            Some(Action::Failed { .. }) => false,
            _ => true,
        }
    }

    /// What was asked for has been done.
    pub open spec fn performed(self) -> Traffic {
        match self.asked {
            Some(Action::Prepare { ring: Ring::Main, chunk }) => Traffic {
                main: self.main.queue(chunk),
                taken: self.taken.push(chunk),
                read: self.read + chunk.size,
                used: chunk.buf_offset + chunk.size,
                peak: if chunk.buf_offset + chunk.size > self.peak {
                    chunk.buf_offset + chunk.size
                } else {
                    self.peak
                },
                synced: false,
                paused: false,
                repeated: false,
                ..self
            },
            Some(Action::Prepare { ring: Ring::Final, chunk }) => Traffic {
                last: self.last.queue(chunk),
                taken: self.taken.push(chunk),
                read: self.read + chunk.size,
                used: chunk.buf_offset + chunk.size,
                peak: if chunk.buf_offset + chunk.size > self.peak {
                    chunk.buf_offset + chunk.size
                } else {
                    self.peak
                },
                synced: false,
                paused: false,
                repeated: false,
                ..self
            },
            Some(Action::Requeue { chunk }) => Traffic { last: self.last.queue(chunk), ..self },
            Some(Action::OpenFinal { entries }) => Traffic { entries: entries as int, ..self },
            Some(Action::Submit { ring: Ring::Main }) => Traffic {
                main: self.main.submit(),
                renewed: true,
                repeated: self.paused,
                ..self
            },
            Some(Action::Submit { ring: Ring::Final }) => Traffic {
                last: self.last.submit(),
                ..self
            },
            Some(Action::Pause { .. }) => Traffic { paused: true, ..self },
            Some(Action::Sync) => Traffic { synced: true, ..self },
            _ => self,
        }
    }

    /// The ring that is polled, if one is.
    pub open spec fn polls(self, ring: Ring) -> bool {
        self.asked matches Some(Action::Poll { ring: polled, .. }) && polled == ring
    }

    /// The poll that was asked for has brought the batch.
    pub open spec fn reported(self, batch: Seq<Completion>) -> Traffic {
        let n = batch.len() as int;
        let t = Traffic { synced: self.synced && n == 0, ..self };
        if self.polls(Ring::Final) {
            Traffic {
                last: self.last.report(n),
                counted: self.counted + expected_bytes(batch),
                silent_last: if n == 0 {
                    self.silent_last + 1
                } else {
                    self.silent_last
                },
                ..t
            }
        } else {
            Traffic {
                main: self.main.report(n),
                renewed: false,
                counted: self.counted + expected_bytes(batch),
                silent_main: if n == 0 {
                    self.silent_main + 1
                } else {
                    0
                },
                ..t
            }
        }
    }

    /// The poll for what is still open after the whole file was confirmed has
    /// brought the batch.
    pub open spec fn drained(self, batch: Seq<Completion>) -> Traffic {
        Traffic {
            main: self.main.report(batch.len() as int),
            counted: self.counted + result_bytes(batch),
            drains: self.drains + 1,
            ..self
        }
    }

    pub open spec fn asking(self, action: Action) -> Traffic {
        Traffic { asked: Some(action), ..self }
    }

    /// The chunk is the next one of the file: it begins where the source stands, it
    /// is a block, or what is left of the file where that is less, and it lies
    /// inside the buffer.
    pub open spec fn is_next(self, sizes: Sizes, chunk: Chunk) -> bool {
        &&& chunk.src_offset == self.read
        &&& 0 < chunk.size <= sizes.block_size
        &&& self.read + chunk.size <= sizes.file_size
        &&& chunk.size < sizes.block_size ==> self.read + chunk.size == sizes.file_size
        &&& chunk.buf_offset + chunk.size <= sizes.iov_size
    }

    /// What is left of the file takes so many blocks.
    pub open spec fn takes_blocks(self, sizes: Sizes, blocks: int) -> bool {
        (blocks - 1) * sizes.block_size < sizes.file_size - self.read <= blocks * sizes.block_size
    }

    /// What is left of the file makes up a full batch, its last block not
    /// necessarily full.
    pub open spec fn fills_a_batch(self, sizes: Sizes) -> bool {
        (sizes.depth - 1) * sizes.block_size < sizes.file_size - self.read
    }

    /// The ring can be polled for all that is open: all of it was submitted, and
    /// there is something to wait for.
    pub open spec fn ready(self, ring: Ring, max: int) -> bool {
        &&& self.ring(ring).waiting == 0
        &&& self.ring(ring).open.len() > 0
        &&& max == self.ring(ring).open.len()
    }
}

/// The first completion of the batch that was not written as requested has the
/// number `i`.
pub open spec fn first_refused(batch: Seq<Completion>, i: int) -> bool {
    &&& 0 <= i < batch.len()
    &&& batch[i].result != batch[i].expected
    &&& forall|k: int| 0 <= k < i ==> (#[trigger] batch[k]).result == batch[k].expected
}

/// All the completions were written as requested.
pub open spec fn all_written(batch: Seq<Completion>) -> bool {
    forall|k: int| 0 <= k < batch.len() ==> (#[trigger] batch[k]).result == batch[k].expected
}

} // verus!
