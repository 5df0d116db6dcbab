use cp_with_usrbio::depth::DepthLimits;
use cp_with_usrbio::pipeline::{PipelineProcessor, PipelineRun};
use cp_with_usrbio::ring::{Action, Chunk, Completion, PipelineError, Ring, RingOptions};
use cp_with_usrbio::worker_context::{CopyPlan, WorkerContext};
use cp_with_usrbio::worker_pipeline::WorkerPipeline;

/// A source file, a buffer and a target file, with rings between them.
struct Machine {
    source: Vec<u8>,
    buffer: Vec<u8>,
    target: Vec<u8>,
    main: Vec<Chunk>,
    last: Vec<Chunk>,
    reversed: bool,
    per_poll: usize,
    polls: usize,
    submits: usize,
    syncs: usize,
    opened: Vec<usize>,
}

enum Step {
    Go,
    Completed(Vec<Completion>),
    Finished,
    Failed(PipelineError),
}

impl Machine {
    fn new(size: usize, iov_size: usize) -> Machine {
        let source: Vec<u8> = (0..size).map(|i| (i * 7 + i / 251) as u8).collect();
        Machine {
            target: vec![0; source.len()],
            source,
            buffer: vec![0; iov_size],
            main: Vec::new(),
            last: Vec::new(),
            reversed: false,
            per_poll: usize::MAX,
            polls: 0,
            submits: 0,
            syncs: 0,
            opened: Vec::new(),
        }
    }

    fn read(&mut self, chunk: Chunk) {
        let bytes = &self.source[chunk.src_offset..chunk.src_offset + chunk.size];
        self.buffer[chunk.buf_offset..chunk.buf_offset + chunk.size].copy_from_slice(bytes);
    }

    fn complete(&mut self, ring: Ring, max: usize) -> Vec<Completion> {
        self.polls += 1;
        let n = max.min(self.per_poll);
        let mut batch = Vec::new();
        for _ in 0..n {
            let queue = match ring {
                Ring::Main => &mut self.main,
                Ring::Final => &mut self.last,
            };
            if queue.is_empty() {
                break;
            }
            let chunk = if self.reversed {
                queue.pop().unwrap()
            } else {
                queue.remove(0)
            };
            let bytes =
                self.buffer[chunk.buf_offset..chunk.buf_offset + chunk.size].to_vec();
            self.target[chunk.src_offset..chunk.src_offset + chunk.size].copy_from_slice(&bytes);
            batch.push(Completion {
                offset: chunk.src_offset,
                expected: chunk.size,
                result: chunk.size as i64,
            });
        }
        batch
    }

    fn perform(&mut self, action: Action) -> Step {
        match action {
            Action::Prepare { ring, chunk } => {
                self.read(chunk);
                match ring {
                    Ring::Main => self.main.push(chunk),
                    Ring::Final => self.last.push(chunk),
                }
                Step::Go
            }
            Action::Requeue { chunk } => {
                self.last.push(chunk);
                Step::Go
            }
            Action::OpenFinal { entries } => {
                self.opened.push(entries);
                Step::Go
            }
            Action::Submit { .. } => {
                self.submits += 1;
                Step::Go
            }
            Action::Poll { ring, max, .. } => Step::Completed(self.complete(ring, max)),
            Action::Pause { .. } => Step::Go,
            Action::Sync => {
                self.syncs += 1;
                Step::Go
            }
            Action::Stalled => panic!("the copy stalls"),
            Action::Finished => Step::Finished,
            Action::Failed { error } => Step::Failed(error),
        }
    }

    fn run_worker(&mut self, mut pipeline: WorkerPipeline) -> Result<usize, PipelineError> {
        let mut action = pipeline.advance();
        loop {
            match self.perform(action) {
                Step::Go => action = pipeline.advance(),
                Step::Completed(batch) => action = pipeline.polled(&batch),
                Step::Finished => return Ok(pipeline.completed_bytes()),
                Step::Failed(error) => return Err(error),
            }
        }
    }

    fn run_processor(&mut self, mut run: PipelineRun) -> Result<usize, PipelineError> {
        let mut action = run.advance();
        loop {
            match self.perform(action) {
                Step::Go => action = run.advance(),
                Step::Completed(batch) => action = run.polled(&batch, 1),
                Step::Finished => return Ok(run.completed_bytes()),
                Step::Failed(error) => return Err(error),
            }
        }
    }
}

#[test]
fn worker_copies_every_byte() {
    for size in [1usize, 9, 10, 11, 19, 20, 21, 35, 40, 99, 100, 101, 237] {
        for (iov, depth) in [(10usize, 1usize), (25, 2), (40, 4), (47, 3), (200, 4)] {
            for reversed in [false, true] {
                for per_poll in [1usize, 2, 9] {
                    let mut machine = Machine::new(size, iov);
                    machine.reversed = reversed;
                    machine.per_poll = per_poll;
                    let pipeline = WorkerPipeline::new(10, iov, depth, size as u64);
                    assert_eq!(machine.run_worker(pipeline), Ok(size));
                    assert_eq!(machine.source, machine.target);
                }
            }
        }
    }
}

#[test]
fn worker_hands_the_rest_to_the_final_ring() {
    let mut machine = Machine::new(25, 40);
    let pipeline = WorkerPipeline::new(10, 40, 2, 25);
    assert_eq!(machine.run_worker(pipeline), Ok(25));
    assert_eq!(machine.opened, vec![1]);
    assert_eq!(machine.syncs, 1);
    assert_eq!(machine.polls, 2);
}

#[test]
fn worker_gives_up_on_a_chunk_that_is_too_large() {
    let mut pipeline = WorkerPipeline::new(10, 5, 1, 20);
    assert_eq!(
        pipeline.advance(),
        Action::Failed {
            error: PipelineError::ChunkTooLarge {
                chunk_size: 10,
                iov_size: 5,
                block_size: 10
            }
        }
    );
}

fn polling_worker() -> WorkerPipeline {
    let mut pipeline = WorkerPipeline::new(10, 20, 2, 40);
    loop {
        if let Action::Poll {
            ring,
            max,
            timeout_ms,
        } = pipeline.advance()
        {
            assert_eq!((ring, max, timeout_ms), (Ring::Main, 2, 30000));
            return pipeline;
        }
    }
}

#[test]
fn worker_reports_a_timeout() {
    let mut pipeline = polling_worker();
    assert_eq!(
        pipeline.polled(&vec![]),
        Action::Failed {
            error: PipelineError::PollTimeout
        }
    );
}

#[test]
fn worker_reports_failed_and_short_writes() {
    let mut pipeline = polling_worker();
    let batch = vec![
        Completion { offset: 0, expected: 10, result: 10 },
        Completion { offset: 10, expected: 10, result: -5 },
    ];
    assert_eq!(
        pipeline.polled(&batch),
        Action::Failed {
            error: PipelineError::WriteFailed { ring: Ring::Main, offset: 10, result: -5 }
        }
    );
    assert_eq!(pipeline.completed_bytes(), 10);

    let mut pipeline = polling_worker();
    let batch = vec![Completion { offset: 0, expected: 10, result: 7 }];
    assert_eq!(
        pipeline.polled(&batch),
        Action::Failed {
            error: PipelineError::WriteIncomplete { ring: Ring::Main, expected: 10, result: 7 }
        }
    );
}

#[test]
fn worker_gives_the_final_ring_ten_chances() {
    let mut pipeline = WorkerPipeline::new(10, 40, 4, 25);
    let mut action = pipeline.advance();
    let mut empty_polls = 0;
    let error = loop {
        match action {
            Action::Poll { ring, max, timeout_ms } => {
                assert_eq!((ring, max, timeout_ms), (Ring::Final, 3, 60000));
                empty_polls += 1;
                action = pipeline.polled(&vec![]);
            }
            Action::Failed { error } => break error,
            _ => action = pipeline.advance(),
        }
    };
    assert_eq!(empty_polls, 10);
    assert_eq!(error, PipelineError::FinalIncomplete { done: 0, total: 3, polls: 10 });
}

#[test]
fn processor_copies_every_byte() {
    for size in [1usize, 9, 10, 11, 19, 20, 21, 35, 40, 99, 100, 101, 237] {
        for (iov, depth) in [(10usize, 1usize), (20, 2), (40, 4), (200, 4), (60, 3)] {
            for per_poll in [1usize, 2, 9] {
                let mut machine = Machine::new(size, iov);
                machine.per_poll = per_poll;
                let run = PipelineRun::new(10, iov, depth, size as u64, 0);
                let result = machine.run_processor(run);
                if per_poll == 9 {
                    assert_eq!(result, Ok(size));
                    assert_eq!(machine.source, machine.target);
                } else if let Ok(bytes) = result {
                    assert_eq!(bytes, size);
                    assert_eq!(machine.source, machine.target);
                }
            }
        }
    }
}

#[test]
fn processor_copes_with_any_order_within_a_poll() {
    for size in [1usize, 10, 35, 40, 99, 100, 101, 237] {
        for (iov, depth) in [(20usize, 2usize), (40, 4), (60, 3), (300, 4)] {
            let mut machine = Machine::new(size, iov);
            machine.reversed = true;
            let run = PipelineRun::new(10, iov, depth, size as u64, 0);
            assert_eq!(machine.run_processor(run), Ok(size));
            assert_eq!(machine.source, machine.target);
        }
    }
}

#[test]
fn processor_overwrites_nothing_in_a_buffer_that_holds_the_file() {
    for size in [15usize, 40, 95, 100, 237] {
        for depth in [2usize, 3, 4] {
            for per_poll in [1usize, 2] {
                let mut machine = Machine::new(size, 240);
                machine.reversed = true;
                machine.per_poll = per_poll;
                let mut run = PipelineRun::new(10, 240, depth, size as u64, 0);
                let mut action = run.advance();
                loop {
                    if let Action::Prepare { chunk, .. } = action {
                        for open in machine.main.iter().chain(&machine.last) {
                            assert!(
                                open.buf_offset + open.size <= chunk.buf_offset
                                    || chunk.buf_offset + chunk.size <= open.buf_offset
                            );
                        }
                    }
                    match machine.perform(action) {
                        Step::Go => action = run.advance(),
                        Step::Completed(batch) => action = run.polled(&batch, 1),
                        Step::Finished | Step::Failed(_) => break,
                    }
                }
            }
        }
    }
}

#[test]
fn processor_polls_the_final_ring_once() {
    let mut machine = Machine::new(30, 40);
    machine.per_poll = 2;
    let run = PipelineRun::new(10, 40, 4, 30, 0);
    assert_eq!(
        machine.run_processor(run),
        Err(PipelineError::SizeMismatch { completed: 20, expected: 30 })
    );
}

fn polling_run(size: u64) -> PipelineRun {
    let mut run = PipelineRun::new(10, 20, 2, size, 0);
    loop {
        if let Action::Poll { .. } = run.advance() {
            return run;
        }
    }
}

#[test]
fn processor_tolerates_four_timeouts() {
    let mut run = polling_run(40);
    for _ in 0..4 {
        assert_eq!(
            run.polled(&vec![], 1),
            Action::Poll { ring: Ring::Main, max: 2, timeout_ms: 30000 }
        );
    }
    assert_eq!(
        run.polled(&vec![], 1),
        Action::Failed {
            error: PipelineError::RepeatedTimeout {
                timeouts: 5,
                inflight: 2,
                completed: 0,
                file_size: 40
            }
        }
    );
}

#[test]
fn processor_submits_again_at_the_end_of_the_file() {
    let mut run = PipelineRun::new(10, 20, 2, 20, 0);
    let mut actions = Vec::new();
    loop {
        let action = run.advance();
        actions.push(action);
        if let Action::Poll { .. } = action {
            break;
        }
    }
    let n = actions.len();
    assert_eq!(
        &actions[n - 4..],
        &[
            Action::Submit { ring: Ring::Main },
            Action::Pause { millis: 10 },
            Action::Submit { ring: Ring::Main },
            Action::Poll { ring: Ring::Main, max: 2, timeout_ms: 30000 },
        ]
    );
    assert_eq!(run.polled(&vec![], 1), Action::Submit { ring: Ring::Main });
}

#[test]
fn processor_notices_that_it_is_stuck() {
    let second: u64 = 1_000_000_000;
    let one = vec![Completion { offset: 0, expected: 0, result: 0 }];
    let mut run = polling_run(40);
    assert!(matches!(run.polled(&one, 60 * second), Action::Prepare { .. }));
    let mut run = polling_run(40);
    assert_eq!(
        run.polled(&one, 61 * second),
        Action::Failed { error: PipelineError::Stuck { completed: 0, file_size: 40 } }
    );
}

#[test]
fn processor_reports_an_empty_final_poll() {
    let mut run = PipelineRun::new(10, 40, 4, 15, 0);
    loop {
        if let Action::Poll { ring, max, timeout_ms } = run.advance() {
            assert_eq!((ring, max, timeout_ms), (Ring::Final, 2, 60000));
            break;
        }
    }
    assert_eq!(
        run.polled(&vec![], 0),
        Action::Failed { error: PipelineError::FinalTimeout { requests: 2 } }
    );
}

#[test]
fn processor_drains_what_is_left() {
    let mut run = polling_run(20);
    let all = vec![Completion { offset: 0, expected: 20, result: 20 }];
    let mut action = run.polled(&all, 1);
    for _ in 0..3 {
        assert_eq!(action, Action::Poll { ring: Ring::Main, max: 1, timeout_ms: 30000 });
        action = run.polled(&vec![], 1);
    }
    assert_eq!(
        action,
        Action::Failed { error: PipelineError::DrainFailed { left: 1 } }
    );
}

#[test]
fn errors_have_their_words() {
    let text = |error: PipelineError| error.message();
    assert_eq!(
        text(PipelineError::ZeroDepth),
        "Calculated pipeline_depth is 0, invalid parameters"
    );
    assert_eq!(
        text(PipelineError::ChunkTooLarge { chunk_size: 10, iov_size: 5, block_size: 10 }),
        "Chunk size 10 exceeds iov_size 5. This should not happen (block_size = 10)"
    );
    assert_eq!(text(PipelineError::PollTimeout), "Poll timeout after 30s");
    assert_eq!(
        text(PipelineError::RepeatedTimeout {
            timeouts: 5,
            inflight: 2,
            completed: 1024,
            file_size: 4096
        }),
        "Poll timeout 5 times. 2 I/Os in-flight. Completed: 1024 / 4096"
    );
    assert_eq!(
        text(PipelineError::Stuck { completed: 7, file_size: 70 }),
        "Copy stuck: no progress for 60s. Completed 7 / 70"
    );
    assert_eq!(
        text(PipelineError::WriteFailed { ring: Ring::Main, offset: 100, result: -22 }),
        "Write failed at offset 100: error -22"
    );
    assert_eq!(
        text(PipelineError::WriteFailed { ring: Ring::Final, offset: 0, result: i64::MIN }),
        "Final write failed at offset 0: error -9223372036854775808"
    );
    assert_eq!(
        text(PipelineError::WriteIncomplete { ring: Ring::Main, expected: 10, result: 3 }),
        "Write incomplete: expected 10, got 3"
    );
    assert_eq!(
        text(PipelineError::WriteIncomplete { ring: Ring::Final, expected: 10, result: 3 }),
        "Final write incomplete: expected 10, got 3"
    );
    assert_eq!(
        text(PipelineError::FinalTimeout { requests: 3 }),
        "Final batch poll timeout with 3 I/Os"
    );
    assert_eq!(
        text(PipelineError::FinalIncomplete { done: 1, total: 3, polls: 10 }),
        "Final batch incomplete: only 1/3 I/Os completed after 10 attempts"
    );
    assert_eq!(
        text(PipelineError::DrainFailed { left: 2 }),
        "Failed to drain 2 I/Os after 3 attempts"
    );
    assert_eq!(
        text(PipelineError::SizeMismatch { completed: 20, expected: 30 }),
        "Size mismatch: completed 20 != expected 30"
    );
}

const MIB: u64 = 1024 * 1024;

fn limits(min_depth: usize, max_depth: usize, iov_size: usize) -> DepthLimits {
    DepthLimits { block_size: 1 << 20, min_depth, max_depth, iov_size }
}

#[test]
fn depth_follows_the_size_of_the_file() {
    let wide = limits(2, 8, 64 << 20);
    for (size, depth) in [
        (1, 2),
        (10 * MIB - 1, 2),
        (10 * MIB, 2),
        (20 * MIB, 2),
        (40 * MIB, 3),
        (60 * MIB, 4),
        (100 * MIB - 1, 4),
        (100 * MIB, 4),
        (200 * MIB, 4),
        (400 * MIB, 6),
        (600 * MIB, 8),
        (1024 * MIB - 1, 8),
        (1024 * MIB, 8),
        (10240 * MIB, 8),
    ] {
        assert_eq!(wide.calculate(size), depth);
    }
    assert_eq!(limits(0, 8, 64 << 20).calculate(1), 1);
    assert_eq!(limits(2, 3, 64 << 20).calculate(4096 * MIB), 3);
    assert_eq!(limits(2, 20, 64 << 20).calculate(4096 * MIB), 8);
    assert_eq!(limits(6, 8, 64 << 20).calculate(1), 6);
    assert_eq!(limits(2, 8, 3 << 20).calculate(4096 * MIB), 3);
    assert_eq!(limits(2, 8, 4096).calculate(4096 * MIB), 1);
    assert_eq!(limits(2, 0, 64 << 20).calculate(1), 0);
}

#[test]
fn depth_is_never_below_the_smallest() {
    let gib = 1024 * MIB;
    assert_eq!(limits(6, 8, 1 << 30).calculate(50 * MIB), 6);
    assert_eq!(limits(6, 8, 1 << 30).calculate(200 * MIB), 6);
    assert_eq!(limits(6, 8, 1 << 30).calculate(600 * MIB), 8);
    assert_eq!(limits(10, 16, 1 << 30).calculate(gib), 10);
    assert_eq!(limits(5, 8, 4096).calculate(50 * MIB), 1);
    assert_eq!(limits(6, 8, 3 << 20).calculate(200 * MIB), 3);
    assert_eq!(limits(6, 5, 1 << 30).calculate(200 * MIB), 5);
    for min in 1..17 {
        let mut last = 0;
        for size in [0, 5 * MIB, 10 * MIB, 90 * MIB, 100 * MIB, 500 * MIB, gib, 9 * gib] {
            let depth = limits(min, 16, 1 << 30).calculate(size);
            assert!(min <= depth && depth <= 16 && last <= depth);
            last = depth;
        }
    }
}

#[test]
fn processor_starts_with_the_right_ring() {
    let processor =
        PipelineProcessor::new("/3fs".to_string(), 1 << 20, 2, 8, 64 << 20, true);
    assert!(processor.can_copy(40 * MIB));
    assert_eq!(processor.calculate_pipeline_depth(40 * MIB), 3);
    assert_eq!(processor.mount_point(), "/3fs");
    assert!(processor.debug());
    match processor.execute(40 * MIB, 0) {
        Ok(started) => {
            assert_eq!(started.depth, 3);
            assert_eq!(
                started.ring,
                RingOptions {
                    for_read: false,
                    entries: 3,
                    io_depth: -3,
                    timeout_ms: 1000,
                    numa: -1,
                    flags: 0
                }
            );
        }
        Err(_) => panic!("the file can be copied"),
    }
    assert_eq!(
        RingOptions::for_the_rest(2),
        RingOptions {
            for_read: false,
            entries: 2,
            io_depth: 0,
            timeout_ms: 1000,
            numa: -1,
            flags: 0
        }
    );
}

#[test]
fn processor_refuses_a_depth_of_zero() {
    let processor =
        PipelineProcessor::new("/3fs".to_string(), 1 << 20, 2, 0, 64 << 20, false);
    assert_eq!(processor.execute(5, 0).err(), Some(PipelineError::ZeroDepth));
}

#[test]
fn context_plans_each_file() {
    let context =
        WorkerContext::new(3, "/3fs".to_string(), 10, 2, 8, 40, true, false);
    assert_eq!(context.shm_id(), "cp_usrbio_w3");
    assert_eq!(context.worker_id(), 3);
    assert_eq!(context.iov_size(), 40);
    assert!(matches!(context.copy_file(0), CopyPlan::Empty { set_permissions: true }));
    let plain = WorkerContext::new(4, "/3fs".to_string(), 10, 2, 8, 40, false, false);
    assert!(matches!(plain.copy_file(0), CopyPlan::Empty { set_permissions: false }));
    assert!(context.can_copy(95));
    match context.copy_file(95) {
        CopyPlan::Pipelined { ring, pipeline, set_permissions } => {
            assert_eq!((ring.entries, ring.io_depth), (2, -2));
            assert!(set_permissions);
            let mut machine = Machine::new(95, 40);
            assert_eq!(machine.run_worker(pipeline), Ok(95));
            assert_eq!(machine.source, machine.target);
        }
        CopyPlan::Empty { .. } => panic!("the file is not empty"),
    }
}
