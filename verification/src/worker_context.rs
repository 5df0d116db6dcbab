//! What a worker does: how it copies one file, and how it takes its tasks.

use crate::depth::{law_depth_is_within_bounds, law_requests_fit_into_the_buffer, DepthLimits};
use crate::ring::RingOptions;
use crate::task::{CopyTask, TaskView};
use crate::text::{decimal, push_decimal};
use crate::worker_pipeline::{WorkerPipeline, WorkerView};
use vstd::prelude::*;

verus! {

/// What the names of the shared memory of all workers begin with.
pub const WORKER_SHM_PREFIX: &'static str = "cp_usrbio_w";

/// The name of the shared memory of a worker.
pub open spec fn worker_shm_id(worker_id: int) -> Seq<char> {
    WORKER_SHM_PREFIX@ + decimal(worker_id)
}

/// What a worker was made with.
#[verifier::ext_equal]
pub struct ContextView {
    pub worker_id: int,
    pub mount_point: Seq<char>,
    pub limits: DepthLimits,
    pub preserve_attrs: bool,
    pub debug: bool,
}

impl ContextView {
    /// The file can be copied at all: there is a depth for it that a ring can
    /// have.
    pub open spec fn can_copy(self, file_size: int) -> bool {
        &&& self.limits.block_size > 0
        &&& self.limits.max_depth >= 1
        &&& self.limits.depth(file_size) <= i32::MAX
        &&& file_size <= usize::MAX
    }
}

/// A worker. It has a buffer of fixed size for all the files that it copies.
pub struct WorkerContext {
    worker_id: usize,
    mount_point: String,
    limits: DepthLimits,
    preserve_attrs: bool,
    debug: bool,
}

impl View for WorkerContext {
    type V = ContextView;

    closed spec fn view(&self) -> ContextView {
        ContextView {
            worker_id: self.worker_id as int,
            mount_point: self.mount_point@,
            limits: self.limits,
            preserve_attrs: self.preserve_attrs,
            debug: self.debug,
        }
    }
}

/// How a file is copied, once its target has been created.
pub enum CopyPlan {
    /// There is nothing to copy, but for the permissions of the source where they
    /// are wanted.
    Empty { set_permissions: bool },
    /// The file goes through the pipeline, on a ring of its own. Then the target
    /// is synchronised, and it gets the permissions of the source where they are
    /// wanted.
    Pipelined { ring: RingOptions, pipeline: WorkerPipeline, set_permissions: bool },
}

/// What a copy plan says.
#[verifier::ext_equal]
pub enum CopyPlanView {
    Empty { set_permissions: bool },
    Pipelined { ring: RingOptions, pipeline: WorkerView, set_permissions: bool },
}

impl View for CopyPlan {
    type V = CopyPlanView;

    open spec fn view(&self) -> CopyPlanView {
        match self {
            CopyPlan::Empty { set_permissions } => CopyPlanView::Empty {
                set_permissions: *set_permissions,
            },
            CopyPlan::Pipelined { ring, pipeline, set_permissions } => CopyPlanView::Pipelined {
                ring: *ring,
                pipeline: pipeline@,
                set_permissions: *set_permissions,
            },
        }
    }
}

impl ContextView {
    /// The plan for a file of `file_size` bytes.
    pub open spec fn plan(self, file_size: int) -> CopyPlanView {
        if file_size == 0 {
            CopyPlanView::Empty { set_permissions: self.preserve_attrs }
        } else {
            CopyPlanView::Pipelined {
                ring: RingOptions::main_ring(self.limits.depth(file_size)),
                pipeline: WorkerView::initial(
                    self.limits.block_size as int,
                    self.limits.iov_size as int,
                    self.limits.depth(file_size),
                    file_size,
                ),
                set_permissions: self.preserve_attrs,
            }
        }
    }
}

impl WorkerContext {
    /// The worker with the number `worker_id`.
    pub fn new(
        worker_id: usize,
        mount_point: String,
        block_size: usize,
        min_pipeline_depth: usize,
        max_pipeline_depth: usize,
        iov_size: usize,
        preserve_attrs: bool,
        debug: bool,
    ) -> (r: Self)
        ensures
            r@ == (ContextView {
                worker_id: worker_id as int,
                mount_point: mount_point@,
                limits: (DepthLimits {
                    block_size,
                    min_depth: min_pipeline_depth,
                    max_depth: max_pipeline_depth,
                    iov_size,
                }),
                preserve_attrs,
                debug,
            }),
    {
        WorkerContext {
            worker_id,
            mount_point,
            limits: DepthLimits {
                block_size,
                min_depth: min_pipeline_depth,
                max_depth: max_pipeline_depth,
                iov_size,
            },
            preserve_attrs,
            debug,
        }
    }

    /// The name of the shared memory that is the buffer of the worker.
    pub fn shm_id(&self) -> (r: String)
        ensures
            r@ == worker_shm_id(self@.worker_id),
    {
        let mut id = WORKER_SHM_PREFIX.to_owned();
        push_decimal(&mut id, self.worker_id as u64);
        id
    }

    /// The size of the buffer of the worker.
    pub fn iov_size(&self) -> (r: usize)
        ensures
            r == self@.limits.iov_size,
    {
        self.limits.iov_size
    }

    /// The number of the worker.
    pub fn worker_id(&self) -> (r: usize)
        ensures
            r == self@.worker_id,
    {
        self.worker_id
    }

    /// The file system that the rings belong to.
    pub fn mount_point(&self) -> (r: &str)
        ensures
            r@ == self@.mount_point,
    {
        self.mount_point.as_str()
    }

    /// Whether the user wants to know the details.
    pub fn debug(&self) -> (r: bool)
        ensures
            r == self@.debug,
    {
        self.debug
    }

    /// The depth for a file of `file_size` bytes.
    pub fn calculate_pipeline_depth(&self, file_size: u64) -> (r: usize)
        requires
            self@.limits.block_size > 0,
        ensures
            r == self@.limits.depth(file_size as int),
    {
        self.limits.calculate(file_size)
    }

    /// Whether a file of `file_size` bytes can be copied at all.
    pub fn can_copy(&self, file_size: u64) -> (r: bool)
        ensures
            r == self@.can_copy(file_size as int),
    {
        self.limits.block_size > 0 && self.limits.max_depth >= 1 && self.limits.calculate(
            file_size,
        ) as u64 <= i32::MAX as u64 && file_size <= usize::MAX as u64
    }

    /// Plans the copy of a file of `file_size` bytes.
    pub fn copy_file(&self, file_size: u64) -> (r: CopyPlan)
        requires
            file_size > 0 ==> self@.can_copy(file_size as int),
        ensures
            r@ == self@.plan(file_size as int),
            r matches CopyPlan::Pipelined { pipeline, .. } ==> pipeline@.wf(),
    {
        if file_size == 0 {
            return CopyPlan::Empty { set_permissions: self.preserve_attrs };
        }
        let depth = self.calculate_pipeline_depth(file_size);
        proof {
            law_requests_fit_into_the_buffer(self.limits, file_size as int);
            law_depth_is_within_bounds(self.limits, file_size as int);
        }
        let pipeline = WorkerPipeline::new(
            self.limits.block_size,
            self.limits.iov_size,
            depth,
            file_size,
        );
        CopyPlan::Pipelined {
            ring: RingOptions::for_batches(depth),
            pipeline,
            set_permissions: self.preserve_attrs,
        }
    }
}

/// How long a worker sleeps when there is no task for it, in milliseconds.
pub const IDLE_PAUSE_MS: u64 = 10;

/// What a worker does next. The steps between the receipt of a task and its end
/// carry the task.
pub enum WorkerStep {
    /// Look whether the copy goes on, and if it does, whether there is a task.
    Receive,
    /// Sleep.
    Sleep { millis: u64 },
    /// Find out whether the task was done before.
    Consult { task: CopyTask },
    /// Look whether the copy still goes on.
    Recheck { task: CopyTask },
    /// Copy the file of the task.
    Copy { task: CopyTask },
    /// Mark the file as copied, and take it out of those that failed.
    MarkCompleted { task: CopyTask },
    /// Mark the file as failed.
    MarkFailed { task: CopyTask },
    /// Stop. `interrupted` tells whether a task is left behind.
    Stop { interrupted: bool },
}

/// What a step says.
#[verifier::ext_equal]
pub enum StepView {
    Receive,
    Sleep { millis: int },
    Consult { task: TaskView },
    Recheck { task: TaskView },
    Copy { task: TaskView },
    MarkCompleted { task: TaskView },
    MarkFailed { task: TaskView },
    Stop { interrupted: bool },
}

impl View for WorkerStep {
    type V = StepView;

    open spec fn view(&self) -> StepView {
        match self {
            WorkerStep::Receive => StepView::Receive,
            WorkerStep::Sleep { millis } => StepView::Sleep { millis: *millis as int },
            WorkerStep::Consult { task } => StepView::Consult { task: task@ },
            WorkerStep::Recheck { task } => StepView::Recheck { task: task@ },
            WorkerStep::Copy { task } => StepView::Copy { task: task@ },
            WorkerStep::MarkCompleted { task } => StepView::MarkCompleted { task: task@ },
            WorkerStep::MarkFailed { task } => StepView::MarkFailed { task: task@ },
            WorkerStep::Stop { interrupted } => StepView::Stop { interrupted: *interrupted },
        }
    }
}

/// What came out of what a worker did.
pub enum WorkerReport {
    /// The copy has been broken off.
    Interrupted,
    /// There is no task at the moment.
    NoTask,
    /// There will be no more tasks.
    Closed,
    /// There is a task.
    Task { task: CopyTask },
    /// The task has to be done.
    Wanted,
    /// The task was done before.
    Unwanted,
    /// The copy goes on.
    Running,
    /// The file has been copied.
    Copied,
    /// The file could not be copied.
    NotCopied,
    /// It is done.
    Done,
}

/// What a report says.
#[verifier::ext_equal]
pub enum ReportView {
    Interrupted,
    NoTask,
    Closed,
    Task { task: TaskView },
    Wanted,
    Unwanted,
    Running,
    Copied,
    NotCopied,
    Done,
}

impl View for WorkerReport {
    type V = ReportView;

    open spec fn view(&self) -> ReportView {
        match self {
            WorkerReport::Interrupted => ReportView::Interrupted,
            WorkerReport::NoTask => ReportView::NoTask,
            WorkerReport::Closed => ReportView::Closed,
            WorkerReport::Task { task } => ReportView::Task { task: task@ },
            WorkerReport::Wanted => ReportView::Wanted,
            WorkerReport::Unwanted => ReportView::Unwanted,
            WorkerReport::Running => ReportView::Running,
            WorkerReport::Copied => ReportView::Copied,
            WorkerReport::NotCopied => ReportView::NotCopied,
            WorkerReport::Done => ReportView::Done,
        }
    }
}

/// The report is an answer to the step.
pub open spec fn answers(step: StepView, report: ReportView) -> bool {
    match step {
        StepView::Receive => report is Interrupted || report is NoTask || report is Closed
            || report is Task,
        StepView::Sleep { .. } => report is Done,
        StepView::Consult { .. } => report is Wanted || report is Unwanted,
        StepView::Recheck { .. } => report is Running || report is Interrupted,
        StepView::Copy { .. } => report is Copied || report is NotCopied,
        StepView::MarkCompleted { .. } => report is Done,
        StepView::MarkFailed { .. } => report is Done,
        StepView::Stop { .. } => false,
    }
}

/// What a worker does after it has done `step` with the outcome `report`.
pub open spec fn next_step(step: StepView, report: ReportView) -> StepView {
    match (step, report) {
        (StepView::Receive, ReportView::Interrupted) => StepView::Stop { interrupted: false },
        (StepView::Receive, ReportView::Closed) => StepView::Stop { interrupted: false },
        (StepView::Receive, ReportView::NoTask) => StepView::Sleep { millis: IDLE_PAUSE_MS as int },
        (StepView::Receive, ReportView::Task { task }) => StepView::Consult { task },
        (StepView::Consult { task }, ReportView::Wanted) => StepView::Recheck { task },
        (StepView::Recheck { task }, ReportView::Running) => StepView::Copy { task },
        (StepView::Recheck { .. }, ReportView::Interrupted) => StepView::Stop { interrupted: true },
        (StepView::Copy { task }, ReportView::Copied) => StepView::MarkCompleted { task },
        (StepView::Copy { task }, ReportView::NotCopied) => StepView::MarkFailed { task },
        _ => StepView::Receive,
    }
}

impl WorkerStep {
    /// What a worker does first.
    pub fn first() -> (r: Self)
        ensures
            r@ == StepView::Receive,
    {
        WorkerStep::Receive
    }

    /// What a worker does after this step, which had the outcome `report`.
    pub fn next(self, report: WorkerReport) -> (r: Self)
        requires
            answers(self@, report@),
        ensures
            r@ == next_step(self@, report@),
    {
        match (self, report) {
            (WorkerStep::Receive, WorkerReport::Interrupted) => WorkerStep::Stop {
                interrupted: false,
            },
            (WorkerStep::Receive, WorkerReport::Closed) => WorkerStep::Stop { interrupted: false },
            (WorkerStep::Receive, WorkerReport::NoTask) => WorkerStep::Sleep {
                millis: IDLE_PAUSE_MS,
            },
            (WorkerStep::Receive, WorkerReport::Task { task }) => WorkerStep::Consult { task },
            (WorkerStep::Consult { task }, WorkerReport::Wanted) => WorkerStep::Recheck { task },
            (WorkerStep::Recheck { task }, WorkerReport::Running) => WorkerStep::Copy { task },
            (WorkerStep::Recheck { .. }, WorkerReport::Interrupted) => WorkerStep::Stop {
                interrupted: true,
            },
            (WorkerStep::Copy { task }, WorkerReport::Copied) => WorkerStep::MarkCompleted { task },
            (WorkerStep::Copy { task }, WorkerReport::NotCopied) => WorkerStep::MarkFailed { task },
            _ => WorkerStep::Receive,
        }
    }
}

/// What a worker does after some reports.
pub open spec fn steps_after(reports: Seq<ReportView>) -> StepView
    decreases reports.len(),
{
    if reports.len() == 0 {
        StepView::Receive
    } else {
        next_step(steps_after(reports.drop_last()), reports.last())
    }
}

/// Each report is an answer to the step before it.
pub open spec fn all_answer(reports: Seq<ReportView>) -> bool {
    forall|i: int|
        0 <= i < reports.len() ==> answers(steps_after(reports.take(i)), #[trigger] reports[i])
}

/// How many of the reports are as wanted.
pub open spec fn count_of(reports: Seq<ReportView>, wanted: spec_fn(ReportView) -> bool) -> int
    decreases reports.len(),
{
    if reports.len() == 0 {
        0
    } else {
        count_of(reports.drop_last(), wanted) + if wanted(reports.last()) {
            1int
        } else {
            0
        }
    }
}

/// How many of the steps that were done and answered are as wanted.
pub open spec fn count_done(reports: Seq<ReportView>, wanted: spec_fn(StepView) -> bool) -> int
    decreases reports.len(),
{
    if reports.len() == 0 {
        0
    } else {
        count_done(reports.drop_last(), wanted) + if wanted(steps_after(reports.drop_last())) {
            1int
        } else {
            0
        }
    }
}

/// The worker holds a task that it has not finished.
pub open spec fn holds_task(step: StepView) -> bool {
    match step {
        StepView::Consult { .. } => true,
        StepView::Recheck { .. } => true,
        StepView::Copy { .. } => true,
        StepView::MarkCompleted { .. } => true,
        StepView::MarkFailed { .. } => true,
        StepView::Stop { interrupted } => interrupted,
        _ => false,
    }
}

/// The task that a step carries.
pub open spec fn carried(step: StepView) -> Option<TaskView> {
    match step {
        StepView::Consult { task } => Some(task),
        StepView::Recheck { task } => Some(task),
        StepView::Copy { task } => Some(task),
        StepView::MarkCompleted { task } => Some(task),
        StepView::MarkFailed { task } => Some(task),
        _ => None,
    }
}

/// The task that was received last.
pub open spec fn last_received(reports: Seq<ReportView>) -> Option<TaskView>
    decreases reports.len(),
{
    if reports.len() == 0 {
        None
    } else {
        match reports.last() {
            ReportView::Task { task } => Some(task),
            _ => last_received(reports.drop_last()),
        }
    }
}

proof fn lemma_front_answers(reports: Seq<ReportView>)
    requires
        all_answer(reports),
        reports.len() > 0,
    ensures
        all_answer(reports.drop_last()),
        answers(steps_after(reports.drop_last()), reports.last()),
{
    let front = reports.drop_last();
    assert forall|i: int| 0 <= i < front.len() implies answers(
        steps_after(front.take(i)),
        #[trigger] front[i],
    ) by {
        assert(front.take(i) =~= reports.take(i));
        assert(reports[i] == front[i]);
    }
    assert(reports.take(reports.len() - 1) =~= front);
    assert(answers(steps_after(front), reports[reports.len() - 1]));
}

/// Every task that a worker takes is either done before, or marked as copied, or
/// marked as failed, exactly once; the one exception is a task that it holds
/// when it has been interrupted or is not finished with it. As many tasks are
/// marked as copied as were copied, and as many as failed as were not.
pub proof fn law_every_task_is_accounted_for(reports: Seq<ReportView>)
    requires
        all_answer(reports),
    ensures
        count_of(reports, |r: ReportView| r is Task) == count_of(
            reports,
            |r: ReportView| r is Unwanted,
        ) + count_done(reports, |s: StepView| s is MarkCompleted) + count_done(
            reports,
            |s: StepView| s is MarkFailed,
        ) + if holds_task(steps_after(reports)) {
            1int
        } else {
            0
        },
        count_of(reports, |r: ReportView| r is Copied) == count_done(
            reports,
            |s: StepView| s is MarkCompleted,
        ) + if steps_after(reports) is MarkCompleted {
            1int
        } else {
            0
        },
        count_of(reports, |r: ReportView| r is NotCopied) == count_done(
            reports,
            |s: StepView| s is MarkFailed,
        ) + if steps_after(reports) is MarkFailed {
            1int
        } else {
            0
        },
    decreases reports.len(),
{
    if reports.len() > 0 {
        lemma_front_answers(reports);
        law_every_task_is_accounted_for(reports.drop_last());
    }
}

/// What a worker copies and marks is the task that it received last: a file is
/// marked as copied right after it was copied, and as failed right after its copy
/// failed.
pub proof fn law_what_is_marked_was_copied(reports: Seq<ReportView>)
    requires
        all_answer(reports),
    ensures
        carried(steps_after(reports)) matches Some(task) ==> last_received(reports) == Some(task),
        steps_after(reports) matches StepView::MarkCompleted { task } ==> reports.len() > 0
            && reports.last() is Copied && steps_after(reports.drop_last()) == (StepView::Copy {
            task,
        }),
        steps_after(reports) matches StepView::MarkFailed { task } ==> reports.len() > 0
            && reports.last() is NotCopied && steps_after(reports.drop_last()) == (
        StepView::Copy { task }),
    decreases reports.len(),
{
    if reports.len() > 0 {
        lemma_front_answers(reports);
        law_what_is_marked_was_copied(reports.drop_last());
    }
}

/// A worker that learns that the copy has been broken off does nothing more.
pub proof fn law_interrupted_worker_stops(step: StepView)
    requires
        answers(step, ReportView::Interrupted),
    ensures
        next_step(step, ReportView::Interrupted) is Stop,
        forall|report: ReportView|
            !answers(next_step(step, ReportView::Interrupted), report),
{
}

} // verus!
