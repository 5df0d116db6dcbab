//! A copy from beginning to end: whether it can begin, how the shared memory is
//! divided among the workers, and what happens to the files that fail.

use crate::depth::{law_depth_is_within_bounds, DepthLimits};
use crate::path::FilePath;
use crate::text::{decimal, is_affirmative, is_yes, push_count, trimmed};
use crate::worker_context::ContextView;
use crate::worker_pipeline::{max_int, min_int};
use vstd::arithmetic::div_mod::lemma_fundamental_div_mod;
use vstd::prelude::*;

verus! {

/// Why a copy does not begin, or how it ends badly.
#[derive(Clone, Copy, Debug, PartialEq, Eq, Structural)]
pub enum SessionError {
    NoSource,
    NoTarget,
    NoMountPoint,
    SourceMissing,
    DepthTooSmall { depth: usize },
    MaxDepthTooSmall { depth: usize },
    RatioOutOfRange,
    NoWorkers,
    DepthTooLarge { depth: usize, allowed: usize },
    MaxDepthTooLarge { depth: usize, allowed: usize },
    NotRetransmitted { issues: usize },
    Interrupted,
    FilesFailed { files: usize, attempts: usize },
}

/// How a depth that is too large is told.
pub open spec fn too_large_text(name: Seq<char>, depth: int, allowed: int) -> Seq<char> {
    name + decimal(depth) + ") exceeds maximum depth ("@ + decimal(allowed)
        + ") allowed by iov_size_per_worker/block_size ratio.\nTry: reduce --workers or increase --shm-usage-ratio"@
}

impl SessionError {
    /// What the error says. A path or a ratio that belongs to it comes behind.
    pub open spec fn text(self) -> Seq<char> {
        match self {
            SessionError::NoSource => "--source is required when not using --shm-status"@,
            SessionError::NoTarget => "--target is required when not using --shm-status"@,
            SessionError::NoMountPoint => "--mount-point is required when not using --shm-status"@,
            SessionError::SourceMissing => "Source path does not exist: "@,
            SessionError::DepthTooSmall { depth } => "pipeline_depth must be at least 1, got "@
                + decimal(depth as int),
            SessionError::MaxDepthTooSmall {
                depth,
            } => "max_pipeline_depth must be at least 1, got "@ + decimal(depth as int),
            SessionError::RatioOutOfRange => "shm_usage_ratio must be between 0.0 and 1.0, got "@,
            SessionError::NoWorkers => "workers must be at least 1"@,
            SessionError::DepthTooLarge { depth, allowed } => too_large_text(
                "pipeline_depth ("@,
                depth as int,
                allowed as int,
            ),
            SessionError::MaxDepthTooLarge { depth, allowed } => too_large_text(
                "max_pipeline_depth ("@,
                depth as int,
                allowed as int,
            ),
            SessionError::NotRetransmitted { issues } => "Found "@ + decimal(issues as int)
                + " inconsistent files, user chose not to retransmit"@,
            SessionError::Interrupted => "Copy interrupted by user (Ctrl+C)"@,
            SessionError::FilesFailed { files, attempts } => decimal(files as int)
                + " files failed to copy after "@ + decimal(attempts as int)
                + " retry attempts"@,
        }
    }

    /// What the error says. A path or a ratio that belongs to it comes behind.
    pub fn message(&self) -> (r: String)
        ensures
            r@ == self.text(),
    {
        let mut text = String::new();
        assert(text@ =~= Seq::<char>::empty());
        match *self {
            SessionError::NoSource => {
                text.append("--source is required when not using --shm-status");
            },
            SessionError::NoTarget => {
                text.append("--target is required when not using --shm-status");
            },
            SessionError::NoMountPoint => {
                text.append("--mount-point is required when not using --shm-status");
            },
            SessionError::SourceMissing => {
                text.append("Source path does not exist: ");
            },
            SessionError::DepthTooSmall { depth } => {
                push_count(&mut text, "pipeline_depth must be at least 1, got ", depth);
            },
            SessionError::MaxDepthTooSmall { depth } => {
                push_count(&mut text, "max_pipeline_depth must be at least 1, got ", depth);
            },
            SessionError::RatioOutOfRange => {
                text.append("shm_usage_ratio must be between 0.0 and 1.0, got ");
            },
            SessionError::NoWorkers => {
                text.append("workers must be at least 1");
            },
            SessionError::DepthTooLarge { depth, allowed } => {
                push_too_large(&mut text, "pipeline_depth (", depth, allowed);
            },
            SessionError::MaxDepthTooLarge { depth, allowed } => {
                push_too_large(&mut text, "max_pipeline_depth (", depth, allowed);
            },
            SessionError::NotRetransmitted { issues } => {
                push_count(&mut text, "Found ", issues);
                text.append(" inconsistent files, user chose not to retransmit");
            },
            SessionError::Interrupted => {
                text.append("Copy interrupted by user (Ctrl+C)");
            },
            SessionError::FilesFailed { files, attempts } => {
                proof {
                    reveal_strlit("");
                }
                push_count(&mut text, "", files);
                push_count(&mut text, " files failed to copy after ", attempts);
                text.append(" retry attempts");
            },
        }
        assert(text@ =~= self.text());
        text
    }
}

fn push_too_large(text: &mut String, name: &str, depth: usize, allowed: usize)
    ensures
        final(text)@ == old(text)@ + too_large_text(name@, depth as int, allowed as int),
{
    push_count(text, name, depth);
    push_count(text, ") exceeds maximum depth (", allowed);
    text.append(
        ") allowed by iov_size_per_worker/block_size ratio.\nTry: reduce --workers or increase --shm-usage-ratio",
    );
    assert(final(text)@ =~= old(text)@ + too_large_text(name@, depth as int, allowed as int));
}

/// Where a copy goes from and to.
pub struct Places {
    pub source: FilePath,
    pub target: FilePath,
    pub mount_point: String,
}

/// What is wrong where some of the places that a copy needs are not given: the first
/// one that is not.
pub open spec fn missing_place(source: bool, target: bool, mount_point: bool) -> Option<
    SessionError,
> {
    if !source {
        Some(SessionError::NoSource)
    } else if !target {
        Some(SessionError::NoTarget)
    } else if !mount_point {
        Some(SessionError::NoMountPoint)
    } else {
        None
    }
}

/// The places that a copy needs. The first one that is not given is the error.
pub fn required_places(
    source: Option<FilePath>,
    target: Option<FilePath>,
    mount_point: Option<String>,
) -> (r: Result<Places, SessionError>)
    ensures
        match missing_place(source is Some, target is Some, mount_point is Some) {
            Some(e) => r is Err && r->Err_0 == e,
            None => r is Ok && r->Ok_0 == (Places {
                source: source->Some_0,
                target: target->Some_0,
                mount_point: mount_point->Some_0,
            }),
        },
{
    match source {
        None => Err(SessionError::NoSource),
        Some(source) => match target {
            None => Err(SessionError::NoTarget),
            Some(target) => match mount_point {
                None => Err(SessionError::NoMountPoint),
                Some(mount_point) => Ok(Places { source, target, mount_point }),
            },
        },
    }
}

/// What is wrong with the parameters of a copy, if something is.
pub open spec fn parameter_check(
    source_exists: bool,
    pipeline_depth: usize,
    max_pipeline_depth: usize,
    ratio_in_range: bool,
) -> Result<(), SessionError> {
    if !source_exists {
        Err(SessionError::SourceMissing)
    } else if pipeline_depth < 1 {
        Err(SessionError::DepthTooSmall { depth: pipeline_depth })
    } else if max_pipeline_depth < 1 {
        Err(SessionError::MaxDepthTooSmall { depth: max_pipeline_depth })
    } else if !ratio_in_range {
        Err(SessionError::RatioOutOfRange)
    } else {
        Ok(())
    }
}

/// Checks the parameters of a copy. `ratio_in_range` tells whether the part of
/// the shared memory that may be used is above zero and not above the whole.
pub fn check_parameters(
    source_exists: bool,
    pipeline_depth: usize,
    max_pipeline_depth: usize,
    ratio_in_range: bool,
) -> (r: Result<(), SessionError>)
    ensures
        r == parameter_check(source_exists, pipeline_depth, max_pipeline_depth, ratio_in_range),
{
    if !source_exists {
        return Err(SessionError::SourceMissing);
    }
    if pipeline_depth < 1 {
        return Err(SessionError::DepthTooSmall { depth: pipeline_depth });
    }
    if max_pipeline_depth < 1 {
        return Err(SessionError::MaxDepthTooSmall { depth: max_pipeline_depth });
    }
    if !ratio_in_range {
        return Err(SessionError::RatioOutOfRange);
    }
    Ok(())
}

/// The buffer of each of `workers` workers: an equal part of what may be used and
/// is available, but at least a block.
pub open spec fn worker_iov_size(usable: int, available: int, workers: int, block_size: int) -> int {
    max_int(min_int(usable, available) / workers, block_size)
}

/// The buffer of each worker, or what is wrong.
pub open spec fn memory_plan(
    usable: u64,
    available: u64,
    workers: usize,
    block_size: usize,
    pipeline_depth: usize,
    max_pipeline_depth: usize,
) -> Result<usize, SessionError> {
    let iov = worker_iov_size(usable as int, available as int, workers as int, block_size as int);
    let allowed = iov / block_size as int;
    if workers == 0 {
        Err(SessionError::NoWorkers)
    } else if pipeline_depth > allowed {
        Err(SessionError::DepthTooLarge { depth: pipeline_depth, allowed: allowed as usize })
    } else if max_pipeline_depth > allowed {
        Err(SessionError::MaxDepthTooLarge { depth: max_pipeline_depth, allowed: allowed as usize })
    } else {
        Ok(iov as usize)
    }
}

/// Divides the shared memory among the workers. `usable` is what may be used of
/// it, and `available` what is not in use yet.
pub fn plan_memory(
    usable: u64,
    available: u64,
    workers: usize,
    block_size: usize,
    pipeline_depth: usize,
    max_pipeline_depth: usize,
) -> (r: Result<usize, SessionError>)
    requires
        block_size > 0,
        usable <= usize::MAX || available <= usize::MAX,
    ensures
        r == memory_plan(
            usable,
            available,
            workers,
            block_size,
            pipeline_depth,
            max_pipeline_depth,
        ),
{
    if workers == 0 {
        return Err(SessionError::NoWorkers);
    }
    let actual: u64 = if usable <= available {
        usable
    } else {
        available
    };
    let share: u64 = actual / workers as u64;
    assert(share <= actual) by (nonlinear_arith)
        requires
            share == actual as int / workers as int,
            workers > 0,
            actual >= 0,
    ;
    let iov: usize = if share <= block_size as u64 {
        block_size
    } else {
        share as usize
    };
    let allowed: usize = iov / block_size;
    if pipeline_depth > allowed {
        return Err(SessionError::DepthTooLarge { depth: pipeline_depth, allowed });
    }
    if max_pipeline_depth > allowed {
        return Err(SessionError::MaxDepthTooLarge { depth: max_pipeline_depth, allowed });
    }
    Ok(iov)
}

/// Where the memory is divided, each worker has room for all the requests that it
/// may have in flight, and together the workers have no more than may be used,
/// unless each of them only has the one block that it cannot do without.
pub proof fn law_memory_suffices(
    usable: u64,
    available: u64,
    workers: usize,
    block_size: usize,
    pipeline_depth: usize,
    max_pipeline_depth: usize,
)
    requires
        block_size > 0,
        usable <= usize::MAX || available <= usize::MAX,
    ensures
        memory_plan(usable, available, workers, block_size, pipeline_depth, max_pipeline_depth)
            matches Ok(iov) ==> {
            &&& pipeline_depth * block_size <= iov
            &&& max_pipeline_depth * block_size <= iov
            &&& block_size <= iov
            &&& iov == block_size || iov * workers <= min_int(usable as int, available as int)
        },
{
    let block = block_size as int;
    let actual = min_int(usable as int, available as int);
    let iov = worker_iov_size(usable as int, available as int, workers as int, block);
    if workers > 0 {
        let w = workers as int;
        let share = actual / w;
        lemma_fundamental_div_mod(actual, w);
        assert(share * w <= actual && 0 <= share <= actual) by (nonlinear_arith)
            requires
                actual == w * share + actual % w,
                0 <= actual % w,
                w > 0,
                actual >= 0,
                share == actual / w,
        ;
        lemma_fundamental_div_mod(iov, block);
        let allowed = iov / block;
        if pipeline_depth <= allowed && max_pipeline_depth <= allowed {
            let p = pipeline_depth as int;
            let m = max_pipeline_depth as int;
            assert(p * block <= block * allowed && m * block <= block * allowed)
                by (nonlinear_arith)
                requires
                    p <= allowed,
                    m <= allowed,
                    block > 0,
            ;
            assert(0 <= iov % block);
        }
    }
}

/// A worker that has its part of the memory can copy every file, and keeps at
/// least as many requests in flight as the user asks for.
pub proof fn law_planned_worker_can_copy(
    usable: u64,
    available: u64,
    workers: usize,
    block_size: usize,
    pipeline_depth: usize,
    max_pipeline_depth: usize,
    worker: ContextView,
    file_size: int,
)
    requires
        block_size > 0,
        usable <= usize::MAX || available <= usize::MAX,
        1 <= max_pipeline_depth <= i32::MAX,
        memory_plan(usable, available, workers, block_size, pipeline_depth, max_pipeline_depth)
            is Ok,
        worker.limits == (DepthLimits {
            block_size,
            min_depth: pipeline_depth,
            max_depth: max_pipeline_depth,
            iov_size: memory_plan(
                usable,
                available,
                workers,
                block_size,
                pipeline_depth,
                max_pipeline_depth,
            )->Ok_0,
        }),
        0 <= file_size <= usize::MAX,
    ensures
        worker.can_copy(file_size),
        pipeline_depth <= max_pipeline_depth ==> pipeline_depth <= worker.limits.depth(file_size),
{
    law_memory_suffices(
        usable,
        available,
        workers,
        block_size,
        pipeline_depth,
        max_pipeline_depth,
    );
    law_depth_is_within_bounds(worker.limits, file_size);
}

/// What follows a comparison of the source with the target.
#[derive(Clone, Copy, Debug, PartialEq, Eq, Structural)]
pub enum VerifyStep {
    /// There is nothing to do.
    Done,
    /// The files that are wrong are copied again.
    Retransmit,
    /// The user has to be asked whether they are copied again.
    Ask,
}

/// What follows a comparison that found `issues` files to be wrong.
pub open spec fn verify_step(issues: usize, assume_yes: bool) -> VerifyStep {
    if issues == 0 {
        VerifyStep::Done
    } else if assume_yes {
        VerifyStep::Retransmit
    } else {
        VerifyStep::Ask
    }
}

/// What follows a comparison that found `issues` files to be wrong.
pub fn after_verification(issues: usize, assume_yes: bool) -> (r: VerifyStep)
    ensures
        r == verify_step(issues, assume_yes),
{
    if issues == 0 {
        VerifyStep::Done
    } else if assume_yes {
        VerifyStep::Retransmit
    } else {
        VerifyStep::Ask
    }
}

/// What the answer to the question means whether the files that are wrong are
/// copied again.
pub open spec fn retransmission(issues: usize, answer: Seq<char>) -> Result<(), SessionError> {
    if is_yes(trimmed(answer)) {
        Ok(())
    } else {
        Err(SessionError::NotRetransmitted { issues })
    }
}

/// Whether the user wants the files that are wrong to be copied again. If not,
/// that is how the copy ends.
pub fn answer_retransmit(issues: usize, answer: &str) -> (r: Result<(), SessionError>)
    ensures
        r == retransmission(issues, answer@),
{
    if is_affirmative(answer) {
        Ok(())
    } else {
        Err(SessionError::NotRetransmitted { issues })
    }
}

/// How many of `total` lines are shown where at most `limit` are, and how many
/// are not.
pub open spec fn shown(total: int, limit: int) -> (int, int) {
    (min_int(total, limit), total - min_int(total, limit))
}

/// How many of `total` lines are shown where at most `limit` are, and how many
/// are not.
pub fn shown_lines(total: usize, limit: usize) -> (r: (usize, usize))
    ensures
        (r.0 as int, r.1 as int) == shown(total as int, limit as int),
{
    if total <= limit {
        (total, 0)
    } else {
        (limit, total - limit)
    }
}

/// How often the files are gone through at most.
pub const MAX_RETRIES: usize = 3;

/// What follows when the tasks of a round were handed out.
#[derive(Clone, Copy, Debug, PartialEq, Eq, Structural)]
pub enum RoundStart {
    /// The workers are at work.
    Working,
    /// There is nothing to copy, and the copy is over.
    NothingToCopy,
    /// No file is left that failed.
    NothingToRetry,
}

/// What follows a round.
#[derive(Clone, Copy, Debug, PartialEq, Eq, Structural)]
pub enum RoundEnd {
    /// The user has broken the copy off.
    Interrupted,
    /// Every file was copied.
    Complete,
    /// Some files failed, and the user has to be asked whether they are tried
    /// again.
    Ask,
    /// Some files failed, and they have been tried often enough.
    Exhausted,
}

/// What the rounds of a copy have come to.
#[verifier::ext_equal]
pub struct RoundsView {
    pub retry_count: int,
}

impl RoundsView {
    pub open spec fn initial() -> Self {
        RoundsView { retry_count: 0 }
    }

    pub open spec fn wf(self) -> bool {
        0 <= self.retry_count < MAX_RETRIES
    }

    /// The first round copies all files, and the others those that failed.
    pub open spec fn is_first(self) -> bool {
        self.retry_count == 0
    }

    pub open spec fn begin(self, files: int) -> RoundStart {
        if files > 0 {
            RoundStart::Working
        } else if self.is_first() {
            RoundStart::NothingToCopy
        } else {
            RoundStart::NothingToRetry
        }
    }

    pub open spec fn end(self, interrupted: bool, failed: int) -> RoundEnd {
        if interrupted {
            RoundEnd::Interrupted
        } else if failed == 0 {
            RoundEnd::Complete
        } else if self.retry_count < MAX_RETRIES - 1 {
            RoundEnd::Ask
        } else {
            RoundEnd::Exhausted
        }
    }

    /// There is another round if the user wants one.
    pub open spec fn answered(self, answer: Seq<char>) -> (Self, bool) {
        if is_yes(trimmed(answer)) {
            (RoundsView { retry_count: self.retry_count + 1 }, true)
        } else {
            (self, false)
        }
    }

    /// How the copy ends.
    pub open spec fn outcome(self, failed: int) -> Result<(), SessionError> {
        if failed > 0 {
            Err(
                SessionError::FilesFailed {
                    files: failed as usize,
                    attempts: self.retry_count as usize,
                },
            )
        } else {
            Ok(())
        }
    }

    /// The rounds after the user was asked some times.
    pub open spec fn after(self, answers: Seq<Seq<char>>) -> Self
        decreases answers.len(),
    {
        if answers.len() == 0 {
            self
        } else {
            self.after(answers.drop_last()).answered(answers.last()).0
        }
    }

    /// The user was asked only where a round ended with the question.
    pub open spec fn asked_rightly(self, answers: Seq<Seq<char>>, failed: Seq<int>) -> bool {
        &&& failed.len() == answers.len()
        &&& forall|i: int|
            0 <= i < answers.len() ==> self.after(answers.take(i)).end(
                false,
                #[trigger] failed[i],
            ) == RoundEnd::Ask
    }
}

/// The rounds of a copy: the first one, and those for the files that failed.
pub struct CopyRounds {
    retry_count: usize,
}

impl View for CopyRounds {
    type V = RoundsView;

    closed spec fn view(&self) -> RoundsView {
        RoundsView { retry_count: self.retry_count as int }
    }
}

impl CopyRounds {
    /// The first round.
    pub fn new() -> (r: Self)
        ensures
            r@ == RoundsView::initial(),
            r@.wf(),
    {
        CopyRounds { retry_count: 0 }
    }

    /// How often the files that failed have been tried again.
    pub fn retry_count(&self) -> (r: usize)
        ensures
            r == self@.retry_count,
    {
        self.retry_count
    }

    /// What follows when the tasks for `files` files were handed out.
    pub fn begin(&self, files: usize) -> (r: RoundStart)
        ensures
            r == self@.begin(files as int),
    {
        if files > 0 {
            RoundStart::Working
        } else if self.retry_count == 0 {
            RoundStart::NothingToCopy
        } else {
            RoundStart::NothingToRetry
        }
    }

    /// What follows when the workers are done and `failed` files failed.
    pub fn end(&self, interrupted: bool, failed: usize) -> (r: RoundEnd)
        ensures
            r == self@.end(interrupted, failed as int),
    {
        if interrupted {
            RoundEnd::Interrupted
        } else if failed == 0 {
            RoundEnd::Complete
        } else if self.retry_count < MAX_RETRIES - 1 {
            RoundEnd::Ask
        } else {
            RoundEnd::Exhausted
        }
    }

    /// Takes the answer to the question whether the files that failed are tried
    /// again, and tells whether there is another round.
    pub fn answered(&mut self, answer: &str) -> (again: bool)
        requires
            old(self)@.retry_count < MAX_RETRIES - 1,
        ensures
            (final(self)@, again) == old(self)@.answered(answer@),
            final(self)@.wf(),
    {
        if is_affirmative(answer) {
            self.retry_count = self.retry_count + 1;
            true
        } else {
            false
        }
    }

    /// How the copy ends, where `failed` files failed.
    pub fn outcome(&self, failed: usize) -> (r: Result<(), SessionError>)
        ensures
            r == self@.outcome(failed as int),
    {
        if failed > 0 {
            Err(SessionError::FilesFailed { files: failed, attempts: self.retry_count })
        } else {
            Ok(())
        }
    }
}

/// The files are gone through at most three times, and again only as often as the
/// user wanted it.
pub proof fn law_rounds_are_limited(answers: Seq<Seq<char>>, failed: Seq<int>)
    requires
        RoundsView::initial().asked_rightly(answers, failed),
    ensures
        RoundsView::initial().after(answers).wf(),
        RoundsView::initial().after(answers).retry_count == answers.filter(
            |answer: Seq<char>| is_yes(trimmed(answer)),
        ).len(),
    decreases answers.len(),
{
    reveal(Seq::filter);
    let start = RoundsView::initial();
    if answers.len() > 0 {
        let front = answers.drop_last();
        let before = failed.drop_last();
        assert forall|i: int| 0 <= i < front.len() implies start.after(front.take(i)).end(
            false,
            #[trigger] before[i],
        ) == RoundEnd::Ask by {
            assert(front.take(i) =~= answers.take(i));
            assert(failed[i] == before[i]);
        }
        law_rounds_are_limited(front, before);
        assert(answers.take(answers.len() - 1) =~= front);
        assert(start.after(front).end(false, failed[failed.len() - 1]) == RoundEnd::Ask);
    }
}

} // verus!
