//! What holds of the plan for the copy of one file, and of what is counted of it.

use crate::copier::{CopierPlanView, CopierView};
use crate::depth::law_depth_is_within_bounds;
use crate::pipeline::{ProcessorView, RunPhase};
use crate::ring::PipelineError;
use crate::worker_context::{ContextView, CopyPlanView};
use crate::worker_pipeline::WorkerPhase;
use vstd::prelude::*;

verus! {

/// A worker sends a file through the pipeline exactly if there is something to copy, and
/// sets the permissions exactly if that is wanted, whether there is or not. The pipeline
/// works with the sizes of the worker, from the beginning of the file, and its ring holds
/// as many requests as it keeps in flight and works in batches of that many.
pub proof fn law_worker_plans_every_file(worker: ContextView, file_size: int)
    requires
        file_size >= 0,
        worker.can_copy(file_size),
    ensures
        match worker.plan(file_size) {
            CopyPlanView::Empty { set_permissions } => {
                &&& file_size == 0
                &&& set_permissions <==> worker.preserve_attrs
            },
            CopyPlanView::Pipelined { ring, pipeline, set_permissions } => {
                &&& file_size > 0
                &&& set_permissions <==> worker.preserve_attrs
                &&& pipeline.file_size == file_size
                &&& pipeline.block_size == worker.limits.block_size
                &&& pipeline.iov_size == worker.limits.iov_size
                &&& 1 <= pipeline.depth <= worker.limits.max_depth
                &&& pipeline.completed == 0 && pipeline.src_offset == 0
                &&& pipeline.phase == WorkerPhase::Start
                &&& !ring.for_read
                &&& ring.entries == pipeline.depth
                &&& ring.io_depth == -pipeline.depth
            },
        },
{
    law_depth_is_within_bounds(worker.limits, file_size);
}

/// A copier sends a file through the pipeline exactly if there is something to copy, and
/// sets the permissions exactly if that is wanted, whether there is or not. The pipeline
/// has the buffer that the copier makes for the file, and is told what the copier was told.
pub proof fn law_copier_plans_every_file(copier: CopierView, file_size: int)
    requires
        0 <= file_size <= usize::MAX,
        0 <= copier.block_size <= usize::MAX,
        0 <= copier.min_pipeline_depth <= usize::MAX,
        0 <= copier.max_pipeline_depth <= usize::MAX,
        0 <= copier.max_iov_size <= usize::MAX,
    ensures
        match copier.plan(file_size) {
            CopierPlanView::Empty { set_permissions } => {
                &&& file_size == 0
                &&& set_permissions <==> copier.preserve_attrs
            },
            CopierPlanView::Pipelined { iov_size, processor, set_permissions } => {
                &&& file_size > 0
                &&& set_permissions <==> copier.preserve_attrs
                &&& iov_size == processor.limits.iov_size
                &&& iov_size == copier.iov_size(file_size)
                &&& processor.limits.block_size == copier.block_size
                &&& processor.limits.min_depth == copier.min_pipeline_depth
                &&& processor.limits.max_depth == copier.max_pipeline_depth
                &&& processor.mount_point == copier.mount_point
                &&& processor.debug == copier.debug
            },
        },
{
}

/// A run starts exactly if at least one request is allowed. It works with the sizes of the
/// processor, from the beginning of the file and from the time at which it starts, and its
/// ring holds as many requests as it keeps in flight and works in batches of that many.
pub proof fn law_run_starts_if_it_can(processor: ProcessorView, file_size: int, now: int)
    requires
        file_size >= 0,
        processor.can_copy(file_size),
    ensures
        match processor.started(file_size, now) {
            Err(e) => e == PipelineError::ZeroDepth && processor.limits.max_depth == 0,
            Ok((ring, run)) => {
                &&& processor.limits.max_depth > 0 || processor.limits.iov_size
                    < processor.limits.block_size
                &&& run.file_size == file_size
                &&& run.block_size == processor.limits.block_size
                &&& run.iov_size == processor.limits.iov_size
                &&& run.depth == processor.limits.depth(file_size)
                &&& run.depth >= 1
                &&& run.completed == 0 && run.src_offset == 0
                &&& run.last_progress == now
                &&& run.phase == RunPhase::Start
                &&& !ring.for_read
                &&& ring.entries == run.depth
                &&& ring.io_depth == -run.depth
            },
        },
{
    let limits = processor.limits;
    if limits.max_depth >= 1 {
        law_depth_is_within_bounds(limits, file_size);
    }
    crate::depth_laws::law_depth_is_the_most_that_is_allowed(limits, file_size);
}

/// Bytes that were copied are added up, and nothing else changes. Only a count that gets
/// too large begins anew.
pub proof fn law_bytes_are_added_up(copier: CopierView, a: u64, b: u64)
    ensures
        copier.stats.bytes_copied + a <= u64::MAX ==> copier.with_bytes(a).stats.bytes_copied
            == copier.stats.bytes_copied + a,
        copier.with_bytes(a).stats.files_copied == copier.stats.files_copied,
        copier.with_bytes(a).with_bytes(b) == copier.with_bytes(b).with_bytes(a),
        copier.with_bytes(0) == copier,
        (CopierView { stats: copier.stats, ..copier.with_bytes(a) }) == copier,
{
}

/// A file counts exactly if it was copied and there was something to copy, and the bytes
/// do not change by that.
pub proof fn law_files_are_counted(copier: CopierView, file_size: u64, copied: bool)
    ensures
        !copied || file_size == 0 ==> copier.with_file(file_size, copied) == copier,
        copied && file_size > 0 && copier.stats.files_copied < u64::MAX ==> copier.with_file(
            file_size,
            copied,
        ).stats.files_copied == copier.stats.files_copied + 1,
        copier.with_file(file_size, copied).stats.bytes_copied == copier.stats.bytes_copied,
        (CopierView { stats: copier.stats, ..copier.with_file(file_size, copied) }) == copier,
{
}

/// Details are shown exactly if they are wanted and there is a place for them, each behind
/// its mark.
pub proof fn law_details_are_shown_if_wanted(copier: CopierView, message: Seq<char>)
    ensures
        copier.debug_line(message) is Some <==> copier.debug && copier.show_progress,
        copier.debug_line(message) matches Some(line) ==> {
            &&& line.len() == 8 + message.len()
            &&& line.take(8) == "[DEBUG] "@
            &&& line.skip(8) == message
        },
{
    reveal_strlit("[DEBUG] ");
    let line = "[DEBUG] "@ + message;
    assert(line.take(8) =~= "[DEBUG] "@);
    assert(line.skip(8) =~= message);
}

/// The words for an error begin with what failed. Those who do not want the details learn
/// the rest and not where it happened; those who want them learn that at the end.
pub proof fn law_error_begins_with_what_failed(
    copier: CopierView,
    prefix: Seq<char>,
    context: Seq<char>,
    backtrace: Seq<char>,
    other: Seq<char>,
)
    ensures
        ({
            let text = copier.error_text(prefix, context, backtrace);
            &&& text.take(prefix.len() as int) == prefix
            &&& !copier.debug ==> {
                &&& text == copier.error_text(prefix, context, other)
                &&& text.skip(text.len() - context.len()) == context
                &&& text.len() == prefix.len() + 2 + context.len()
            }
            &&& copier.debug ==> {
                &&& text.skip(text.len() - backtrace.len()) == backtrace
                &&& text.skip(prefix.len() as int).take(9 + context.len() as int)
                    == "\n[DEBUG] "@ + context
            }
        }),
{
    reveal_strlit(": ");
    reveal_strlit("\n[DEBUG] ");
    reveal_strlit("\nBacktrace:\n");
    let text = copier.error_text(prefix, context, backtrace);
    assert(text.take(prefix.len() as int) =~= prefix);
    if copier.debug {
        assert(text.skip(text.len() - backtrace.len()) =~= backtrace);
        assert(text.skip(prefix.len() as int).take(9 + context.len() as int)
            =~= "\n[DEBUG] "@ + context);
    } else {
        assert(text.skip(text.len() - context.len()) =~= context);
    }
}

} // verus!
