//! What a worker does next, told in what came out of the step before.

use crate::task::TaskView;
use crate::worker_context::{answers, carried, next_step, ReportView, StepView};
use vstd::prelude::*;

verus! {

/// What a worker does next follows from the report alone. It stops exactly if the copy
/// was broken off or there are no more tasks, and leaves a task behind exactly if it had
/// one. It copies only a file that is wanted, while the copy goes on, and marks it by
/// what came of that.
pub proof fn law_worker_goes_by_its_reports(step: StepView, report: ReportView)
    requires
        answers(step, report),
    ensures
        ({
            let next = next_step(step, report);
            &&& next is Stop <==> report is Interrupted || report is Closed
            &&& (next matches StepView::Stop { interrupted } ==> (interrupted <==> carried(step)
                is Some))
            &&& next is Sleep <==> report is NoTask
            &&& (next matches StepView::Sleep { millis } ==> millis == 10)
            &&& next is Consult <==> report is Task
            &&& next is Recheck <==> report is Wanted
            &&& next is Copy <==> report is Running
            &&& next is MarkCompleted <==> report is Copied
            &&& next is MarkFailed <==> report is NotCopied
            &&& next is Receive <==> report is Unwanted || report is Done
        }),
{
}

/// A worker never mixes up its tasks: it takes the one that it was given, keeps it until
/// it is done with it, and carries none otherwise.
pub proof fn law_worker_keeps_its_task(step: StepView, report: ReportView, task: TaskView)
    requires
        answers(step, report),
    ensures
        report == (ReportView::Task { task }) ==> carried(next_step(step, report)) == Some(task),
        carried(step) == Some(task) ==> carried(next_step(step, report)) == Some(task) || carried(
            next_step(step, report),
        ) is None,
        carried(step) is None && !(report is Task) ==> carried(next_step(step, report)) is None,
        carried(step) is Some ==> (carried(next_step(step, report)) is Some <==> report is Wanted
            || report is Running || report is Copied || report is NotCopied),
{
}

} // verus!
