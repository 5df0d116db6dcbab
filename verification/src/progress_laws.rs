//! What holds of the progress of a copy: how it begins, what a marking changes, and
//! where it is kept.

use crate::path::{below, components, joined};
use crate::path_laws::{law_name_is_one_more_component, law_text_leads_to_the_same_path};
use crate::progress::{beginning, progress_file, Beginning, LoadOutcome, ManagerView, PROGRESS_FILE};
use crate::task::{lies_below, walked_task};
use vstd::prelude::*;
use vstd::utf8::{encode_utf8, is_ascii_chars, is_ascii_chars_encode_utf8, valid_utf8};

verus! {

/// The manager begins a copy of `total_files` files from `source` to `target` at the
/// time `now` from the start: it knows no file as copied and none as failed.
pub open spec fn begins_anew(
    manager: ManagerView,
    source: Seq<u8>,
    target: Seq<u8>,
    total_files: int,
    now: int,
) -> bool {
    &&& manager.state matches Some(state)
    &&& state.source == source
    &&& state.target == target
    &&& state.total_files == total_files
    &&& state.created_at == now
    &&& state.updated_at == now
    &&& forall|path: Seq<char>| !#[trigger] state.completed.contains(path)
    &&& forall|path: Seq<char>| !#[trigger] state.failed.contains(path)
    &&& manager.save_counter == 0
}

/// Progress is kept exactly if it is wanted and there are more than a hundred files.
pub proof fn law_progress_is_kept_for_many_files(
    source: Seq<u8>,
    target: Seq<u8>,
    total_files: int,
    enable_resume: bool,
    found: LoadOutcome,
    now: int,
)
    ensures
        ManagerView::begun(source, target, total_files, enable_resume, found, now).state is Some
            <==> enable_resume && total_files > 100,
{
}

/// A copy that finds the progress of a copy from another source or to another
/// target begins anew: it knows no file as copied and none as failed, and its state
/// names its own source, target and number of files.
pub proof fn law_other_progress_is_not_taken_over(
    source: Seq<u8>,
    target: Seq<u8>,
    total_files: int,
    found: LoadOutcome,
    now: int,
)
    requires
        total_files > 100,
        found matches LoadOutcome::Loaded(state) && (components(state@.source) != components(source)
            || components(state@.target) != components(target)),
    ensures
        begins_anew(
            ManagerView::begun(source, target, total_files, true, found, now),
            source,
            target,
            total_files,
            now,
        ),
        beginning(source, target, total_files, true, found) == Beginning::OtherPaths,
{
}

/// A copy that finds no progress, or none that can be read, begins anew.
pub proof fn law_copy_without_progress_begins_anew(
    source: Seq<u8>,
    target: Seq<u8>,
    total_files: int,
    found: LoadOutcome,
    now: int,
)
    requires
        total_files > 100,
        found is Absent || found is Unreadable,
    ensures
        begins_anew(
            ManagerView::begun(source, target, total_files, true, found, now),
            source,
            target,
            total_files,
            now,
        ),
        beginning(source, target, total_files, true, found) == Beginning::Fresh <==> found
            is Absent,
        beginning(source, target, total_files, true, found) == Beginning::Unreadable <==> found
            is Unreadable,
{
}

/// A copy that finds the progress of a copy between the same places goes on with it,
/// just as it was found.
pub proof fn law_own_progress_is_taken_over(
    source: Seq<u8>,
    target: Seq<u8>,
    total_files: int,
    found: LoadOutcome,
    now: int,
)
    requires
        total_files > 100,
        found matches LoadOutcome::Loaded(state) && components(state@.source) == components(source)
            && components(state@.target) == components(target),
    ensures
        ManagerView::begun(source, target, total_files, true, found, now).state == Some(
            found->Loaded_0@,
        ),
        ManagerView::begun(source, target, total_files, true, found, now).save_counter == 0,
        beginning(source, target, total_files, true, found) == Beginning::Resumed,
{
}

/// Marking a file as copied makes it known and nothing else: no other file becomes
/// known, and neither the files that failed nor the places, the number of files or
/// the time of the beginning change.
pub proof fn law_marking_as_copied_changes_one_file(
    manager: ManagerView,
    path: Seq<char>,
    other: Seq<char>,
    now: int,
)
    ensures
        match (manager.state, manager.completing(path, now).0.state) {
            (Some(before), Some(after)) => {
                &&& after.completed.contains(other) <==> other == path || before.completed.contains(
                    other,
                )
                &&& after.failed == before.failed
                &&& after.source == before.source
                &&& after.target == before.target
                &&& after.total_files == before.total_files
                &&& after.created_at == before.created_at
                &&& after.updated_at == now
            },
            (before, after) => before is None && after is None,
        },
        manager.completing(path, now).0.progress_file == manager.progress_file,
{
}

/// Marking a file as failed makes it count as failed and nothing else.
pub proof fn law_marking_as_failed_changes_one_file(
    manager: ManagerView,
    path: Seq<char>,
    other: Seq<char>,
    now: int,
)
    ensures
        match (manager.state, manager.failing(path, now).0.state) {
            (Some(before), Some(after)) => {
                &&& after.failed.contains(other) <==> other == path || before.failed.contains(other)
                &&& after.completed == before.completed
                &&& after.source == before.source
                &&& after.target == before.target
                &&& after.total_files == before.total_files
                &&& after.created_at == before.created_at
                &&& after.updated_at == now
            },
            (before, after) => before is None && after is None,
        },
        manager.failing(path, now).0.progress_file == manager.progress_file,
{
}

/// A marking makes the progress be saved exactly if nine have come before it since
/// it was last saved, and only where progress is kept.
pub proof fn law_every_tenth_marking_saves(manager: ManagerView, path: Seq<char>, now: int)
    requires
        0 <= manager.save_counter < 10,
    ensures
        manager.completing(path, now).1 <==> manager.state is Some && manager.save_counter == 9,
        manager.failing(path, now).1 <==> manager.state is Some && manager.save_counter == 9,
        manager.completing(path, now).1 ==> manager.completing(path, now).0.save_counter == 0,
        manager.failing(path, now).1 ==> manager.failing(path, now).0.save_counter == 0,
        manager.state is Some && !manager.completing(path, now).1 ==> manager.completing(
            path,
            now,
        ).0.save_counter == manager.save_counter + 1,
        manager.state is Some && !manager.failing(path, now).1 ==> manager.failing(
            path,
            now,
        ).0.save_counter == manager.save_counter + 1,
{
}

/// Forgetting failures, or setting the number of files, leaves the files that were
/// copied as they are.
pub proof fn law_failures_are_apart_from_copies(
    manager: ManagerView,
    failed: Set<Seq<char>>,
    total: int,
)
    ensures
        manager.with_failed(failed).state is Some <==> manager.state is Some,
        manager.with_total(total).state is Some <==> manager.state is Some,
        manager.state matches Some(state) ==> {
            &&& manager.with_failed(failed).failed() == failed
            &&& manager.with_failed(failed).state->Some_0.completed == state.completed
            &&& manager.with_failed(failed).state->Some_0.total_files == state.total_files
            &&& manager.with_failed(failed).state->Some_0.updated_at == state.updated_at
            &&& manager.with_failed(failed).save_counter == manager.save_counter
            &&& manager.with_total(total).state->Some_0.total_files == total
            &&& manager.with_total(total).state->Some_0.completed == state.completed
            &&& manager.with_total(total).failed() == state.failed
            &&& manager.with_total(total).state->Some_0.updated_at == state.updated_at
            &&& manager.with_total(total).save_counter == manager.save_counter
        },
{
}

/// A file that recovers no longer counts as failed, and the others still do. After all is
/// forgiven none does. Neither changes anything else.
pub proof fn law_recovering_changes_one_file(
    manager: ManagerView,
    path: Seq<char>,
    other: Seq<char>,
)
    ensures
        manager.recovering(path).failed().contains(other) <==> other != path
            && manager.failed().contains(other),
        !manager.forgiving().failed().contains(other),
        manager.recovering(path).with_failed(manager.failed()) == manager,
        manager.forgiving().with_failed(manager.failed()) == manager,
{
}

/// A file that has just been marked as copied is not copied again as long as it is
/// there, and is copied again once it is gone. A file that was never marked is
/// copied whether it is there or not, and so is every file where no progress is kept.
pub proof fn law_what_was_copied_is_left_out(
    manager: ManagerView,
    path: Seq<char>,
    other: Seq<char>,
    now: int,
    target_exists: bool,
)
    requires
        manager.state is Some,
    ensures
        manager.completing(path, now).0.needs(path, target_exists) <==> !target_exists,
        other != path ==> manager.completing(path, now).0.needs(other, target_exists)
            == manager.needs(other, target_exists),
        manager.failing(path, now).0.needs(other, target_exists) == manager.needs(
            other,
            target_exists,
        ),
        manager.state->Some_0.completed == Set::<Seq<char>>::empty() ==> manager.needs(
            other,
            target_exists,
        ),
{
}

/// Where no progress is kept, every file is copied, and no file decides about it.
pub proof fn law_all_is_copied_without_progress(
    manager: ManagerView,
    path: Seq<char>,
    target_exists: bool,
)
    requires
        manager.state is None,
    ensures
        manager.needs(path, target_exists),
        manager.decided_by(path) is None,
{
}

/// The file that decides whether a file is copied again is the one that its task
/// writes.
pub proof fn law_copy_itself_decides(
    manager: ManagerView,
    path: Seq<u8>,
    source: Seq<u8>,
    size: int,
    now: int,
)
    requires
        manager.state is Some,
        lies_below(path, source),
        valid_utf8(below(path, source)),
    ensures
        ({
            let task = walked_task(path, source, manager.state->Some_0.target, size);
            manager.completing(task.relative_path, now).0.decided_by(task.relative_path) == Some(
                task.dst_path,
            )
        }),
{
    law_text_leads_to_the_same_path(manager.state->Some_0.target, below(path, source));
}

/// The progress is kept in a file of its own name right below the target, wherever
/// the copy comes from.
pub proof fn law_progress_is_kept_at_the_target(
    source: Seq<u8>,
    target: Seq<u8>,
    total_files: int,
    enable_resume: bool,
    found: LoadOutcome,
    now: int,
)
    ensures
        components(
            ManagerView::begun(source, target, total_files, enable_resume, found, now).progress_file,
        ) == components(target).push(encode_utf8(".cp-with-usrbio-progress.json"@)),
{
    reveal_strlit(".cp-with-usrbio-progress.json");
    let text = PROGRESS_FILE@;
    assert(is_ascii_chars(text));
    is_ascii_chars_encode_utf8(text);
    let name = encode_utf8(text);
    assert(name.len() > 1);
    assert forall|i: int| 0 <= i < name.len() implies #[trigger] name[i] != crate::path::SLASH by {
        assert(text[i] as u8 == name[i]);
    }
    law_name_is_one_more_component(target, name);
    assert(progress_file(target) == joined(target, name));
}

/// Marking a file that was not marked before counts one more of its kind and nothing
/// else, and marking it once more counts nothing.
pub proof fn law_markings_are_counted(manager: ManagerView, path: Seq<char>, now: int)
    requires
        manager.state matches Some(state) && state.completed.finite() && state.failed.finite(),
    ensures
        ({
            let state = manager.state->Some_0;
            let (done, failed, total) = manager.stats()->Some_0;
            let copied = manager.completing(path, now).0.stats();
            let lost = manager.failing(path, now).0.stats();
            let is_new_copy = !state.completed.contains(path);
            let is_new_failure = !state.failed.contains(path);
            &&& copied == Some((done + is_new_copy as int, failed, total))
            &&& lost == Some((done, failed + is_new_failure as int, total))
        }),
{
}

/// A copy that begins anew has nothing counted but its files, and what it saves goes to
/// the file that it keeps its progress in.
pub proof fn law_stats_begin_with_nothing(
    manager: ManagerView,
    source: Seq<u8>,
    target: Seq<u8>,
    total_files: int,
    now: int,
)
    requires
        begins_anew(manager, source, target, total_files, now),
    ensures
        manager.stats() == Some((0int, 0int, total_files)),
        manager.saved() == Some((manager.progress_file, manager.state->Some_0)),
{
    let state = manager.state->Some_0;
    assert(state.completed =~= Set::<Seq<char>>::empty());
    assert(state.failed =~= Set::<Seq<char>>::empty());
}

/// What is saved, once it is found again, is what the copy goes on with.
pub proof fn law_what_is_saved_is_found_again(
    manager: ManagerView,
    found: LoadOutcome,
    total_files: int,
    now: int,
)
    requires
        total_files > 100,
        manager.saved() is Some,
        found matches LoadOutcome::Loaded(state) && state@ == manager.saved()->Some_0.1,
    ensures
        ({
            let source = manager.state->Some_0.source;
            let target = manager.state->Some_0.target;
            ManagerView::begun(source, target, total_files, true, found, now).state == manager.state
        }),
{
}

} // verus!
