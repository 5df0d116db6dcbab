//! What holds of the plans for a source and for what is found below it, told in
//! the components of the paths.

use crate::path::{below, components, has_file_name, joined, SLASH};
use crate::path_laws::{
    law_beginning_of_a_path, law_name_is_one_more_component, law_text_leads_to_the_same_path,
};
use crate::task::{
    entry_plan, repeated_task, sent_tasks, single_name, single_task, source_plan, EntryKind,
    EntryView, PlanView, SourceKind, SourcePlan, TaskError,
};
use crate::task_laws::law_copy_keeps_the_shape;
use vstd::prelude::*;
use vstd::utf8::{decode_utf8, decode_utf8_encode_utf8, encode_utf8, valid_utf8};

verus! {

/// The components of the copy of `path`: those of the target, followed by those of
/// the path behind the source.
pub open spec fn copied_components(
    path: Seq<u8>,
    source: Seq<u8>,
    target: Seq<u8>,
) -> Seq<Seq<u8>> {
    components(target) + components(path).skip(components(source).len() as int)
}

/// For a directory below the source a directory is made that has the components of
/// the target, followed by those of the path below the source. A directory
/// elsewhere is an error.
pub proof fn law_directory_is_made_at_its_place(
    entry: EntryView,
    source: Seq<u8>,
    target: Seq<u8>,
)
    requires
        source.len() > 0,
        entry.kind == EntryKind::Directory,
    ensures
        match entry_plan(entry, source, target) {
            Ok(plan) => {
                &&& components(source).is_prefix_of(components(entry.path))
                &&& plan matches PlanView::CreateDirectory { path } && components(path)
                    == copied_components(entry.path, source, target)
            },
            Err(e) => {
                &&& !components(source).is_prefix_of(components(entry.path))
                &&& e == TaskError::OutsideSource
            },
        },
{
    if components(source).is_prefix_of(components(entry.path)) {
        law_copy_keeps_the_shape(entry.path, source, target);
    }
}

/// A file below the source is read where it is found and goes to the path that has
/// the components of the target, followed by those of the path below the source.
/// Its size is the one that was read, and its relative path leads from the target
/// to its copy. A file elsewhere, or of unknown size, is an error.
pub proof fn law_file_is_copied_to_its_place(entry: EntryView, source: Seq<u8>, target: Seq<u8>)
    requires
        source.len() > 0,
        entry.kind == EntryKind::File,
    ensures
        match entry_plan(entry, source, target) {
            Ok(plan) => {
                &&& components(source).is_prefix_of(components(entry.path))
                &&& entry.size is Some
                &&& plan matches PlanView::Copy { task } && {
                    &&& task.src_path == entry.path
                    &&& components(task.dst_path) == copied_components(entry.path, source, target)
                    &&& task.file_size == entry.size->Some_0
                    &&& valid_utf8(below(entry.path, source)) ==> joined(
                        target,
                        encode_utf8(task.relative_path),
                    ) == task.dst_path
                }
            },
            Err(e) => {
                &&& e == TaskError::OutsideSource || e == TaskError::SourceUnreadable
                &&& e == TaskError::OutsideSource <==> !components(source).is_prefix_of(
                    components(entry.path),
                )
                &&& e == TaskError::SourceUnreadable ==> entry.size is None
            },
        },
{
    if components(source).is_prefix_of(components(entry.path)) {
        law_copy_keeps_the_shape(entry.path, source, target);
        if valid_utf8(below(entry.path, source)) {
            law_text_leads_to_the_same_path(target, below(entry.path, source));
        }
    }
}

/// What is neither a file nor a directory is left alone, wherever it lies, and
/// nothing else is.
pub proof fn law_only_files_and_directories_count(
    entry: EntryView,
    source: Seq<u8>,
    target: Seq<u8>,
)
    ensures
        entry_plan(entry, source, target) == Ok::<PlanView, TaskError>(PlanView::Skip)
            <==> entry.kind != EntryKind::File && entry.kind != EntryKind::Directory,
{
}

/// The directory that is made for the directory around a file is the one around
/// the copy of the file.
pub proof fn law_directory_is_made_around_its_files(
    directory: EntryView,
    file: EntryView,
    source: Seq<u8>,
    target: Seq<u8>,
)
    requires
        source.len() > 0,
        directory.kind == EntryKind::Directory,
        file.kind == EntryKind::File,
        file.size is Some,
        components(file.path).len() > 0,
        components(directory.path) == components(file.path).drop_last(),
        components(source).is_prefix_of(components(directory.path)),
    ensures
        ({
            let made = entry_plan(directory, source, target);
            let copied = entry_plan(file, source, target);
            &&& made matches Ok(PlanView::CreateDirectory { path })
            &&& copied matches Ok(PlanView::Copy { task })
            &&& components(path) == components(task.dst_path).drop_last()
        }),
{
    let s = components(source);
    let d = components(directory.path);
    let f = components(file.path);
    assert(s.is_prefix_of(f)) by {
        assert(d.subrange(0, s.len() as int) =~= f.subrange(0, s.len() as int));
    }
    law_directory_is_made_at_its_place(directory, source, target);
    law_file_is_copied_to_its_place(file, source, target);
    let k = s.len() as int;
    assert((components(target) + f.skip(k)).drop_last() =~= components(target) + d.skip(k));
}

/// A source is taken as it is exactly if it is a file, and walked through exactly
/// if it is a directory and that is allowed. A source that is missing is an error,
/// and so is a directory that must not be walked through.
pub proof fn law_source_is_taken_by_its_kind(kind: SourceKind, recursive: bool)
    ensures
        source_plan(kind, recursive) == Ok::<SourcePlan, TaskError>(SourcePlan::Single) <==> kind
            == SourceKind::File,
        source_plan(kind, recursive) == Ok::<SourcePlan, TaskError>(SourcePlan::Walk) <==> kind
            == SourceKind::Directory && recursive,
        source_plan(kind, recursive) == Err::<SourcePlan, TaskError>(TaskError::SourceMissing)
            <==> kind == SourceKind::Missing,
        source_plan(kind, recursive) == Err::<SourcePlan, TaskError>(TaskError::NotRecursive)
            <==> kind == SourceKind::Directory && !recursive,
{
}

/// A source that is a file makes one task: from the source itself to the target
/// itself, with the size that was read, and known by the last name in its path
/// where that is text.
pub proof fn law_single_file_goes_to_the_target(
    source: Seq<u8>,
    target: Seq<u8>,
    recursive: bool,
    size: Option<u64>,
    entries: Seq<EntryView>,
)
    ensures
        match sent_tasks(source, target, SourceKind::File, recursive, size, entries) {
            Ok(tasks) => {
                &&& size is Some
                &&& tasks.len() == 1
                &&& tasks[0].src_path == source
                &&& tasks[0].dst_path == target
                &&& tasks[0].file_size == size->Some_0
                &&& has_file_name(source) && valid_utf8(components(source).last()) ==> encode_utf8(
                    tasks[0].relative_path,
                ) == components(source).last()
            },
            Err(e) => size is None && e == TaskError::SourceUnreadable,
        },
{
    if size is Some {
        let task = single_task(source, target, size->Some_0 as int);
        if has_file_name(source) && valid_utf8(components(source).last()) {
            decode_utf8_encode_utf8(components(source).last());
            assert(task.relative_path == decode_utf8(components(source).last()));
        }
    }
}

/// A task that is done once more reads below the source and writes below the
/// target under the same name, and leaves the size to be read again.
pub proof fn law_repeated_task_goes_by_its_name(
    source: Seq<u8>,
    target: Seq<u8>,
    name: Seq<char>,
)
    ensures
        ({
            let task = repeated_task(source, target, name);
            &&& task.relative_path == name
            &&& task.file_size == 0
            &&& task.src_path == joined(source, encode_utf8(task.relative_path))
            &&& task.dst_path == joined(target, encode_utf8(task.relative_path))
        }),
{
}

/// A file in a directory is known by its name alone, where that is text.
pub proof fn law_single_file_is_known_by_its_name(directory: Seq<u8>, name: Seq<u8>)
    requires
        name.len() > 0,
        !name.contains(47u8),
        name != seq![46u8],
        name != seq![46u8, 46u8],
        valid_utf8(name),
    ensures
        encode_utf8(single_name(joined(directory, name))) == name,
        encode_utf8(single_name(name)) == name,
{
    law_name_is_one_more_component(directory, name);
    law_beginning_of_a_path(name);
    decode_utf8_encode_utf8(name);
    assert(!name.contains(SLASH));
    assert(name != seq![SLASH]) by {
        if name == seq![SLASH] {
            assert(name[0] == SLASH);
            assert(name.contains(SLASH));
        }
    }
    assert(components(name).last() == name);
}

} // verus!
