//! What holds of the files that are copied, and of the comparison with their
//! copies.

use crate::path::{below, components, text_or_unknown};
use crate::path_laws::{
    law_below_and_joined, law_below_keeps_names, law_text_leads_to_the_same_path,
};
use crate::task::{
    collected_tasks, destination, handed_out, lies_below, picked, repeated_task, sent_tasks,
    verified, walked_task, walked_tasks, EntryKind, EntryView, ProbeView, SourceKind, TaskError,
    TaskView, WalkView,
};
use vstd::prelude::*;
use vstd::utf8::valid_utf8;

verus! {

/// The copy of a directory has the same shape: what lies below the source lies
/// below the target under the same names.
pub proof fn law_copy_keeps_the_shape(path: Seq<u8>, source: Seq<u8>, target: Seq<u8>)
    requires
        source.len() > 0,
        lies_below(path, source),
    ensures
        components(destination(path, source, target)) == components(target) + components(path).skip(
            components(source).len() as int,
        ),
        lies_below(destination(path, source, target), target),
{
    law_below_keeps_names(path, source, target);
    assert(components(target) =~= components(destination(path, source, target)).subrange(
        0,
        components(target).len() as int,
    ));
}

/// Two files of the source never go to the same place.
pub proof fn law_destinations_are_distinct(
    a: Seq<u8>,
    b: Seq<u8>,
    source: Seq<u8>,
    target: Seq<u8>,
)
    requires
        source.len() > 0,
        lies_below(a, source),
        lies_below(b, source),
        components(destination(a, source, target)) == components(destination(b, source, target)),
    ensures
        components(a) == components(b),
{
    law_copy_keeps_the_shape(a, source, target);
    law_copy_keeps_the_shape(b, source, target);
    let k = components(source).len() as int;
    let t = components(target);
    let ra = components(a).skip(k);
    let rb = components(b).skip(k);
    assert((t + ra).skip(t.len() as int) =~= ra);
    assert((t + rb).skip(t.len() as int) =~= rb);
    assert(components(a) =~= components(source) + ra);
    assert(components(b) =~= components(source) + rb);
}

/// A file that is copied again, known by its relative path alone, is read from
/// the same place and goes to the same place as the first time. Only a path
/// that is not text is lost.
pub proof fn law_repeated_task_is_the_same(
    path: Seq<u8>,
    source: Seq<u8>,
    target: Seq<u8>,
    size: int,
)
    requires
        lies_below(path, source),
        valid_utf8(below(path, source)),
    ensures
        ({
            let first = walked_task(path, source, target, size);
            let again = repeated_task(source, target, first.relative_path);
            &&& components(again.src_path) == components(first.src_path)
            &&& again.dst_path == first.dst_path
            &&& again.relative_path == first.relative_path
        }),
{
    let rel = below(path, source);
    law_text_leads_to_the_same_path(source, rel);
    law_text_leads_to_the_same_path(target, rel);
    law_below_and_joined(path, source);
}

/// The entry is a file.
pub open spec fn is_file(entry: EntryView) -> bool {
    entry.kind == EntryKind::File
}

/// The file can be copied: it lies below the source and its size is known.
pub open spec fn is_sound(entry: EntryView, source: Seq<u8>) -> bool {
    is_file(entry) ==> lies_below(entry.path, source) && entry.size is Some
}

/// Where every file can be copied, every file gets its task, in the order in
/// which the files were found, and nothing else gets one.
pub proof fn law_every_file_gets_its_task(
    entries: Seq<EntryView>,
    source: Seq<u8>,
    target: Seq<u8>,
)
    ensures
        walked_tasks(entries, source, target) is Ok <==> forall|i: int|
            0 <= i < entries.len() ==> is_sound(#[trigger] entries[i], source),
        walked_tasks(entries, source, target) matches Ok(tasks) ==> tasks == entries.filter(
            |entry: EntryView| is_file(entry),
        ).map_values(
            |entry: EntryView|
                walked_task(entry.path, source, target, entry.size->Some_0 as int),
        ),
    decreases entries.len(),
{
    reveal(Seq::filter);
    let keep = |entry: EntryView| is_file(entry);
    let task = |entry: EntryView|
        walked_task(entry.path, source, target, entry.size->Some_0 as int);
    if entries.len() > 0 {
        let front = entries.drop_last();
        let last = entries.last();
        law_every_file_gets_its_task(front, source, target);
        assert(entries[entries.len() - 1] == last);
        assert forall|i: int| 0 <= i < front.len() implies #[trigger] entries[i] == front[i] by {}
        if walked_tasks(front, source, target) is Ok {
            if is_sound(last, source) {
                assert forall|i: int| 0 <= i < entries.len() implies is_sound(
                    #[trigger] entries[i],
                    source,
                ) by {
                    if i < front.len() {
                        assert(is_sound(front[i], source));
                    }
                }
            }
        } else {
            let i = choose|i: int|
                0 <= i < front.len() && !is_sound(#[trigger] front[i], source);
            assert(!is_sound(entries[i], source));
        }
        let kept = front.filter(keep);
        assert(kept.push(last).map_values(task) =~= kept.map_values(task).push(task(last)));
    } else {
        assert(entries.filter(keep).map_values(task) =~= Seq::<TaskView>::empty());
    }
}

/// The first file that cannot be copied tells why: it lies outside the source, or else its
/// size is not known.
pub proof fn law_first_file_that_fails_tells_why(
    entries: Seq<EntryView>,
    n: int,
    source: Seq<u8>,
    target: Seq<u8>,
)
    requires
        0 <= n < entries.len(),
        forall|i: int| 0 <= i < n ==> is_sound(#[trigger] entries[i], source),
        is_file(entries[n]),
        !lies_below(entries[n].path, source) || entries[n].size is None,
    ensures
        walked_tasks(entries, source, target) == Err::<Seq<TaskView>, TaskError>(
            if lies_below(entries[n].path, source) {
                TaskError::SourceUnreadable
            } else {
                TaskError::OutsideSource
            },
        ),
    decreases entries.len(),
{
    let front = entries.drop_last();
    if n < front.len() {
        assert forall|i: int| 0 <= i < n implies is_sound(#[trigger] front[i], source) by {
            assert(is_sound(entries[i], source));
        }
        assert(front[n] == entries[n]);
        law_first_file_that_fails_tells_why(front, n, source, target);
    } else {
        assert forall|i: int| 0 <= i < front.len() implies is_sound(
            #[trigger] front[i],
            source,
        ) by {
            assert(is_sound(entries[i], source));
        }
        law_every_file_gets_its_task(front, source, target);
        assert(entries.last() == entries[n]);
    }
}

/// Every directory among the entries lies below the source.
pub open spec fn directories_below(entries: Seq<EntryView>, source: Seq<u8>) -> bool {
    forall|i: int|
        0 <= i < entries.len() && (#[trigger] entries[i]).kind == EntryKind::Directory
            ==> lies_below(entries[i].path, source)
}

proof fn lemma_walk_hands_out(entries: Seq<EntryView>, source: Seq<u8>, target: Seq<u8>)
    requires
        directories_below(entries, source),
    ensures
        handed_out(entries, source, target) == walked_tasks(entries, source, target),
    decreases entries.len(),
{
    if entries.len() > 0 {
        let front = entries.drop_last();
        assert forall|i: int|
            0 <= i < front.len() && (#[trigger] front[i]).kind
                == EntryKind::Directory implies lies_below(front[i].path, source) by {
            assert(entries[i] == front[i]);
        }
        lemma_walk_hands_out(front, source, target);
        assert(entries[entries.len() - 1] == entries.last());
    }
}

/// Sending the tasks as they are found and collecting them first come to the
/// same: the same tasks in the same order, or the same error. What a walk through
/// a directory comes across lies below the directory; an entry elsewhere would
/// stop the one and not the other.
pub proof fn law_sent_and_collected_are_the_same(
    source: Seq<u8>,
    target: Seq<u8>,
    kind: SourceKind,
    recursive: bool,
    size: Option<u64>,
    entries: Seq<EntryView>,
)
    requires
        directories_below(entries, source),
    ensures
        sent_tasks(source, target, kind, recursive, size, entries) == collected_tasks(
            source,
            target,
            kind,
            recursive,
            size,
            entries,
        ),
{
    lemma_walk_hands_out(entries, source, target);
}

/// The sum of the sizes.
pub open spec fn sum(sizes: Seq<u64>) -> int
    decreases sizes.len(),
{
    if sizes.len() == 0 {
        0
    } else {
        sum(sizes.drop_last()) + sizes.last()
    }
}

/// A walk counts every file that it handed out, and all their bytes.
pub proof fn law_walk_counts_what_it_hands_out(walk: WalkView, sizes: Seq<u64>)
    ensures
        walk.after(sizes) == (WalkView {
            total_files: walk.total_files + sizes.len(),
            total_bytes: walk.total_bytes + sum(sizes),
            ..walk
        }),
    decreases sizes.len(),
{
    if sizes.len() > 0 {
        law_walk_counts_what_it_hands_out(walk, sizes.drop_last());
    }
}

/// The count is reported for each hundredth file.
pub proof fn law_every_hundredth_file_is_reported(walk: WalkView, hundreds: int, rest: int)
    requires
        walk.total_files == 100 * hundreds + rest,
        0 <= rest < 100,
    ensures
        walk.is_reported() <==> rest == 0,
{
}

proof fn lemma_picked(
    probes: Seq<ProbeView>,
    source: Seq<u8>,
    wanted: spec_fn(ProbeView) -> bool,
    name: Seq<char>,
)
    ensures
        picked(probes, source, wanted).contains(name) <==> exists|i: int|
            0 <= i < probes.len() && wanted(#[trigger] probes[i]) && text_or_unknown(
                below(probes[i].path, source),
            ) == name,
{
    let kept = probes.filter(wanted);
    let names = picked(probes, source, wanted);
    if names.contains(name) {
        let k = choose|k: int| 0 <= k < names.len() && names[k] == name;
        assert(kept.contains(kept[k]));
        probes.lemma_filter_contains_rev(wanted, kept[k]);
        let i = choose|i: int| 0 <= i < probes.len() && probes[i] == kept[k];
        assert(wanted(probes[i])) by {
            probes.lemma_filter_pred(wanted, k);
        }
    }
    if exists|i: int|
        0 <= i < probes.len() && wanted(#[trigger] probes[i]) && text_or_unknown(
            below(probes[i].path, source),
        ) == name {
        let i = choose|i: int|
            0 <= i < probes.len() && wanted(#[trigger] probes[i]) && text_or_unknown(
                below(probes[i].path, source),
            ) == name;
        probes.lemma_filter_contains(wanted, i);
        let k = choose|k: int| 0 <= k < kept.len() && kept[k] == probes[i];
        assert(names[k] == name);
    }
}

/// A comparison lists a file as missing exactly if its copy is not there, and as
/// different exactly if its copy has another size.
pub proof fn law_comparison_lists_every_issue(
    probes: Seq<ProbeView>,
    source: Seq<u8>,
    name: Seq<char>,
)
    ensures
        verified(probes, source).missing.contains(name) <==> exists|i: int|
            0 <= i < probes.len() && (#[trigger] probes[i]).is_missing() && text_or_unknown(
                below(probes[i].path, source),
            ) == name,
        verified(probes, source).mismatch.contains(name) <==> exists|i: int|
            0 <= i < probes.len() && (#[trigger] probes[i]).differs() && text_or_unknown(
                below(probes[i].path, source),
            ) == name,
{
    let missing = |probe: ProbeView| probe.is_missing();
    let differs = |probe: ProbeView| probe.differs();
    lemma_picked(probes, source, missing, name);
    lemma_picked(probes, source, differs, name);
    assert forall|i: int| 0 <= i < probes.len() implies missing(#[trigger] probes[i])
        == probes[i].is_missing() && differs(probes[i]) == probes[i].differs() by {}
}

/// A comparison finds nothing wrong exactly if no copy is missing and none has
/// another size.
pub proof fn law_nothing_wrong(probes: Seq<ProbeView>, source: Seq<u8>)
    ensures
        verified(probes, source).missing.len() + verified(probes, source).mismatch.len() == 0
            <==> forall|i: int|
            0 <= i < probes.len() ==> !(#[trigger] probes[i]).is_missing() && !probes[i].differs(),
{
    let seen = verified(probes, source);
    if seen.missing.len() > 0 {
        assert(seen.missing.contains(seen.missing[0]));
        law_comparison_lists_every_issue(probes, source, seen.missing[0]);
    }
    if seen.mismatch.len() > 0 {
        assert(seen.mismatch.contains(seen.mismatch[0]));
        law_comparison_lists_every_issue(probes, source, seen.mismatch[0]);
    }
    if seen.missing.len() + seen.mismatch.len() == 0 {
        assert forall|i: int| 0 <= i < probes.len() implies !(#[trigger] probes[i]).is_missing()
            && !probes[i].differs() by {
            law_comparison_lists_every_issue(
                probes,
                source,
                text_or_unknown(below(probes[i].path, source)),
            );
        }
    }
}

} // verus!
