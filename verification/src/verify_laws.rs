//! What holds of the comparison of a source with its copy, told in the sizes that
//! were read.

use crate::path::{below, text_or_unknown};
use crate::task::{
    all_below, lies_below, picked, single_task, verification, verified, verified_single, ProbeView,
    SourceKind, TargetProbe, TaskError, VerifyView,
};
use vstd::prelude::*;

verus! {

/// How many files a comparison finds to be wrong.
pub open spec fn issues(seen: VerifyView) -> nat {
    seen.missing.len() + seen.mismatch.len()
}

/// For a single file whose sizes at the source and at the target are both known,
/// the comparison finds nothing wrong exactly if the two sizes are equal, whichever
/// of them is the larger. Otherwise it lists the file as one of another size, by
/// the name that its task has.
pub proof fn law_single_file_is_compared_by_size(
    source: Seq<u8>,
    target: Seq<u8>,
    size: u64,
    other: u64,
)
    ensures
        ({
            let seen = verified_single(source, size, TargetProbe::Size(other));
            &&& issues(seen) == 0 <==> size == other
            &&& seen.missing.len() == 0
            &&& size != other ==> seen.mismatch == seq![
                single_task(source, target, size as int).relative_path,
            ]
            &&& seen.total_checked == 1
            &&& seen.total_bytes == size
        }),
{
}

/// For a single file whose copy is not there, the comparison lists the file as
/// missing, by the name that its task has.
pub proof fn law_single_file_is_missed(source: Seq<u8>, target: Seq<u8>, size: u64)
    ensures
        ({
            let seen = verified_single(source, size, TargetProbe::Missing);
            &&& seen.missing == seq![single_task(source, target, size as int).relative_path]
            &&& seen.mismatch.len() == 0
            &&& seen.total_checked == 1
            &&& seen.total_bytes == size
        }),
{
}

/// It does not matter which of the two sizes is at the source.
pub proof fn law_comparison_is_symmetric(source: Seq<u8>, a: u64, b: u64)
    ensures
        issues(verified_single(source, a, TargetProbe::Size(b))) == issues(
            verified_single(source, b, TargetProbe::Size(a)),
        ),
{
}

proof fn lemma_picked_push(
    probes: Seq<ProbeView>,
    probe: ProbeView,
    source: Seq<u8>,
    wanted: spec_fn(ProbeView) -> bool,
)
    ensures
        picked(probes.push(probe), source, wanted) == if wanted(probe) {
            picked(probes, source, wanted).push(text_or_unknown(below(probe.path, source)))
        } else {
            picked(probes, source, wanted)
        },
{
    reveal(Seq::filter);
    assert(probes.push(probe).drop_last() =~= probes);
    assert(picked(probes.push(probe), source, wanted) =~= if wanted(probe) {
        picked(probes, source, wanted).push(text_or_unknown(below(probe.path, source)))
    } else {
        picked(probes, source, wanted)
    });
}

/// A comparison goes file by file. One more file is listed as missing exactly if its
/// size is known and its copy is not there, and as one of another size exactly if
/// both sizes are known and they are not equal; it comes behind the others. It
/// always counts as a file, and as many bytes as its size, if that is known.
pub proof fn law_comparison_goes_file_by_file(
    probes: Seq<ProbeView>,
    probe: ProbeView,
    source: Seq<u8>,
)
    ensures
        ({
            let before = verified(probes, source);
            let after = verified(probes.push(probe), source);
            let name = text_or_unknown(below(probe.path, source));
            &&& after.total_checked == before.total_checked + 1
            &&& match (probe.source_size, probe.target) {
                (Some(size), TargetProbe::Missing) => {
                    &&& after.missing == before.missing.push(name)
                    &&& after.mismatch == before.mismatch
                    &&& after.total_bytes == before.total_bytes + size
                },
                (Some(size), TargetProbe::Size(other)) => {
                    &&& after.missing == before.missing
                    &&& size == other ==> after.mismatch == before.mismatch
                    &&& size != other ==> after.mismatch == before.mismatch.push(name)
                    &&& after.total_bytes == before.total_bytes + size
                },
                (Some(size), TargetProbe::Unreadable) => {
                    &&& after.missing == before.missing
                    &&& after.mismatch == before.mismatch
                    &&& after.total_bytes == before.total_bytes + size
                },
                (None, _) => {
                    &&& after.missing == before.missing
                    &&& after.mismatch == before.mismatch
                    &&& after.total_bytes == before.total_bytes
                },
            }
        }),
{
    lemma_picked_push(probes, probe, source, |p: ProbeView| p.is_missing());
    lemma_picked_push(probes, probe, source, |p: ProbeView| p.differs());
    assert(probes.push(probe).drop_last() =~= probes);
}

/// A comparison of no files finds nothing and counts nothing.
pub proof fn law_comparison_begins_with_nothing(source: Seq<u8>)
    ensures
        ({
            let seen = verified(Seq::empty(), source);
            &&& issues(seen) == 0
            &&& seen.total_checked == 0
            &&& seen.total_bytes == 0
        }),
{
    reveal(Seq::filter);
}

/// A single file and the only file of a directory are compared alike.
pub proof fn law_single_file_is_compared_like_others(
    source: Seq<u8>,
    directory: Seq<u8>,
    path: Seq<u8>,
    size: u64,
    target: TargetProbe,
)
    ensures
        ({
            let probe = ProbeView { path, source_size: Some(size), target };
            let one = verified(seq![probe], directory);
            let single = verified_single(source, size, target);
            &&& one.missing.len() == single.missing.len()
            &&& one.mismatch.len() == single.mismatch.len()
            &&& one.total_checked == single.total_checked
            &&& one.total_bytes == single.total_bytes
        }),
{
    let probe = ProbeView { path, source_size: Some(size), target };
    law_comparison_begins_with_nothing(directory);
    law_comparison_goes_file_by_file(Seq::empty(), probe, directory);
    assert(Seq::<ProbeView>::empty().push(probe) =~= seq![probe]);
}

/// A comparison is made exactly if there is something to compare: a file whose size
/// is known and whose copy, if it is there, has a known size; or a directory that
/// may be walked through and whose files all lie below it. Each error is true.
pub proof fn law_comparison_is_made_if_it_can_be(
    source: Seq<u8>,
    kind: SourceKind,
    recursive: bool,
    single: (Option<u64>, TargetProbe),
    probes: Seq<ProbeView>,
)
    ensures
        match verification(source, kind, recursive, single, probes) {
            Ok(seen) => {
                ||| kind == SourceKind::File && single.0 is Some && single.1
                    != TargetProbe::Unreadable && seen == verified_single(
                    source,
                    single.0->Some_0,
                    single.1,
                )
                ||| kind == SourceKind::Directory && recursive && (forall|i: int|
                    0 <= i < probes.len() ==> lies_below((#[trigger] probes[i]).path, source))
                    && seen == verified(probes, source)
            },
            Err(e) => {
                &&& e == TaskError::SourceMissing <==> kind == SourceKind::Missing
                &&& e == TaskError::NotRecursive <==> kind == SourceKind::Directory && !recursive
                &&& e == TaskError::SourceUnreadable <==> kind == SourceKind::File
                    && single.0 is None
                &&& e == TaskError::TargetUnreadable <==> kind == SourceKind::File
                    && single.0 is Some && single.1 == TargetProbe::Unreadable
                &&& e == TaskError::OutsideSource <==> kind == SourceKind::Directory && recursive
                    && exists|i: int|
                    0 <= i < probes.len() && !lies_below((#[trigger] probes[i]).path, source)
                &&& kind == SourceKind::Missing || kind == SourceKind::Directory || single.0 is None
                    || single.1 == TargetProbe::Unreadable
            },
        },
{
    assert(all_below(probes, source) <==> forall|i: int|
        0 <= i < probes.len() ==> lies_below((#[trigger] probes[i]).path, source));
}

/// The files that are copied again are those that the comparison lists, each as often as it
/// lists them: first those that are missing, in their order, then those of another size.
pub proof fn law_all_that_is_wrong_is_copied_again(seen: VerifyView, name: Seq<char>)
    ensures
        seen.to_retransmit().len() == issues(seen),
        seen.to_retransmit().take(seen.missing.len() as int) == seen.missing,
        seen.to_retransmit().skip(seen.missing.len() as int) == seen.mismatch,
        seen.to_retransmit().contains(name) <==> seen.missing.contains(name)
            || seen.mismatch.contains(name),
{
    let all = seen.to_retransmit();
    let k = seen.missing.len() as int;
    assert(all.take(k) =~= seen.missing);
    assert(all.skip(k) =~= seen.mismatch);
    if seen.missing.contains(name) {
        let i = choose|i: int| 0 <= i < seen.missing.len() && seen.missing[i] == name;
        assert(all[i] == name);
    }
    if seen.mismatch.contains(name) {
        let i = choose|i: int| 0 <= i < seen.mismatch.len() && seen.mismatch[i] == name;
        assert(all[k + i] == name);
    }
    if all.contains(name) {
        let i = choose|i: int| 0 <= i < all.len() && all[i] == name;
        if i < k {
            assert(seen.missing[i] == name);
        } else {
            assert(seen.mismatch[i - k] == name);
        }
    }
}

} // verus!
