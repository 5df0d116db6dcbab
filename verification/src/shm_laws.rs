//! What holds of shared memory: its names, its space, and what is left over of it.

use crate::shm_manager::{
    count_bools, entry_bytes, hex, hex_digit, hyphenated, iov_link, is_listed, is_ours, is_stale,
    shm_file, shm_id, space_check, ShmError, SpaceStats, SHM_DIRECTORY, SHM_PREFIX,
};
use crate::text::{decimal, digit};
use crate::worker_context::{worker_shm_id, WORKER_SHM_PREFIX};
use vstd::prelude::*;

verus! {

/// Whatever a copy leaves over is found and removed later: the names that copies
/// give to their shared memory are among those that are cleaned up.
pub proof fn law_what_is_left_over_is_found(worker_id: int, id: Seq<u8>)
    ensures
        is_stale(worker_shm_id(worker_id)),
        is_stale(shm_id(id)),
{
    reveal_strlit("cp_usrbio_");
    reveal_strlit("cp_usrbio_w");
    let prefix = "cp_usrbio_"@;
    assert(prefix =~= worker_shm_id(worker_id).subrange(0, prefix.len() as int));
    assert(prefix =~= shm_id(id).subrange(0, prefix.len() as int));
}

/// What is cleaned up has been listed in the status before.
pub proof fn law_what_is_cleaned_up_is_listed(name: Seq<char>)
    requires
        is_stale(name),
    ensures
        is_ours(name),
{
    reveal_strlit("cp_usrbio");
    reveal_strlit("cp_usrbio_");
    reveal_strlit("cp_usrbio.");
    let short = "cp_usrbio"@;
    let under = "cp_usrbio_"@;
    let dot = "cp_usrbio."@;
    assert(under.subrange(0, short.len() as int) =~= short);
    assert(dot.subrange(0, short.len() as int) =~= short);
    if under.is_prefix_of(name) {
        assert(name.subrange(0, under.len() as int) == under);
        assert(short =~= name.subrange(0, short.len() as int)) by {
            assert forall|i: int| 0 <= i < short.len() implies short[i] == name[i] by {
                assert(name.subrange(0, under.len() as int)[i] == under[i]);
            }
        }
    } else {
        assert(name.subrange(0, dot.len() as int) == dot);
        assert(short =~= name.subrange(0, short.len() as int)) by {
            assert forall|i: int| 0 <= i < short.len() implies short[i] == name[i] by {
                assert(name.subrange(0, dot.len() as int)[i] == dot[i]);
            }
        }
    }
}

/// A number is known by its decimal digits.
proof fn lemma_decimal_is_injective(a: int, b: int)
    requires
        0 <= a,
        0 <= b,
        decimal(a) == decimal(b),
    ensures
        a == b,
    decreases a,
{
    lemma_decimal_len(a);
    lemma_decimal_len(b);
    if a < 10 && b < 10 {
        assert(decimal(a)[0] == digit(a));
        assert(decimal(b)[0] == digit(b));
        assert(digit(a) as int == a + 48);
        assert(digit(b) as int == b + 48);
    } else {
        lemma_decimal_len(a / 10);
        lemma_decimal_len(b / 10);
        assert(a >= 10 && b >= 10);
        assert(decimal(a).drop_last() =~= decimal(a / 10));
        assert(decimal(b).drop_last() =~= decimal(b / 10));
        lemma_decimal_is_injective(a / 10, b / 10);
        assert(decimal(a).last() == digit(a % 10));
        assert(decimal(b).last() == digit(b % 10));
        assert(digit(a % 10) as int == a % 10 + 48);
        assert(digit(b % 10) as int == b % 10 + 48);
    }
}

proof fn lemma_decimal_len(n: int)
    requires
        0 <= n,
    ensures
        decimal(n).len() >= 1,
        n < 10 <==> decimal(n).len() == 1,
    decreases n,
{
    if n >= 10 {
        lemma_decimal_len(n / 10);
    }
}

/// No two workers share their memory.
pub proof fn law_workers_share_no_memory(a: int, b: int)
    requires
        0 <= a,
        0 <= b,
        worker_shm_id(a) == worker_shm_id(b),
    ensures
        a == b,
{
    let k = WORKER_SHM_PREFIX@.len() as int;
    assert(worker_shm_id(a).skip(k) =~= decimal(a));
    assert(worker_shm_id(b).skip(k) =~= decimal(b));
    lemma_decimal_is_injective(a, b);
}

proof fn lemma_hex_digit_is_injective(a: int, b: int)
    requires
        0 <= a < 16,
        0 <= b < 16,
        hex_digit(a) == hex_digit(b),
    ensures
        a == b,
{
    assert(hex_digit(a) as int == if a < 10 { a + 48 } else { a + 87 });
    assert(hex_digit(b) as int == if b < 10 { b + 48 } else { b + 87 });
}

/// Shared memory with another identifier has another name.
pub proof fn law_identifiers_give_distinct_names(a: Seq<u8>, b: Seq<u8>)
    requires
        shm_id(a) == shm_id(b),
    ensures
        a == b,
{
    let k = SHM_PREFIX@.len() as int;
    assert(shm_id(a).skip(k) =~= hex(a));
    assert(shm_id(b).skip(k) =~= hex(b));
    assert(hex(a).len() == 2 * a.len());
    assert(hex(b).len() == 2 * b.len());
    assert forall|i: int| 0 <= i < a.len() implies a[i] == b[i] by {
        assert(hex(a)[2 * i] == hex_digit(a[i] as int / 16));
        assert(hex(b)[2 * i] == hex_digit(b[i] as int / 16));
        assert((2 * i + 1) / 2 == i);
        assert(hex(a)[2 * i + 1] == hex_digit(a[i] as int % 16));
        assert(hex(b)[2 * i + 1] == hex_digit(b[i] as int % 16));
        lemma_hex_digit_is_injective(a[i] as int / 16, b[i] as int / 16);
        lemma_hex_digit_is_injective(a[i] as int % 16, b[i] as int % 16);
    }
    assert(a =~= b);
}

/// There is enough space exactly if the statistics are known and what is available is
/// not less than what is required. Otherwise the numbers of the error add up: what is
/// used and what is available make up what there is, and what is available and what is
/// short make up what is required.
pub proof fn law_space_is_checked_by_the_statistics(stats: Option<SpaceStats>, required: u64)
    requires
        stats matches Some(known) ==> known.block_size * known.available_blocks <= known.blocks
            * known.block_size <= u64::MAX,
    ensures
        match space_check(stats, required) {
            Ok(_) => stats matches Some(known) && known.block_size * known.available_blocks
                >= required,
            Err(ShmError::NoStats) => stats is None,
            Err(ShmError::Insufficient { total, used, available, shortage }) => {
                &&& stats matches Some(known)
                &&& available == known.block_size * known.available_blocks
                &&& total == known.blocks * known.block_size
                &&& used + available == total
                &&& available + shortage == required
                &&& shortage > 0
            },
        },
{
    if let Some(known) = stats {
        assert(0 <= known.block_size * known.available_blocks) by (nonlinear_arith)
            requires
                known.block_size >= 0,
                known.available_blocks >= 0,
        ;
    }
}

/// What is cleaned up is what is ours and goes on with an underscore or a dot.
pub proof fn law_what_is_cleaned_up_goes_on(name: Seq<char>)
    ensures
        is_ours(name) <==> name.len() >= 9 && name.take(9) == "cp_usrbio"@,
        is_stale(name) <==> is_ours(name) && name.len() >= 10 && (name[9] == '_' || name[9] == '.'),
{
    reveal_strlit("cp_usrbio");
    reveal_strlit("cp_usrbio_");
    reveal_strlit("cp_usrbio.");
    let short = "cp_usrbio"@;
    let under = "cp_usrbio_"@;
    let dot = "cp_usrbio."@;
    assert(under =~= short.push('_'));
    assert(dot =~= short.push('.'));
    if name.len() >= 9 {
        assert(name.subrange(0, 9) =~= name.take(9));
    }
    if name.len() >= 10 {
        assert(name.subrange(0, 10) =~= name.take(9).push(name[9]));
        assert(name.subrange(0, 10).drop_last() =~= name.take(9));
        assert(short.push('_').drop_last() =~= short);
        assert(short.push('.').drop_last() =~= short);
        assert(name.subrange(0, 10).last() == name[9]);
    }
}

/// Shared memory is found in its directory under its name, whether the name begins with
/// a slash or not.
pub proof fn law_slash_before_a_name_does_not_count(name: Seq<char>)
    requires
        name.len() > 0 ==> name[0] != '/',
    ensures
        shm_file(name) == "/dev/shm/"@ + name,
        shm_file(seq!['/'] + name) == shm_file(name),
{
    reveal_strlit("/dev/shm");
    reveal_strlit("/");
    reveal_strlit("/dev/shm/");
    assert("/dev/shm/"@ =~= SHM_DIRECTORY@ + "/"@);
    assert("/"@ =~= seq!['/']);
    assert(SHM_DIRECTORY@ + (seq!['/'] + name) =~= SHM_DIRECTORY@ + "/"@ + name);
}

/// Slashes at the end of a mount point do not change where the links are expected, which
/// is in a directory of their own below it.
pub proof fn law_slash_behind_a_mount_point_does_not_count(mount_point: Seq<char>, id: Seq<u8>)
    ensures
        iov_link(mount_point.push('/'), id) == iov_link(mount_point, id),
        mount_point.len() > 0 && mount_point.last() != '/' ==> iov_link(mount_point, id)
            == mount_point + "/3fs-virt/iovs/"@ + hyphenated(id),
{
    assert(mount_point.push('/').drop_last() =~= mount_point);
}

/// A file is listed in the status exactly if it is ours and its size is known, and counts
/// for its size.
pub proof fn law_listed_files_count(
    entries: Seq<(Seq<char>, Option<u64>)>,
    name: Seq<char>,
    size: Option<u64>,
)
    ensures
        is_listed((name, size)) <==> is_ours(name) && size is Some,
        size matches Some(n) ==> entry_bytes(entries.push((name, size))) == entry_bytes(entries)
            + n,
        size is None ==> entry_bytes(entries.push((name, size))) == entry_bytes(entries),
        entry_bytes(Seq::empty()) == 0,
{
    assert(entries.push((name, size)).drop_last() =~= entries);
}

/// Of the outcomes of a cleanup each counts once, by what it is.
pub proof fn law_outcomes_are_counted(outcomes: Seq<bool>, outcome: bool, wanted: bool)
    ensures
        count_bools(outcomes.push(outcome), wanted) == count_bools(outcomes, wanted) + if outcome
            == wanted {
            1int
        } else {
            0
        },
        count_bools(Seq::empty(), wanted) == 0,
{
    assert(outcomes.push(outcome).drop_last() =~= outcomes);
}

} // verus!
