//! What holds of the rounds of a copy, of its parameters, and of the memory that
//! its workers share.

use crate::session::{
    memory_plan, missing_place, parameter_check, retransmission, shown, verify_step, RoundEnd,
    RoundStart, RoundsView, SessionError, VerifyStep,
};
use crate::text_laws::{
    has_no_white_ends, is_blank, law_white_space_does_not_count, law_words_that_are_a_yes, lowered,
};
use vstd::arithmetic::div_mod::lemma_fundamental_div_mod;
use vstd::prelude::*;

verus! {

/// A round that the user has broken off ends as interrupted, however many files
/// failed. It ends as complete only if it was not broken off and no file failed.
/// Otherwise the user is asked, as long as the files have not been gone through
/// three times.
pub proof fn law_round_ends_as_it_went(rounds: RoundsView, interrupted: bool, failed: int)
    requires
        failed >= 0,
    ensures
        rounds.end(interrupted, failed) == RoundEnd::Interrupted <==> interrupted,
        rounds.end(interrupted, failed) == RoundEnd::Complete <==> !interrupted && failed == 0,
        rounds.end(interrupted, failed) == RoundEnd::Ask <==> !interrupted && failed > 0
            && rounds.retry_count + 1 < 3,
        rounds.end(interrupted, failed) == RoundEnd::Exhausted <==> !interrupted && failed > 0
            && rounds.retry_count + 1 >= 3,
{
}

/// There is work in a round exactly if there are files, and where there are none
/// it is the first round that had nothing to copy and a later one that had nothing
/// to try again.
pub proof fn law_round_works_if_there_are_files(rounds: RoundsView, files: int)
    requires
        files >= 0,
        rounds.retry_count >= 0,
    ensures
        rounds.begin(files) == RoundStart::Working <==> files > 0,
        rounds.begin(files) == RoundStart::NothingToCopy <==> files == 0 && rounds.retry_count == 0,
        rounds.begin(files) == RoundStart::NothingToRetry <==> files == 0 && rounds.retry_count > 0,
{
}

/// An answer leads to one more round exactly if it is, but for white space around
/// it, nothing at all, `y` or `yes`. No other answer changes anything.
pub proof fn law_answer_decides(
    rounds: RoundsView,
    before: Seq<char>,
    word: Seq<char>,
    after: Seq<char>,
)
    requires
        is_blank(before),
        is_blank(after),
        has_no_white_ends(word),
    ensures
        ({
            let (next, again) = rounds.answered(before + word + after);
            &&& again <==> lowered(word) == ""@ || lowered(word)
                == "y"@ || lowered(word) == "yes"@
            &&& again ==> next.retry_count == rounds.retry_count + 1
            &&& !again ==> next == rounds
        }),
{
    law_white_space_does_not_count(before, word, after);
    law_words_that_are_a_yes(word);
}

/// A copy ends well exactly if no file failed in the end. Otherwise the error
/// counts the files that failed and the times that they were tried again.
pub proof fn law_outcome_counts_the_failures(rounds: RoundsView, failed: int)
    requires
        0 <= failed <= usize::MAX,
        0 <= rounds.retry_count <= usize::MAX,
    ensures
        rounds.outcome(failed) is Ok <==> failed == 0,
        rounds.outcome(failed) matches Err(e) ==> (e matches SessionError::FilesFailed {
            files,
            attempts,
        } && files == failed && attempts == rounds.retry_count),
{
}

/// Nothing follows a comparison exactly if it found nothing wrong. The user is
/// asked exactly if something is wrong and the user has not agreed beforehand.
pub proof fn law_comparison_is_followed_up(issues: usize, assume_yes: bool)
    ensures
        verify_step(issues, assume_yes) == VerifyStep::Done <==> issues == 0,
        verify_step(issues, assume_yes) == VerifyStep::Retransmit <==> issues != 0 && assume_yes,
        verify_step(issues, assume_yes) == VerifyStep::Ask <==> issues != 0 && !assume_yes,
{
}

/// The files that are wrong are copied again exactly if the answer is a yes, as it
/// is for another round; otherwise the error tells how many there are.
pub proof fn law_retransmission_is_answered_alike(
    rounds: RoundsView,
    issues: usize,
    answer: Seq<char>,
)
    ensures
        retransmission(issues, answer) is Ok <==> rounds.answered(answer).1,
        retransmission(issues, answer) matches Err(e) ==> (
        e matches SessionError::NotRetransmitted { issues: told } && told == issues),
{
}

/// The parameters are accepted exactly if there is a source, both depths are at
/// least one, and the part of the memory is within its range. Each error is true,
/// and nothing that is looked at earlier is wrong where it comes.
pub proof fn law_parameters_are_accepted_if_all_hold(
    source_exists: bool,
    pipeline_depth: usize,
    max_pipeline_depth: usize,
    ratio_in_range: bool,
)
    ensures
        ({
            let r = parameter_check(
                source_exists,
                pipeline_depth,
                max_pipeline_depth,
                ratio_in_range,
            );
            &&& r is Ok <==> source_exists && pipeline_depth >= 1 && max_pipeline_depth >= 1
                && ratio_in_range
            &&& r matches Err(e) ==> {
                &&& e is SourceMissing <==> !source_exists
                &&& e is DepthTooSmall <==> source_exists && pipeline_depth == 0
                &&& e is MaxDepthTooSmall <==> source_exists && pipeline_depth >= 1
                    && max_pipeline_depth == 0
                &&& e is RatioOutOfRange <==> source_exists && pipeline_depth >= 1
                    && max_pipeline_depth >= 1
                &&& (e matches SessionError::DepthTooSmall { depth } ==> depth == pipeline_depth)
                &&& (e matches SessionError::MaxDepthTooSmall { depth } ==> depth
                    == max_pipeline_depth)
            }
        }),
{
}

/// `share` is what each of the workers gets where they divide what may be used and
/// is available: together they get no more than that, and one byte more for each
/// would be too much.
pub open spec fn is_share(share: int, usable: int, available: int, workers: int) -> bool {
    &&& share >= 0
    &&& share * workers <= usable
    &&& share * workers <= available
    &&& (share + 1) * workers > usable || (share + 1) * workers > available
}

/// `allowed` blocks have room in `size` bytes, and one more has not.
pub open spec fn is_most(allowed: int, block: int, size: int) -> bool {
    allowed * block <= size < (allowed + 1) * block
}

/// A worker gets its share of the memory, but at least a block. The memory is
/// divided exactly if there are workers and both depths have room in that; each
/// error is true, and tells the depth and the most that has room.
pub proof fn law_memory_is_divided_evenly(
    usable: u64,
    available: u64,
    workers: usize,
    block_size: usize,
    pipeline_depth: usize,
    max_pipeline_depth: usize,
    share: int,
)
    requires
        block_size > 0,
        usable <= usize::MAX || available <= usize::MAX,
        workers > 0 ==> is_share(share, usable as int, available as int, workers as int),
    ensures
        ({
            let r = memory_plan(
                usable,
                available,
                workers,
                block_size,
                pipeline_depth,
                max_pipeline_depth,
            );
            let size = if share <= block_size {
                block_size as int
            } else {
                share
            };
            &&& r == Err::<usize, SessionError>(SessionError::NoWorkers) <==> workers == 0
            &&& r is Ok <==> workers > 0 && pipeline_depth * block_size <= size
                && max_pipeline_depth * block_size <= size
            &&& (r matches Ok(iov) ==> iov == size)
            &&& r matches Err(e) ==> {
                &&& e is DepthTooLarge <==> workers > 0 && pipeline_depth * block_size > size
                &&& e is MaxDepthTooLarge <==> workers > 0 && pipeline_depth * block_size <= size
                    && max_pipeline_depth * block_size > size
                &&& (e matches SessionError::DepthTooLarge { depth, allowed } ==> depth
                    == pipeline_depth && is_most(allowed as int, block_size as int, size))
                &&& (e matches SessionError::MaxDepthTooLarge { depth, allowed } ==> depth
                    == max_pipeline_depth && is_most(allowed as int, block_size as int, size))
            }
        }),
{
    if workers > 0 {
        let w = workers as int;
        let block = block_size as int;
        let actual = if usable <= available {
            usable as int
        } else {
            available as int
        };
        lemma_fundamental_div_mod(actual, w);
        let q = actual / w;
        let rest = actual % w;
        assert(share == q) by (nonlinear_arith)
            requires
                w > 0,
                actual == w * q + rest,
                0 <= rest < w,
                share * w <= actual,
                (share + 1) * w > actual,
        ;
        assert(share <= actual) by (nonlinear_arith)
            requires
                share >= 0,
                w > 0,
                share * w <= actual,
        ;
        let size = if share <= block_size {
            block_size as int
        } else {
            share
        };
        lemma_fundamental_div_mod(size, block);
        let allowed = size / block;
        let left = size % block;
        assert(0 <= allowed <= size && is_most(allowed, block, size)) by (nonlinear_arith)
            requires
                block > 0,
                size >= 0,
                size == block * allowed + left,
                0 <= left < block,
        ;
        let p = pipeline_depth as int;
        let m = max_pipeline_depth as int;
        assert(p <= allowed <==> p * block <= size) by (nonlinear_arith)
            requires
                block > 0,
                allowed * block <= size < (allowed + 1) * block,
        ;
        assert(m <= allowed <==> m * block <= size) by (nonlinear_arith)
            requires
                block > 0,
                allowed * block <= size < (allowed + 1) * block,
        ;
    }
}

/// A copy has the places that it needs exactly if all three are given, and otherwise the
/// error names one that is not, the source before the target and the target before the
/// mount point.
pub proof fn law_first_missing_place_is_named(source: bool, target: bool, mount_point: bool)
    ensures
        missing_place(source, target, mount_point) is None <==> source && target && mount_point,
        missing_place(source, target, mount_point) == Some(SessionError::NoSource) <==> !source,
        missing_place(source, target, mount_point) == Some(SessionError::NoTarget) <==> source
            && !target,
        missing_place(source, target, mount_point) == Some(SessionError::NoMountPoint) <==> source
            && target && !mount_point,
{
}

/// Every line is either shown or not, no more are shown than the limit, and none is left
/// out as long as there is room.
pub proof fn law_lines_are_shown_up_to_the_limit(total: int, limit: int)
    requires
        0 <= total,
        0 <= limit,
    ensures
        ({
            let (seen, left) = shown(total, limit);
            &&& seen + left == total
            &&& 0 <= seen <= limit
            &&& 0 <= left
            &&& left > 0 ==> seen == limit
        }),
{
}

} // verus!
