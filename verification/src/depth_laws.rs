//! How many requests suit a file, told in the size of the file.

use crate::depth::{law_depth_is_within_bounds, DepthLimits};
use crate::pipeline::ProcessorView;
use crate::worker_context::ContextView;
use vstd::arithmetic::div_mod::lemma_fundamental_div_mod;
use vstd::prelude::*;

verus! {

/// A file below 10 MiB gets one request.
pub proof fn law_small_file_gets_one_request(limits: DepthLimits, file_size: int)
    requires
        0 <= file_size < 10 * 1024 * 1024,
    ensures
        limits.suggested(file_size) == 1,
{
}

/// A file from 10 MiB on and below 100 MiB gets one request, and one more for each
/// 20 MiB that it has, up to four.
pub proof fn law_middling_file_gets_up_to_four(limits: DepthLimits, file_size: int, steps: int)
    requires
        10 * 1024 * 1024 <= file_size < 100 * 1024 * 1024,
        steps * 20971520 <= file_size < (steps + 1) * 20971520,
    ensures
        limits.suggested(file_size) == if steps + 1 <= 4 {
            steps + 1
        } else {
            4
        },
{
    assert(file_size / 20971520 == steps);
}

/// A file from 100 MiB on and below 1 GiB gets two requests, and two more for each
/// 200 MiB that it has, but at least four and at most eight.
pub proof fn law_large_file_gets_four_to_eight(limits: DepthLimits, file_size: int, steps: int)
    requires
        100 * 1024 * 1024 <= file_size < 1024 * 1024 * 1024,
        steps * 209715200 <= file_size < (steps + 1) * 209715200,
    ensures
        limits.suggested(file_size) == if 2 * steps + 2 < 4 {
            4
        } else if 2 * steps + 2 > 8 {
            8
        } else {
            2 * steps + 2
        },
{
    assert(file_size / 209715200 == steps);
}

/// A file from 1 GiB on gets as many requests as the user allows, up to eight.
pub proof fn law_huge_file_gets_the_most(limits: DepthLimits, file_size: int)
    requires
        file_size >= 1024 * 1024 * 1024,
    ensures
        limits.suggested(file_size) == if limits.max_depth <= 8 {
            limits.max_depth as int
        } else {
            8
        },
{
}

/// A copy has as many requests as suit the file or as the user asks for at least,
/// whichever is more, and fewer only where the buffer has room for no more or the user
/// allows no more. A buffer that does not even hold a block makes it one.
pub proof fn law_depth_is_the_most_that_is_allowed(limits: DepthLimits, file_size: int)
    requires
        limits.block_size > 0,
        file_size >= 0,
    ensures
        ({
            let d = limits.depth(file_size);
            let wanted = if limits.min_depth >= limits.suggested(file_size) {
                limits.min_depth as int
            } else {
                limits.suggested(file_size)
            };
            &&& limits.iov_size < limits.block_size ==> d == 1
            &&& limits.iov_size >= limits.block_size ==> {
                &&& d <= wanted
                &&& d <= limits.max_depth
                &&& d * limits.block_size <= limits.iov_size
                &&& d == wanted || d == limits.max_depth || (d + 1) * limits.block_size
                    > limits.iov_size
            }
        }),
{
    let block = limits.block_size as int;
    let iov = limits.iov_size as int;
    let d = limits.depth(file_size);
    let blocks = limits.blocks_in_buffer();
    lemma_fundamental_div_mod(iov, block);
    let rest = iov % block;
    assert(blocks >= 0 && (blocks == 0 <==> iov < block)) by (nonlinear_arith)
        requires
            iov == block * blocks + rest,
            0 <= rest < block,
            iov >= 0,
    ;
    if iov >= block {
        assert(d <= blocks);
        assert(d * block <= iov) by (nonlinear_arith)
            requires
                d <= blocks,
                iov == block * blocks + rest,
                0 <= rest,
                block > 0,
        ;
        if d == blocks {
            assert((d + 1) * block > iov) by (nonlinear_arith)
                requires
                    d == blocks,
                    iov == block * blocks + rest,
                    rest < block,
            ;
        }
    }
}

/// Every file whose size can be counted can be copied, where there are blocks, the user
/// allows at least one request and no more than a ring holds, and there is a buffer.
pub proof fn law_every_file_can_be_copied(
    worker: ContextView,
    processor: ProcessorView,
    file_size: int,
)
    requires
        0 <= file_size <= usize::MAX,
    ensures
        worker.limits.block_size > 0 && 1 <= worker.limits.max_depth <= i32::MAX
            ==> worker.can_copy(file_size),
        processor.limits.block_size > 0 && 1 <= processor.limits.max_depth <= i32::MAX
            && processor.limits.iov_size > 0 ==> processor.can_copy(file_size),
{
    if worker.limits.block_size > 0 && 1 <= worker.limits.max_depth <= i32::MAX {
        law_depth_is_within_bounds(worker.limits, file_size);
    }
    if processor.limits.block_size > 0 && 1 <= processor.limits.max_depth <= i32::MAX {
        law_depth_is_within_bounds(processor.limits, file_size);
    }
}

} // verus!
