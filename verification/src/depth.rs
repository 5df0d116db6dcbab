//! How many requests a copy keeps in flight.

use crate::worker_pipeline::{max_int, min_int};
use vstd::arithmetic::div_mod::lemma_fundamental_div_mod;
use vstd::prelude::*;

verus! {

/// Files below this size are small: 10 MiB.
pub const SMALL_FILE: u64 = 10485760;

/// Files below this size, but not small, are middling: 100 MiB.
pub const MIDDLING_FILE: u64 = 104857600;

/// Files below this size, but not middling, are large: 1 GiB.
pub const LARGE_FILE: u64 = 1073741824;

/// For a middling file one more request is suggested for each 20 MiB.
pub const MIDDLING_STEP: u64 = 20971520;

/// For a large file two more requests are suggested for each 200 MiB.
pub const LARGE_STEP: u64 = 209715200;

/// The most requests that are suggested for a middling file, and the fewest that
/// are suggested for a large one.
pub const MIDDLE_DEPTH: usize = 4;

/// The most requests that are suggested for any file.
pub const TOP_DEPTH: usize = 8;

/// The number closest to `n` that is neither below `low` nor above `high`.
pub open spec fn clamped(n: int, low: int, high: int) -> int {
    max_int(low, min_int(n, high))
}

/// How a depth is found: the size of a block, the depths that the user allows,
/// and the size of the buffer.
#[derive(Clone, Copy, Debug, PartialEq, Eq, Structural)]
pub struct DepthLimits {
    pub block_size: usize,
    pub min_depth: usize,
    pub max_depth: usize,
    pub iov_size: usize,
}

impl DepthLimits {
    /// How many blocks the buffer holds.
    pub open spec fn blocks_in_buffer(self) -> int {
        self.iov_size as int / self.block_size as int
    }

    /// The depth that suits a file of `file_size` bytes, where neither the user
    /// nor the buffer asks for more or less.
    pub open spec fn suggested(self, file_size: int) -> int {
        if file_size < SMALL_FILE {
            1
        } else if file_size < MIDDLING_FILE {
            min_int(file_size / (MIDDLING_STEP as int) + 1, MIDDLE_DEPTH as int)
        } else if file_size < LARGE_FILE {
            clamped(
                file_size / (LARGE_STEP as int) * 2 + 2,
                MIDDLE_DEPTH as int,
                TOP_DEPTH as int,
            )
        } else {
            min_int(self.max_depth as int, TOP_DEPTH as int)
        }
    }

    /// The depth for a file of `file_size` bytes, the buffer left aside: at least
    /// the smallest depth that the user asks for.
    pub open spec fn ideal(self, file_size: int) -> int {
        max_int(self.min_depth as int, self.suggested(file_size))
    }

    /// The depth for a file of `file_size` bytes.
    pub open spec fn depth(self, file_size: int) -> int {
        if self.blocks_in_buffer() == 0 {
            1
        } else {
            min_int(
                min_int(self.ideal(file_size), self.blocks_in_buffer()),
                self.max_depth as int,
            )
        }
    }

    /// The depth for a file of `file_size` bytes.
    pub fn calculate(&self, file_size: u64) -> (r: usize)
        requires
            self.block_size > 0,
        ensures
            r == self.depth(file_size as int),
    {
        let blocks = self.iov_size / self.block_size;
        if blocks == 0 {
            return 1;
        }
        let suggested: usize = if file_size < SMALL_FILE {
            1
        } else if file_size < MIDDLING_FILE {
            let n: usize = (file_size / MIDDLING_STEP) as usize + 1;
            if n <= MIDDLE_DEPTH {
                n
            } else {
                MIDDLE_DEPTH
            }
        } else if file_size < LARGE_FILE {
            let n: usize = (file_size / LARGE_STEP) as usize * 2 + 2;
            clamp(n, MIDDLE_DEPTH, TOP_DEPTH)
        } else if self.max_depth < TOP_DEPTH {
            self.max_depth
        } else {
            TOP_DEPTH
        };
        let ideal: usize = if self.min_depth <= suggested {
            suggested
        } else {
            self.min_depth
        };
        let fitting: usize = if ideal <= blocks {
            ideal
        } else {
            blocks
        };
        if fitting <= self.max_depth {
            fitting
        } else {
            self.max_depth
        }
    }
}

fn clamp(n: usize, low: usize, high: usize) -> (r: usize)
    ensures
        r == clamped(n as int, low as int, high as int),
{
    let below: usize = if n <= high {
        n
    } else {
        high
    };
    if low <= below {
        below
    } else {
        low
    }
}

/// The requests in flight have room beside each other in the buffer, unless
/// there is only one of them.
pub proof fn law_requests_fit_into_the_buffer(limits: DepthLimits, file_size: int)
    requires
        limits.block_size > 0,
        0 <= file_size,
    ensures
        limits.depth(file_size) == 1 || limits.depth(file_size) * limits.block_size
            <= limits.iov_size,
        limits.depth(file_size) <= max_int(1, limits.blocks_in_buffer()),
{
    let blocks = limits.blocks_in_buffer();
    let depth = limits.depth(file_size);
    let block = limits.block_size as int;
    lemma_fundamental_div_mod(limits.iov_size as int, block);
    assert(0 <= limits.iov_size as int % block < block);
    if blocks != 0 {
        assert(depth <= blocks);
        assert(depth * block <= block * blocks) by (nonlinear_arith)
            requires
                depth <= blocks,
                block > 0,
        ;
    }
}

/// There is always at least one request, never more than the user allows, and
/// never fewer than the user asks for, as far as the user allows them and the
/// buffer holds them. No file has more than eight, unless the user asks for more.
pub proof fn law_depth_is_within_bounds(limits: DepthLimits, file_size: int)
    requires
        limits.block_size > 0,
        0 <= file_size,
        limits.max_depth >= 1,
    ensures
        1 <= limits.depth(file_size) <= limits.max_depth,
        limits.depth(file_size) <= max_int(TOP_DEPTH as int, limits.min_depth as int),
        limits.blocks_in_buffer() > 0 ==> limits.depth(file_size) >= min_int(
            limits.min_depth as int,
            min_int(limits.blocks_in_buffer(), limits.max_depth as int),
        ),
        limits.min_depth <= limits.max_depth && limits.min_depth * limits.block_size
            <= limits.iov_size ==> limits.depth(file_size) >= limits.min_depth,
{
    let block = limits.block_size as int;
    lemma_fundamental_div_mod(limits.iov_size as int, block);
    assert(limits.blocks_in_buffer() >= 0) by (nonlinear_arith)
        requires
            limits.blocks_in_buffer() == limits.iov_size as int / block,
            block > 0,
            limits.iov_size >= 0,
    ;
    assert(file_size / (MIDDLING_STEP as int) >= 0);
    assert(file_size / (LARGE_STEP as int) >= 0);
    if limits.min_depth * limits.block_size <= limits.iov_size {
        let m = limits.min_depth as int;
        let blocks = limits.blocks_in_buffer();
        let iov = limits.iov_size as int;
        assert(m <= blocks) by (nonlinear_arith)
            requires
                m * block <= iov,
                iov == block * blocks + iov % block,
                iov % block < block,
                block > 0,
        ;
    }
}

/// A larger file never gets fewer requests.
pub proof fn law_depth_grows_with_the_file(limits: DepthLimits, small: int, large: int)
    requires
        limits.block_size > 0,
        0 <= small <= large,
    ensures
        limits.depth(small) <= limits.depth(large),
{
}

} // verus!
