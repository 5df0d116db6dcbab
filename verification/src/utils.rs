//! The block size of a file system.

use crate::path::{ancestors_of, path_views, FilePath};
use vstd::prelude::*;
use vstd::utf8::valid_utf8;

verus! {

/// The block size where none is known: 1 MiB.
pub const DEFAULT_BLOCK_SIZE: usize = 1048576;

/// The smallest block size that makes sense: 4 KiB.
pub const SMALLEST_BLOCK: u64 = 4096;

/// The largest block size that makes sense: 16 MiB.
pub const LARGEST_BLOCK: u64 = 16777216;

/// The operating system can be asked about the path: it is text without a zero.
pub open spec fn can_be_asked(path: Seq<u8>) -> bool {
    valid_utf8(path) && !path.contains(0u8)
}

/// The block size makes sense.
pub open spec fn makes_sense(size: u64) -> bool {
    SMALLEST_BLOCK <= size <= LARGEST_BLOCK
}

/// The block size that is found for some paths, one after the other: the first one
/// that makes sense. The search ends at a path that cannot be asked about. `sizes`
/// are the block sizes of the file systems that the paths are on, as far as they
/// could be read.
pub open spec fn first_block_size(paths: Seq<Seq<u8>>, sizes: Seq<Option<u64>>) -> int
    decreases paths.len(),
{
    if paths.len() == 0 || !can_be_asked(paths[0]) {
        DEFAULT_BLOCK_SIZE as int
    } else {
        match sizes[0] {
            Some(size) => if makes_sense(size) {
                size as int
            } else {
                first_block_size(paths.drop_first(), sizes.drop_first())
            },
            None => first_block_size(paths.drop_first(), sizes.drop_first()),
        }
    }
}

/// The block size for a path. `sizes` are the block sizes of the file systems that
/// the path and the directories around it are on, from the innermost on, as far as
/// they could be read.
pub fn get_filesystem_block_size(path: &FilePath, sizes: &Vec<Option<u64>>) -> (r: usize)
    requires
        sizes@.len() == ancestors_of(path@).len(),
    ensures
        r == first_block_size(ancestors_of(path@), sizes@),
{
    let places = path.ancestors();
    let ghost paths = path_views(places@);
    assert(paths.len() == places@.len());
    let mut i: usize = 0;
    assert(paths.skip(0) =~= paths);
    assert(sizes@.skip(0) =~= sizes@);
    while i < places.len()
        invariant
            i <= places@.len() == sizes@.len(),
            paths == path_views(places@),
            paths == ancestors_of(path@),
            first_block_size(paths, sizes@) == first_block_size(
                paths.skip(i as int),
                sizes@.skip(i as int),
            ),
        decreases places@.len() - i,
    {
        assert(paths.skip(i as int)[0] == places@[i as int]@);
        assert(sizes@.skip(i as int)[0] == sizes@[i as int]);
        assert(paths.skip(i as int).drop_first() =~= paths.skip(i + 1));
        assert(sizes@.skip(i as int).drop_first() =~= sizes@.skip(i + 1));
        if !places[i].is_text_without_zero() {
            return DEFAULT_BLOCK_SIZE;
        }
        if let Some(size) = sizes[i] {
            if SMALLEST_BLOCK <= size && size <= LARGEST_BLOCK {
                return size as usize;
            }
        }
        i = i + 1;
    }
    DEFAULT_BLOCK_SIZE
}

/// The block size always makes sense.
pub proof fn law_block_size_makes_sense(paths: Seq<Seq<u8>>, sizes: Seq<Option<u64>>)
    ensures
        SMALLEST_BLOCK <= first_block_size(paths, sizes) <= LARGEST_BLOCK,
    decreases paths.len(),
{
    if paths.len() > 0 {
        law_block_size_makes_sense(paths.drop_first(), sizes.drop_first());
    }
}

/// The block size is the first one from 4 KiB to 16 MiB, where the system can be asked
/// about all the paths up to there.
pub proof fn law_first_sensible_size_is_taken(
    paths: Seq<Seq<u8>>,
    sizes: Seq<Option<u64>>,
    n: int,
)
    requires
        0 <= n < paths.len() == sizes.len(),
        forall|i: int| 0 <= i <= n ==> can_be_asked(#[trigger] paths[i]),
        forall|i: int|
            0 <= i < n ==> !(#[trigger] sizes[i] matches Some(size) && 4096 <= size <= 16777216),
        sizes[n] matches Some(size) && 4096 <= size <= 16777216,
    ensures
        first_block_size(paths, sizes) == sizes[n]->Some_0,
    decreases n,
{
    if n > 0 {
        let p = paths.drop_first();
        let s = sizes.drop_first();
        assert(can_be_asked(paths[0]));
        assert(!(sizes[0] matches Some(size) && 4096 <= size <= 16777216));
        assert forall|i: int| 0 <= i <= n - 1 implies can_be_asked(#[trigger] p[i]) by {
            assert(p[i] == paths[i + 1]);
        }
        assert forall|i: int| 0 <= i < n - 1 implies !(#[trigger] s[i] matches Some(size) && 4096
            <= size <= 16777216) by {
            assert(s[i] == sizes[i + 1]);
        }
        law_first_sensible_size_is_taken(p, s, n - 1);
    }
}

/// The block size is 1 MiB where no size makes sense before the search ends: at the end of
/// the paths, or at a path that the system cannot be asked about.
pub proof fn law_default_size_is_taken_otherwise(
    paths: Seq<Seq<u8>>,
    sizes: Seq<Option<u64>>,
    n: int,
)
    requires
        0 <= n <= paths.len() == sizes.len(),
        n < paths.len() ==> !can_be_asked(paths[n]),
        forall|i: int|
            0 <= i < n ==> !(#[trigger] sizes[i] matches Some(size) && 4096 <= size <= 16777216),
    ensures
        first_block_size(paths, sizes) == 1024 * 1024,
    decreases n,
{
    if n > 0 {
        let p = paths.drop_first();
        let s = sizes.drop_first();
        assert(!(sizes[0] matches Some(size) && 4096 <= size <= 16777216));
        assert forall|i: int| 0 <= i < n - 1 implies !(#[trigger] s[i] matches Some(size) && 4096
            <= size <= 16777216) by {
            assert(s[i] == sizes[i + 1]);
        }
        law_default_size_is_taken_otherwise(p, s, n - 1);
    }
}

} // verus!
