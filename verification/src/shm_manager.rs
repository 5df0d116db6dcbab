//! The shared memory that buffers are made of: how much there is, what it is
//! called, and what is left over from earlier copies.

use crate::path_set::text_views;
use crate::text::{has_prefix, trim_slashes, without_slashes};
use vstd::prelude::*;

verus! {

/// Where shared memory is found.
pub const SHM_DIRECTORY: &'static str = "/dev/shm";

/// What the name of shared memory with a random name begins with.
pub const SHM_PREFIX: &'static str = "cp_usrbio_";

/// What the statistics of a file system say of its size.
#[derive(Clone, Copy, Debug, PartialEq, Eq, Structural)]
pub struct SpaceStats {
    pub block_size: u64,
    pub blocks: u64,
    pub available_blocks: u64,
}

impl SpaceStats {
    pub open spec fn total(self) -> int {
        self.blocks * self.block_size
    }

    pub open spec fn available(self) -> int {
        self.block_size * self.available_blocks
    }

    /// Whether all that there is can be counted in bytes.
    pub fn total_fits(&self) -> (r: bool)
        ensures
            r == (self.total() <= u64::MAX),
    {
        product(self.blocks, self.block_size) <= u64::MAX as u128
    }

    /// Whether what is available can be counted in bytes.
    pub fn available_fits(&self) -> (r: bool)
        ensures
            r == (self.available() <= u64::MAX),
    {
        product(self.block_size, self.available_blocks) <= u64::MAX as u128
    }

    /// The sizes can be counted in bytes, and there is not more available than
    /// there is.
    pub open spec fn is_sound(self) -> bool {
        self.available() <= self.total() <= u64::MAX
    }

    /// Whether the sizes can be counted in bytes, and there is not more available
    /// than there is.
    pub fn sound(&self) -> (r: bool)
        ensures
            r == self.is_sound(),
    {
        let total: u128 = product(self.blocks, self.block_size);
        let available: u128 = product(self.block_size, self.available_blocks);
        available <= total && total <= u64::MAX as u128
    }
}

fn product(a: u64, b: u64) -> (r: u128)
    ensures
        r == a * b,
{
    assert(0 <= a * b <= u64::MAX * u64::MAX) by (nonlinear_arith)
        requires
            0 <= a <= u64::MAX,
            0 <= b <= u64::MAX,
    ;
    a as u128 * b as u128
}

/// What is wrong with the shared memory.
#[derive(Clone, Copy, Debug, PartialEq, Eq, Structural)]
pub enum ShmError {
    /// The statistics could not be read.
    NoStats,
    /// There is not enough space, by `shortage` bytes.
    Insufficient { total: u64, used: u64, available: u64, shortage: u64 },
}

impl ShmError {
    /// What the error says, without the numbers.
    pub open spec fn text(self) -> Seq<char> {
        match self {
            ShmError::NoStats => "Failed to get /dev/shm filesystem stats"@,
            ShmError::Insufficient { .. } => "Insufficient /dev/shm space!"@,
        }
    }

    /// What the error says, without the numbers.
    pub fn message(&self) -> (r: String)
        ensures
            r@ == self.text(),
    {
        match self {
            ShmError::NoStats => "Failed to get /dev/shm filesystem stats".to_owned(),
            ShmError::Insufficient { .. } => "Insufficient /dev/shm space!".to_owned(),
        }
    }
}

/// The statistics, if they could be read, are sound.
pub open spec fn sound_if_known(stats: Option<SpaceStats>) -> bool {
    stats matches Some(known) ==> known.is_sound()
}

/// The number of bytes that are available.
pub fn get_shm_available_space(stats: Option<SpaceStats>) -> (r: Result<u64, ShmError>)
    requires
        stats matches Some(known) ==> known.available() <= u64::MAX,
    ensures
        match stats {
            Some(known) => r is Ok && r->Ok_0 == known.available(),
            None => r == Err::<u64, ShmError>(ShmError::NoStats),
        },
{
    match stats {
        None => Err(ShmError::NoStats),
        Some(known) => Ok(known.block_size * known.available_blocks),
    }
}

/// The number of bytes that there are.
pub fn get_total_shm_size(stats: Option<SpaceStats>) -> (r: Result<u64, ShmError>)
    requires
        stats matches Some(known) ==> known.total() <= u64::MAX,
    ensures
        match stats {
            Some(known) => r is Ok && r->Ok_0 == known.total(),
            None => r == Err::<u64, ShmError>(ShmError::NoStats),
        },
{
    match stats {
        None => Err(ShmError::NoStats),
        Some(known) => Ok(known.blocks * known.block_size),
    }
}

/// The number of bytes that there are and the number of those in use.
pub fn get_shm_usage(stats: Option<SpaceStats>) -> (r: Result<(u64, u64), ShmError>)
    requires
        sound_if_known(stats),
    ensures
        match stats {
            Some(known) => r is Ok && r->Ok_0.0 == known.total() && r->Ok_0.1 == known.total()
                - known.available(),
            None => r == Err::<(u64, u64), ShmError>(ShmError::NoStats),
        },
{
    match stats {
        None => Err(ShmError::NoStats),
        Some(known) => {
            let total: u64 = known.blocks * known.block_size;
            let available: u64 = known.block_size * known.available_blocks;
            Ok((total, total - available))
        },
    }
}

/// The check whether there are `required` bytes available.
pub open spec fn space_check(stats: Option<SpaceStats>, required: u64) -> Result<(), ShmError> {
    match stats {
        None => Err(ShmError::NoStats),
        Some(known) => if known.available() < required {
            Err(
                ShmError::Insufficient {
                    total: known.total() as u64,
                    used: (known.total() - known.available()) as u64,
                    available: known.available() as u64,
                    shortage: (required - known.available()) as u64,
                },
            )
        } else {
            Ok(())
        },
    }
}

/// Checks that there are `required` bytes available.
pub fn check_shm_space(stats: Option<SpaceStats>, required: u64) -> (r: Result<(), ShmError>)
    requires
        sound_if_known(stats),
    ensures
        r == space_check(stats, required),
{
    let available = match get_shm_available_space(stats) {
        Err(e) => {
            return Err(e);
        },
        Ok(available) => available,
    };
    let (total, used) = match get_shm_usage(stats) {
        Err(e) => {
            return Err(e);
        },
        Ok(usage) => usage,
    };
    if available < required {
        return Err(
            ShmError::Insufficient { total, used, available, shortage: required - available },
        );
    }
    Ok(())
}

/// The hexadecimal digit of `d`.
pub open spec fn hex_digit(d: int) -> char {
    if d < 10 {
        (d + 48) as char
    } else {
        (d + 87) as char
    }
}

/// The bytes in hexadecimal, two digits for each.
pub open spec fn hex(bytes: Seq<u8>) -> Seq<char> {
    Seq::new(
        2 * bytes.len(),
        |i: int|
            hex_digit(
                if i % 2 == 0 {
                    bytes[i / 2] as int / 16
                } else {
                    bytes[i / 2] as int % 16
                },
            ),
    )
}

/// The sixteen bytes in hexadecimal, in five groups.
pub open spec fn hyphenated(bytes: Seq<u8>) -> Seq<char> {
    let digits = hex(bytes);
    digits.subrange(0, 8).push('-') + digits.subrange(8, 12).push('-') + digits.subrange(
        12,
        16,
    ).push('-') + digits.subrange(16, 20).push('-') + digits.subrange(20, 32)
}

/// The bytes are those of a random identifier: the half byte that tells the
/// version is 4, and the two bits that tell the variant are 10.
pub open spec fn is_random_id(bytes: Seq<u8>) -> bool {
    &&& bytes.len() == 16
    &&& bytes[6] as int / 16 == 4
    &&& bytes[8] as int / 64 == 2
}

/// `uuid::Uuid::new_v4`: an identifier whose bytes are random but for its
/// version and its variant. Nothing is claimed of the random bits. It panics
/// where the operating system has no random bytes to give.
#[verifier::external_body]
fn random_id() -> (r: [u8; 16])
    ensures
        is_random_id(r@),
{
    uuid::Uuid::new_v4().into_bytes()
}

/// `uuid::Uuid::simple`: the bytes of the identifier in hexadecimal, in lower
/// case, two digits for each byte.
#[verifier::external_body]
fn simple_text(id: [u8; 16]) -> (r: String)
    ensures
        r@ == hex(id@),
{
    uuid::Uuid::from_bytes(id).simple().to_string()
}

/// `uuid::Uuid::as_hyphenated`: the bytes of the identifier in hexadecimal, in
/// lower case, with a hyphen after the fourth, sixth, eighth and tenth byte.
#[verifier::external_body]
fn hyphenated_text(id: [u8; 16]) -> (r: String)
    ensures
        r@ == hyphenated(id@),
{
    uuid::Uuid::from_bytes(id).as_hyphenated().to_string()
}

/// The name of the shared memory with the identifier `id`.
pub open spec fn shm_id(id: Seq<u8>) -> Seq<char> {
    SHM_PREFIX@ + hex(id)
}

/// Where a file system expects the link to the shared memory of the buffer with
/// the identifier `id`.
pub open spec fn iov_link(mount_point: Seq<char>, id: Seq<u8>) -> Seq<char> {
    without_slashes(mount_point) + "/3fs-virt/iovs/"@ + hyphenated(id)
}

/// Where a file system expects the link to the shared memory of the buffer with
/// the identifier `id`.
pub fn iov_link_path(mount_point: &str, id: [u8; 16]) -> (r: String)
    ensures
        r@ == iov_link(mount_point@, id@),
{
    let mut path = trim_slashes(mount_point);
    path.append("/3fs-virt/iovs/");
    let text = hyphenated_text(id);
    path.append(text.as_str());
    path
}

/// Where a file system expects the link to the shared memory of a new buffer.
pub fn new_iov_link_path(mount_point: &str) -> (r: String)
    ensures
        exists|id: [u8; 16]| is_random_id(#[trigger] id@) && r@ == iov_link(mount_point@, id@),
{
    let id = random_id();
    iov_link_path(mount_point, id)
}

/// The file that holds the shared memory with the name `os_id`.
pub open spec fn shm_file(os_id: Seq<char>) -> Seq<char> {
    if os_id.len() > 0 && os_id[0] == '/' {
        SHM_DIRECTORY@ + os_id
    } else {
        SHM_DIRECTORY@ + "/"@ + os_id
    }
}

/// The file that holds the shared memory with the name `os_id`.
pub fn shm_file_path(os_id: &str) -> (r: String)
    ensures
        r@ == shm_file(os_id@),
{
    let mut path = SHM_DIRECTORY.to_owned();
    if os_id.unicode_len() == 0 || os_id.get_char(0) != '/' {
        path.append("/");
    }
    path.append(os_id);
    path
}

/// Shared memory for the copy of one file.
pub struct ShmManager {
    shm_id: String,
    size: usize,
}

/// What shared memory is like.
#[verifier::ext_equal]
pub struct ShmView {
    pub shm_id: Seq<char>,
    pub size: int,
}

impl View for ShmManager {
    type V = ShmView;

    closed spec fn view(&self) -> ShmView {
        ShmView { shm_id: self.shm_id@, size: self.size as int }
    }
}

impl ShmManager {
    /// Shared memory of `iov_size` bytes with the identifier `id`.
    pub fn with_id(iov_size: usize, id: [u8; 16]) -> (r: Self)
        ensures
            r@ == (ShmView { shm_id: shm_id(id@), size: iov_size as int }),
    {
        let mut name = SHM_PREFIX.to_owned();
        let text = simple_text(id);
        name.append(text.as_str());
        ShmManager { shm_id: name, size: iov_size }
    }

    /// Shared memory of `iov_size` bytes with a name of its own, if there are
    /// `required` bytes available.
    pub fn new(iov_size: usize, stats: Option<SpaceStats>, required: u64) -> (r: Result<
        Self,
        ShmError,
    >)
        requires
            sound_if_known(stats),
        ensures
            match space_check(stats, required) {
                Err(e) => r is Err && r->Err_0 == e,
                Ok(_) => r is Ok && exists|id: [u8; 16]|
                    is_random_id(#[trigger] id@) && r->Ok_0@ == (ShmView {
                        shm_id: shm_id(id@),
                        size: iov_size as int,
                    }),
            },
    {
        if let Err(e) = check_shm_space(stats, required) {
            return Err(e);
        }
        let id = random_id();
        Ok(ShmManager::with_id(iov_size, id))
    }

    /// The name of the shared memory.
    pub fn shm_id(&self) -> (r: &str)
        ensures
            r@ == self@.shm_id,
    {
        self.shm_id.as_str()
    }

    /// The size of the shared memory.
    pub fn len(&self) -> (r: usize)
        ensures
            r == self@.size,
    {
        self.size
    }
}

/// The name is that of shared memory of a copy that may be over.
pub open spec fn is_stale(name: Seq<char>) -> bool {
    "cp_usrbio_"@.is_prefix_of(name) || "cp_usrbio."@.is_prefix_of(name)
}

/// The name has to do with copies.
pub open spec fn is_ours(name: Seq<char>) -> bool {
    "cp_usrbio"@.is_prefix_of(name)
}

/// Picks the names of shared memory that earlier copies have left over, in their
/// order.
pub fn cleanup_stale_shm(names: Vec<String>) -> (r: Vec<String>)
    ensures
        text_views(r@) == text_views(names@).filter(|name: Seq<char>| is_stale(name)),
{
    let ghost stale = |name: Seq<char>| is_stale(name);
    let ghost views = text_views(names@);
    let mut r: Vec<String> = Vec::new();
    let mut i: usize = 0;
    proof {
        reveal(Seq::filter);
        assert(views.take(0) =~= Seq::<Seq<char>>::empty());
        assert(text_views(r@) =~= Seq::<Seq<char>>::empty());
    }
    while i < names.len()
        invariant
            i <= names@.len(),
            stale == (|name: Seq<char>| is_stale(name)),
            views == text_views(names@),
            text_views(r@) == views.take(i as int).filter(stale),
        decreases names@.len() - i,
    {
        let name = names[i].as_str();
        let ghost before = r@;
        proof {
            reveal(Seq::filter);
            assert(views.take(i + 1).drop_last() =~= views.take(i as int));
            assert(views.take(i + 1).last() == name@);
        }
        if has_prefix(name, "cp_usrbio_") || has_prefix(name, "cp_usrbio.") {
            r.push(names[i].clone());
            assert(text_views(r@) =~= text_views(before).push(name@));
        }
        i = i + 1;
    }
    assert(views.take(i as int) =~= views);
    r
}

/// How often `wanted` occurs.
pub open spec fn count_bools(outcomes: Seq<bool>, wanted: bool) -> int
    decreases outcomes.len(),
{
    if outcomes.len() == 0 {
        0
    } else {
        count_bools(outcomes.drop_last(), wanted) + if outcomes.last() == wanted {
            1int
        } else {
            0
        }
    }
}

/// How many files were removed, and how many could not be removed.
pub fn tally_cleanup(outcomes: &Vec<bool>) -> (r: (usize, usize))
    ensures
        r.0 == count_bools(outcomes@, true),
        r.1 == count_bools(outcomes@, false),
        r.0 + r.1 == outcomes@.len(),
{
    let mut cleaned: usize = 0;
    let mut failed: usize = 0;
    let mut i: usize = 0;
    assert(outcomes@.take(0) =~= Seq::<bool>::empty());
    while i < outcomes.len()
        invariant
            i <= outcomes@.len(),
            cleaned == count_bools(outcomes@.take(i as int), true),
            failed == count_bools(outcomes@.take(i as int), false),
            cleaned + failed == i,
        decreases outcomes@.len() - i,
    {
        assert(outcomes@.take(i + 1).drop_last() =~= outcomes@.take(i as int));
        if outcomes[i] {
            cleaned = cleaned + 1;
        } else {
            failed = failed + 1;
        }
        i = i + 1;
    }
    assert(outcomes@.take(i as int) =~= outcomes@);
    (cleaned, failed)
}

/// A file among the shared memory, with its size if that could be read.
pub struct ShmEntry {
    pub name: String,
    pub size: Option<u64>,
}

impl View for ShmEntry {
    type V = (Seq<char>, Option<u64>);

    open spec fn view(&self) -> (Seq<char>, Option<u64>) {
        (self.name@, self.size)
    }
}

/// The views of the entries.
pub open spec fn shm_entry_views(entries: Seq<ShmEntry>) -> Seq<(Seq<char>, Option<u64>)> {
    entries.map_values(|entry: ShmEntry| entry@)
}

/// The entry is listed in the status.
pub open spec fn is_listed(entry: (Seq<char>, Option<u64>)) -> bool {
    is_ours(entry.0) && entry.1 is Some
}

/// The number of bytes in the entries.
pub open spec fn entry_bytes(entries: Seq<(Seq<char>, Option<u64>)>) -> int
    decreases entries.len(),
{
    if entries.len() == 0 {
        0
    } else {
        entry_bytes(entries.drop_last()) + match entries.last().1 {
            Some(size) => size as int,
            None => 0,
        }
    }
}

/// What the status lists: the files that have to do with copies, in their order,
/// and the number of their bytes.
pub struct ShmStatus {
    pub files: Vec<ShmEntry>,
    pub total: u64,
}

proof fn lemma_listed_bytes(entries: Seq<(Seq<char>, Option<u64>)>, n: int)
    requires
        0 <= n <= entries.len(),
    ensures
        ({
            let listed = |entry: (Seq<char>, Option<u64>)| is_listed(entry);
            entry_bytes(entries.take(n).filter(listed)) <= entry_bytes(entries.filter(listed))
        }),
    decreases entries.len() - n,
{
    reveal(Seq::filter);
    let listed = |entry: (Seq<char>, Option<u64>)| is_listed(entry);
    if n == entries.len() {
        assert(entries.take(n) =~= entries);
    } else {
        assert(entries.take(n + 1).drop_last() =~= entries.take(n));
        let kept = entries.take(n).filter(listed);
        assert(kept.push(entries[n]).drop_last() =~= kept);
        lemma_listed_bytes(entries, n + 1);
    }
}

/// Whether the bytes in the files that the status lists can be counted.
pub fn status_fits(entries: &Vec<ShmEntry>) -> (r: bool)
    ensures
        r == (entry_bytes(
            shm_entry_views(entries@).filter(
                |entry: (Seq<char>, Option<u64>)| is_listed(entry),
            ),
        ) <= u64::MAX),
{
    let ghost listed = |entry: (Seq<char>, Option<u64>)| is_listed(entry);
    let ghost views = shm_entry_views(entries@);
    let mut total: u64 = 0;
    let mut i: usize = 0;
    proof {
        reveal(Seq::filter);
        assert(views.take(0) =~= Seq::<(Seq<char>, Option<u64>)>::empty());
    }
    while i < entries.len()
        invariant
            i <= entries@.len(),
            listed == (|entry: (Seq<char>, Option<u64>)| is_listed(entry)),
            views == shm_entry_views(entries@),
            total == entry_bytes(views.take(i as int).filter(listed)),
        decreases entries@.len() - i,
    {
        let entry = &entries[i];
        let ghost before = views.take(i as int).filter(listed);
        proof {
            reveal(Seq::filter);
            assert(views.take(i + 1).drop_last() =~= views.take(i as int));
            assert(views.take(i + 1).last() == entry@);
            assert(before.push(entry@).drop_last() =~= before);
            lemma_listed_bytes(views, i + 1);
        }
        if has_prefix(entry.name.as_str(), "cp_usrbio") {
            if let Some(size) = entry.size {
                if size > u64::MAX - total {
                    return false;
                }
                total = total + size;
            }
        }
        i = i + 1;
    }
    assert(views.take(i as int) =~= views);
    true
}

/// The status of the shared memory, where these files are found.
pub fn show_shm_status(entries: Vec<ShmEntry>) -> (r: ShmStatus)
    requires
        entry_bytes(
            shm_entry_views(entries@).filter(
                |entry: (Seq<char>, Option<u64>)| is_listed(entry),
            ),
        ) <= u64::MAX,
    ensures
        shm_entry_views(r.files@) == shm_entry_views(entries@).filter(
            |entry: (Seq<char>, Option<u64>)| is_listed(entry),
        ),
        r.total == entry_bytes(shm_entry_views(r.files@)),
{
    let ghost listed = |entry: (Seq<char>, Option<u64>)| is_listed(entry);
    let ghost views = shm_entry_views(entries@);
    let mut files: Vec<ShmEntry> = Vec::new();
    let mut total: u64 = 0;
    let mut i: usize = 0;
    proof {
        reveal(Seq::filter);
        assert(views.take(0) =~= Seq::<(Seq<char>, Option<u64>)>::empty());
        assert(shm_entry_views(files@) =~= Seq::<(Seq<char>, Option<u64>)>::empty());
    }
    while i < entries.len()
        invariant
            i <= entries@.len(),
            listed == (|entry: (Seq<char>, Option<u64>)| is_listed(entry)),
            views == shm_entry_views(entries@),
            shm_entry_views(files@) == views.take(i as int).filter(listed),
            total == entry_bytes(shm_entry_views(files@)),
            entry_bytes(views.filter(listed)) <= u64::MAX,
        decreases entries@.len() - i,
    {
        let entry = &entries[i];
        let ghost before = shm_entry_views(files@);
        proof {
            reveal(Seq::filter);
            assert(views.take(i + 1).drop_last() =~= views.take(i as int));
            assert(views.take(i + 1).last() == entry@);
            lemma_listed_bytes(views, i + 1);
            assert(before.push(entry@).drop_last() =~= before);
        }
        if has_prefix(entry.name.as_str(), "cp_usrbio") {
            if let Some(size) = entry.size {
                assert(entry_bytes(before.push(entry@)) == entry_bytes(before) + size);
                files.push(ShmEntry { name: entry.name.clone(), size: Some(size) });
                assert(shm_entry_views(files@) =~= before.push(entry@));
                total = total + size;
            }
        }
        i = i + 1;
    }
    assert(views.take(i as int) =~= views);
    ShmStatus { files, total }
}

} // verus!
