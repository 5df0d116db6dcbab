//! Paths of files, as the bytes that the operating system knows them by.

use vstd::prelude::*;
use vstd::utf8::{decode_utf8, encode_utf8, valid_utf8};

verus! {

pub const SLASH: u8 = 47;

pub const DOT: u8 = 46;

/// The path of a file or a directory.
pub struct FilePath {
    bytes: Vec<u8>,
}

impl View for FilePath {
    type V = Seq<u8>;

    closed spec fn view(&self) -> Seq<u8> {
        self.bytes@
    }
}

/// The parts of a path between its slashes, empty ones included.
pub open spec fn pieces(path: Seq<u8>) -> Seq<Seq<u8>>
    decreases path.len(),
{
    if path.len() == 0 {
        seq![Seq::empty()]
    } else {
        let front = pieces(path.drop_last());
        if path.last() == SLASH {
            front.push(Seq::empty())
        } else {
            front.drop_last().push(front.last().push(path.last()))
        }
    }
}

/// The piece names something: it is neither empty nor a single dot.
pub open spec fn is_name(piece: Seq<u8>) -> bool {
    piece.len() > 0 && piece != seq![DOT]
}

/// The names in the path, from the outermost directory to the file.
pub open spec fn names(path: Seq<u8>) -> Seq<Seq<u8>> {
    pieces(path).filter(|piece: Seq<u8>| is_name(piece))
}

pub open spec fn is_absolute(path: Seq<u8>) -> bool {
    path.len() > 0 && path[0] == SLASH
}

/// What a path starts from: the root directory, the current directory where
/// the path says so, or nothing.
pub open spec fn origin(path: Seq<u8>) -> Seq<Seq<u8>> {
    if is_absolute(path) {
        seq![seq![SLASH]]
    } else if pieces(path)[0] == seq![DOT] {
        seq![seq![DOT]]
    } else {
        Seq::empty()
    }
}

/// What a path is made of. Repeated slashes, a slash at the end, and dots that
/// are not at the beginning make no difference.
pub open spec fn components(path: Seq<u8>) -> Seq<Seq<u8>> {
    origin(path) + names(path)
}

/// The path `rel`, seen from the directory `base`.
pub open spec fn joined(base: Seq<u8>, rel: Seq<u8>) -> Seq<u8> {
    if is_absolute(rel) {
        rel
    } else if base.len() == 0 || base.last() == SLASH {
        base + rel
    } else {
        base.push(SLASH) + rel
    }
}

/// The parts with a slash between each two of them.
pub open spec fn with_slashes(parts: Seq<Seq<u8>>) -> Seq<u8>
    decreases parts.len(),
{
    if parts.len() == 0 {
        Seq::empty()
    } else if parts.len() == 1 {
        parts[0]
    } else {
        with_slashes(parts.drop_last()).push(SLASH) + parts.last()
    }
}

/// The pieces behind what the path starts from.
pub open spec fn body(path: Seq<u8>) -> Seq<Seq<u8>> {
    pieces(path).skip(origin(path).len() as int)
}

/// The pieces behind the first `k` names.
pub open spec fn behind_names(parts: Seq<Seq<u8>>, k: int) -> Seq<Seq<u8>>
    decreases parts.len(),
{
    if k <= 0 || parts.len() == 0 {
        parts
    } else if is_name(parts[0]) {
        behind_names(parts.drop_first(), k - 1)
    } else {
        behind_names(parts.drop_first(), k)
    }
}

/// The pieces from the first name on.
pub open spec fn without_leading(parts: Seq<Seq<u8>>) -> Seq<Seq<u8>>
    decreases parts.len(),
{
    if parts.len() > 0 && !is_name(parts[0]) {
        without_leading(parts.drop_first())
    } else {
        parts
    }
}

/// The pieces up to the last name.
pub open spec fn without_trailing(parts: Seq<Seq<u8>>) -> Seq<Seq<u8>>
    decreases parts.len(),
{
    if parts.len() > 0 && !is_name(parts.last()) {
        without_trailing(parts.drop_last())
    } else {
        parts
    }
}

/// The path with the pieces `kept` behind what it starts from.
pub open spec fn keeping(path: Seq<u8>, kept: Seq<Seq<u8>>) -> Seq<u8> {
    if origin(path).len() == 0 {
        with_slashes(kept)
    } else if kept.len() == 0 {
        origin(path)[0]
    } else {
        with_slashes(seq![pieces(path)[0]] + kept)
    }
}

/// The path without what is behind its last name.
pub open spec fn tidied(path: Seq<u8>) -> Seq<u8> {
    keeping(path, without_trailing(body(path)))
}

/// The path has a directory around it: it is neither empty nor the root directory.
pub open spec fn has_parent(path: Seq<u8>) -> bool {
    components(path).len() > 0 && components(path).last() != seq![SLASH]
}

/// The directory around the path, which is the path without its last component.
pub open spec fn parent_of(path: Seq<u8>) -> Seq<u8> {
    let kept = without_trailing(body(path));
    if kept.len() == 0 {
        Seq::empty()
    } else {
        keeping(path, without_trailing(kept.drop_last()))
    }
}

/// The path and the directories around it, from the innermost on.
pub open spec fn ancestors_of(path: Seq<u8>) -> Seq<Seq<u8>>
    decreases components(path).len(),
{
    if has_parent(path) {
        proof {
            crate::path_laws::law_parent_drops_the_last_component(path);
        }
        seq![path] + ancestors_of(parent_of(path))
    } else {
        seq![path]
    }
}

/// The views of the paths.
pub open spec fn path_views(paths: Seq<FilePath>) -> Seq<Seq<u8>> {
    paths.map_values(|path: FilePath| path@)
}

/// What is left of `path` below `base`: the part of it that begins with the first
/// name behind the components of `base`, as it is written.
pub open spec fn below(path: Seq<u8>, base: Seq<u8>) -> Seq<u8> {
    let k = components(base).len();
    if k == 0 {
        tidied(path)
    } else {
        with_slashes(
            without_trailing(without_leading(behind_names(body(path), k - origin(path).len()))),
        )
    }
}

/// The last component names something that can be found below another
/// directory.
pub open spec fn has_file_name(path: Seq<u8>) -> bool {
    let parts = components(path);
    &&& parts.len() > 0
    &&& parts.last() != seq![SLASH]
    &&& parts.last() != seq![DOT]
    &&& parts.last() != seq![DOT, DOT]
}

/// The bytes as text, or the word `unknown` where they are not text.
pub open spec fn text_or_unknown(bytes: Seq<u8>) -> Seq<char> {
    if valid_utf8(bytes) {
        decode_utf8(bytes)
    } else {
        "unknown"@
    }
}

/// `String::from_utf8` of the standard library: it decodes exactly the byte
/// sequences that are valid UTF-8, and refuses the others.
#[verifier::external_body]
fn decode(bytes: Vec<u8>) -> (r: Option<String>)
    ensures
        r is Some <==> valid_utf8(bytes@),
        r matches Some(text) ==> text@ == decode_utf8(bytes@),
{
    String::from_utf8(bytes).ok()
}

/// The views of the parts.
pub open spec fn part_views(parts: Seq<Vec<u8>>) -> Seq<Seq<u8>> {
    parts.map_values(|part: Vec<u8>| part@)
}

fn copy_bytes(bytes: &Vec<u8>) -> (r: Vec<u8>)
    ensures
        r@ == bytes@,
{
    let mut r: Vec<u8> = Vec::new();
    let mut i: usize = 0;
    while i < bytes.len()
        invariant
            i <= bytes.len(),
            r@ =~= bytes@.take(i as int),
        decreases bytes.len() - i,
    {
        r.push(bytes[i]);
        i = i + 1;
    }
    assert(bytes@.take(i as int) =~= bytes@);
    r
}

fn same_bytes(a: &Vec<u8>, b: &Vec<u8>) -> (r: bool)
    ensures
        r == (a@ == b@),
{
    if a.len() != b.len() {
        return false;
    }
    let mut i: usize = 0;
    while i < a.len()
        invariant
            i <= a.len() == b.len(),
            forall|k: int| 0 <= k < i ==> a@[k] == b@[k],
        decreases a.len() - i,
    {
        if a[i] != b[i] {
            return false;
        }
        i = i + 1;
    }
    assert(a@ =~= b@);
    true
}

fn names_something(piece: &Vec<u8>) -> (r: bool)
    ensures
        r == is_name(piece@),
{
    assert(piece@.len() == 1 && piece@[0] == DOT ==> piece@ =~= seq![DOT]);
    piece.len() > 0 && !(piece.len() == 1 && piece[0] == DOT)
}

pub(crate) proof fn lemma_pieces_nonempty(path: Seq<u8>)
    ensures
        pieces(path).len() > 0,
    decreases path.len(),
{
    if path.len() > 0 {
        lemma_pieces_nonempty(path.drop_last());
    }
}

pub(crate) proof fn lemma_filter_push(parts: Seq<Seq<u8>>, part: Seq<u8>)
    ensures
        ({
            let keep = |piece: Seq<u8>| is_name(piece);
            parts.push(part).filter(keep) == if is_name(part) {
                parts.filter(keep).push(part)
            } else {
                parts.filter(keep)
            }
        }),
{
    reveal(Seq::filter);
    assert(parts.push(part).drop_last() =~= parts);
}

impl FilePath {
    /// The path with the given bytes.
    pub fn from_bytes(bytes: Vec<u8>) -> (r: Self)
        ensures
            r@ == bytes@,
    {
        FilePath { bytes }
    }

    /// The path that is written as `text`.
    pub fn from_text(text: &str) -> (r: Self)
        ensures
            r@ == encode_utf8(text@),
    {
        FilePath { bytes: text.as_bytes_vec() }
    }

    /// The bytes of the path.
    pub fn as_bytes(&self) -> (r: &Vec<u8>)
        ensures
            r@ == self@,
    {
        &self.bytes
    }

    /// The same path once more.
    pub fn duplicate(&self) -> (r: Self)
        ensures
            r@ == self@,
    {
        FilePath { bytes: copy_bytes(&self.bytes) }
    }

    /// Splits the path at its slashes.
    fn split(&self) -> (r: Vec<Vec<u8>>)
        ensures
            part_views(r@) == pieces(self@),
    {
        let mut found: Vec<Vec<u8>> = Vec::new();
        let mut piece: Vec<u8> = Vec::new();
        let mut i: usize = 0;
        assert(self@.take(0) =~= Seq::<u8>::empty());
        assert(part_views(found@) =~= pieces(self@.take(0)).drop_last());
        while i < self.bytes.len()
            invariant
                i <= self.bytes@.len(),
                pieces(self@.take(i as int)).len() > 0,
                piece@ == pieces(self@.take(i as int)).last(),
                part_views(found@) == pieces(self@.take(i as int)).drop_last(),
            decreases self.bytes@.len() - i,
        {
            let b = self.bytes[i];
            let ghost before = pieces(self@.take(i as int));
            let ghost old_found = found@;
            assert(self@.take(i + 1).drop_last() =~= self@.take(i as int));
            assert(self@.take(i + 1).last() == b);
            if b == SLASH {
                found.push(piece);
                piece = Vec::new();
                assert(piece@ =~= Seq::<u8>::empty());
                assert(part_views(found@) =~= part_views(old_found).push(before.last()));
                assert(pieces(self@.take(i + 1)).drop_last() =~= before);
            } else {
                piece.push(b);
                assert(pieces(self@.take(i + 1)).drop_last() =~= before.drop_last());
            }
            i = i + 1;
        }
        assert(self@.take(i as int) =~= self@);
        let ghost old_found = found@;
        let ghost all = pieces(self@);
        found.push(piece);
        assert(part_views(found@) =~= part_views(old_found).push(all.last()));
        assert(all =~= all.drop_last().push(all.last()));
        found
    }

    /// Whether the path starts from somewhere: the root directory, or the current
    /// directory. `raw` are the pieces of the path.
    fn has_origin(&self, raw: &Vec<Vec<u8>>) -> (r: bool)
        requires
            part_views(raw@) == pieces(self@),
        ensures
            r == (origin(self@).len() == 1),
            !r ==> origin(self@).len() == 0,
    {
        proof {
            lemma_pieces_nonempty(self@);
        }
        assert(raw@.len() == part_views(raw@).len());
        assert(part_views(raw@)[0] == raw@[0]@);
        let here = raw[0].len() == 1 && raw[0][0] == DOT;
        assert(here == (raw@[0]@ =~= seq![DOT]));
        self.bytes.len() > 0 && self.bytes[0] == SLASH || here
    }

    /// The components of the path. `raw` are its pieces.
    fn parts(&self, raw: &Vec<Vec<u8>>) -> (r: Vec<Vec<u8>>)
        requires
            part_views(raw@) == pieces(self@),
        ensures
            part_views(r@) == components(self@),
    {
        let ghost keep = |piece: Seq<u8>| is_name(piece);
        let ghost all = pieces(self@);
        let mut r: Vec<Vec<u8>> = Vec::new();
        if self.has_origin(raw) {
            if self.bytes.len() > 0 && self.bytes[0] == SLASH {
                let mut root: Vec<u8> = Vec::new();
                root.push(SLASH);
                assert(root@ =~= seq![SLASH]);
                r.push(root);
            } else {
                let mut dot: Vec<u8> = Vec::new();
                dot.push(DOT);
                assert(dot@ =~= seq![DOT]);
                r.push(dot);
            }
        }
        assert(part_views(r@) =~= origin(self@));
        let mut i: usize = 0;
        proof {
            reveal(Seq::filter);
            assert(all.take(0) =~= Seq::<Seq<u8>>::empty());
            assert(origin(self@) + all.take(0).filter(keep) =~= origin(self@));
        }
        while i < raw.len()
            invariant
                keep == (|piece: Seq<u8>| is_name(piece)),
                i <= raw@.len(),
                all == pieces(self@),
                part_views(raw@) == all,
                part_views(r@) == origin(self@) + all.take(i as int).filter(keep),
            decreases raw@.len() - i,
        {
            let ghost before = r@;
            assert(all[i as int] == raw@[i as int]@);
            assert(all.take(i + 1) =~= all.take(i as int).push(all[i as int]));
            proof {
                lemma_filter_push(all.take(i as int), all[i as int]);
            }
            if names_something(&raw[i]) {
                r.push(copy_bytes(&raw[i]));
                assert(part_views(r@) =~= part_views(before).push(all[i as int]));
                assert(part_views(r@) =~= origin(self@) + all.take(i + 1).filter(keep));
            }
            i = i + 1;
        }
        assert(all.take(i as int) =~= all);
        r
    }

    /// Whether the two paths have the same components.
    pub fn same_as(&self, other: &FilePath) -> (r: bool)
        ensures
            r == (components(self@) == components(other@)),
    {
        let a = self.parts(&self.split());
        let b = other.parts(&other.split());
        if a.len() != b.len() {
            assert(part_views(a@).len() != part_views(b@).len());
            return false;
        }
        starts_with(&a, &b)
    }

    /// The path `rel`, seen from this directory.
    pub fn join(&self, rel: &FilePath) -> (r: FilePath)
        ensures
            r@ == joined(self@, rel@),
    {
        let n = self.bytes.len();
        if rel.bytes.len() > 0 && rel.bytes[0] == SLASH {
            return rel.duplicate();
        }
        let mut bytes = copy_bytes(&self.bytes);
        if n > 0 && self.bytes[n - 1] != SLASH {
            bytes.push(SLASH);
        }
        let mut tail = copy_bytes(&rel.bytes);
        bytes.append(&mut tail);
        FilePath { bytes }
    }

    /// What is left of the path below `base`, if it lies below `base`.
    pub fn strip_prefix(&self, base: &FilePath) -> (r: Option<FilePath>)
        ensures
            r is Some <==> components(base@).is_prefix_of(components(self@)),
            r matches Some(rest) ==> rest@ == below(self@, base@),
    {
        let raw = self.split();
        let parts = self.parts(&raw);
        let front = base.parts(&base.split());
        assert(part_views(front@).len() == front@.len());
        assert(part_views(parts@).len() == parts@.len());
        if front.len() > parts.len() {
            return None;
        }
        if !starts_with(&parts, &front) {
            return None;
        }
        let ghost all = pieces(self@);
        let total = raw.len();
        let started = self.has_origin(&raw);
        let first: usize = if started {
            1
        } else {
            0
        };
        proof {
            lemma_pieces_nonempty(self@);
        }
        assert(part_views(raw@).len() == raw@.len());
        assert(all.skip(first as int) =~= body(self@));
        if front.len() == 0 {
            let end = last_name(&raw, first, total);
            assert(all.subrange(first as int, total as int) =~= body(self@));
            return Some(FilePath { bytes: self.keep(&raw, &parts, started, end) });
        }
        let mut left: usize = front.len() - first;
        let mut start: usize = first;
        while start < total && left > 0
            invariant
                all == pieces(self@),
                part_views(raw@) == all,
                total == raw@.len(),
                start <= total,
                behind_names(body(self@), front@.len() - first) == behind_names(
                    all.skip(start as int),
                    left as int,
                ),
            decreases total - start,
        {
            assert(all[start as int] == raw@[start as int]@);
            assert(all.skip(start as int).drop_first() =~= all.skip(start + 1));
            if names_something(&raw[start]) {
                left = left - 1;
            }
            start = start + 1;
        }
        let ghost behind = all.skip(start as int);
        assert(behind == behind_names(body(self@), front@.len() - first));
        while start < total && !names_something(&raw[start])
            invariant
                all == pieces(self@),
                part_views(raw@) == all,
                total == raw@.len(),
                start <= total,
                without_leading(behind) == without_leading(all.skip(start as int)),
            decreases total - start,
        {
            assert(all[start as int] == raw@[start as int]@);
            assert(all.skip(start as int).drop_first() =~= all.skip(start + 1));
            start = start + 1;
        }
        assert(start < total ==> all[start as int] == raw@[start as int]@);
        assert(without_leading(behind) == all.skip(start as int));
        let end = last_name(&raw, start, total);
        assert(all.subrange(start as int, total as int) =~= all.skip(start as int));
        Some(FilePath { bytes: render(&raw, start, end) })
    }

    /// The directory around the path, if there is one.
    pub fn parent(&self) -> (r: Option<FilePath>)
        ensures
            r is Some <==> has_parent(self@),
            r matches Some(p) ==> p@ == parent_of(self@) && components(p@) == components(
                self@,
            ).drop_last(),
    {
        let raw = self.split();
        let parts = self.parts(&raw);
        let ghost all = pieces(self@);
        assert(part_views(parts@).len() == parts@.len());
        assert(part_views(raw@).len() == raw@.len());
        if parts.len() == 0 {
            return None;
        }
        let last = &parts[parts.len() - 1];
        assert(part_views(parts@).last() == last@);
        if last.len() == 1 && last[0] == SLASH {
            assert(last@ =~= seq![SLASH]);
            return None;
        }
        assert(last@ != seq![SLASH]) by {
            assert(seq![SLASH].len() == 1 && seq![SLASH][0] == SLASH);
        }
        proof {
            crate::path_laws::law_parent_drops_the_last_component(self@);
            lemma_pieces_nonempty(self@);
        }
        let started = self.has_origin(&raw);
        let first: usize = if started {
            1
        } else {
            0
        };
        assert(all.skip(first as int) =~= body(self@));
        let end = last_name(&raw, first, raw.len());
        let ghost kept = without_trailing(body(self@));
        assert(all.subrange(first as int, all.len() as int) =~= body(self@));
        assert(kept == all.subrange(first as int, end as int));
        if end == first {
            let none: Vec<u8> = Vec::new();
            assert(none@ =~= Seq::<u8>::empty());
            return Some(FilePath { bytes: none });
        }
        let stop = last_name(&raw, first, end - 1);
        assert(kept.drop_last() =~= all.subrange(first as int, end - 1));
        Some(FilePath { bytes: self.keep(&raw, &parts, started, stop) })
    }

    /// The path with its pieces up to number `end`. `raw` are its pieces, `parts` its
    /// components, and `started` tells whether it starts from somewhere.
    fn keep(&self, raw: &Vec<Vec<u8>>, parts: &Vec<Vec<u8>>, started: bool, end: usize) -> (r: Vec<
        u8,
    >)
        requires
            part_views(raw@) == pieces(self@),
            part_views(parts@) == components(self@),
            started == (origin(self@).len() == 1),
            !started ==> origin(self@).len() == 0,
            origin(self@).len() <= end <= raw@.len(),
        ensures
            r@ == keeping(self@, pieces(self@).subrange(origin(self@).len() as int, end as int)),
    {
        let ghost all = pieces(self@);
        let ghost kept = all.subrange(origin(self@).len() as int, end as int);
        assert(part_views(parts@).len() == parts@.len());
        assert(part_views(raw@).len() == raw@.len());
        if started && end == 1 {
            assert(part_views(parts@)[0] == parts@[0]@);
            assert(components(self@)[0] == origin(self@)[0]);
            return copy_bytes(&parts[0]);
        }
        assert(all.subrange(0, end as int) =~= if started {
            seq![all[0]] + kept
        } else {
            kept
        });
        render(raw, 0, end)
    }

    /// The path and the directories around it, from the innermost on.
    pub fn ancestors(&self) -> (r: Vec<FilePath>)
        ensures
            path_views(r@) == ancestors_of(self@),
    {
        let mut r: Vec<FilePath> = Vec::new();
        let mut here = self.duplicate();
        assert(path_views(r@) + ancestors_of(here@) =~= ancestors_of(self@));
        loop
            invariant_except_break
                path_views(r@) + ancestors_of(here@) == ancestors_of(self@),
            ensures
                path_views(r@) == ancestors_of(self@),
            decreases components(here@).len(),
        {
            let ghost before = r@;
            match here.parent() {
                None => {
                    r.push(here);
                    assert(path_views(r@) =~= path_views(before) + ancestors_of(here@));
                    break;
                },
                Some(around) => {
                    let ghost old_here = here@;
                    r.push(here);
                    assert(path_views(r@) =~= path_views(before).push(old_here));
                    assert(path_views(r@) + ancestors_of(around@) =~= path_views(before) + (seq![
                        old_here,
                    ] + ancestors_of(around@)));
                    here = around;
                },
            }
        }
        r
    }

    /// The last component of the path as text, where it names a file. What is
    /// not text is called `unknown`, and so is a path that names no file.
    pub fn file_name_text(&self) -> (r: String)
        ensures
            r@ == if has_file_name(self@) {
                text_or_unknown(components(self@).last())
            } else {
                "unknown"@
            },
    {
        let mut parts = self.parts(&self.split());
        let ghost all = part_views(parts@);
        match parts.pop() {
            None => "unknown".to_owned(),
            Some(last) => {
                assert(last@ == all.last());
                let n = last.len();
                let special = n == 1 && (last[0] == SLASH || last[0] == DOT) || n == 2 && last[0]
                    == DOT && last[1] == DOT;
                assert(special == (last@ =~= seq![SLASH] || last@ =~= seq![DOT] || last@ =~= seq![
                    DOT,
                    DOT,
                ]));
                if special {
                    "unknown".to_owned()
                } else {
                    match decode(last) {
                        Some(text) => text,
                        None => "unknown".to_owned(),
                    }
                }
            },
        }
    }

    /// Whether the path is text without a zero in it.
    pub fn is_text_without_zero(&self) -> (r: bool)
        ensures
            r == (valid_utf8(self@) && !self@.contains(0u8)),
    {
        let mut i: usize = 0;
        while i < self.bytes.len()
            invariant
                i <= self.bytes@.len(),
                forall|k: int| 0 <= k < i ==> self.bytes@[k] != 0,
            decreases self.bytes@.len() - i,
        {
            if self.bytes[i] == 0 {
                assert(self@[i as int] == 0u8);
                return false;
            }
            i = i + 1;
        }
        decode(copy_bytes(&self.bytes)).is_some()
    }

    /// The path as text, or the word `unknown` where it is not text.
    pub fn text(&self) -> (r: String)
        ensures
            r@ == text_or_unknown(self@),
    {
        match decode(copy_bytes(&self.bytes)) {
            Some(text) => text,
            None => "unknown".to_owned(),
        }
    }
}

/// Whether the first of the `parts` are those of `front`.
fn starts_with(parts: &Vec<Vec<u8>>, front: &Vec<Vec<u8>>) -> (r: bool)
    requires
        front@.len() <= parts@.len(),
    ensures
        r == part_views(front@).is_prefix_of(part_views(parts@)),
        front@.len() == parts@.len() ==> r == (part_views(parts@) == part_views(front@)),
{
    let ghost a = part_views(parts@);
    let ghost b = part_views(front@);
    let mut i: usize = 0;
    while i < front.len()
        invariant
            a == part_views(parts@),
            b == part_views(front@),
            i <= front@.len() <= parts@.len(),
            forall|k: int| 0 <= k < i ==> a[k] == b[k],
        decreases front@.len() - i,
    {
        if !same_bytes(&parts[i], &front[i]) {
            assert(a[i as int] != b[i as int]);
            assert(a.subrange(0, b.len() as int)[i as int] == a[i as int]);
            return false;
        }
        assert(a[i as int] == b[i as int]);
        i = i + 1;
    }
    assert(b =~= a.subrange(0, b.len() as int));
    assert(front@.len() == parts@.len() ==> a =~= b);
    true
}

/// Where the pieces from number `from` up to number `to` end, if what is behind the
/// last name among them is left out.
fn last_name(parts: &Vec<Vec<u8>>, from: usize, to: usize) -> (end: usize)
    requires
        from <= to <= parts@.len(),
    ensures
        from <= end <= to,
        without_trailing(part_views(parts@).subrange(from as int, to as int)) == part_views(
            parts@,
        ).subrange(from as int, end as int),
{
    let ghost all = part_views(parts@);
    let ghost part = all.subrange(from as int, to as int);
    let mut end = to;
    while end > from && !names_something(&parts[end - 1])
        invariant
            all == part_views(parts@),
            from <= end <= to <= parts@.len(),
            without_trailing(part) == without_trailing(all.subrange(from as int, end as int)),
        decreases end,
    {
        let ghost now = all.subrange(from as int, end as int);
        assert(now.last() == parts@[end - 1]@);
        assert(now.drop_last() =~= all.subrange(from as int, end - 1));
        end = end - 1;
    }
    assert(end > from ==> all.subrange(from as int, end as int).last() == parts@[end - 1]@);
    end
}

/// The pieces from number `from` up to number `end`, with slashes between them.
fn render(parts: &Vec<Vec<u8>>, from: usize, end: usize) -> (r: Vec<u8>)
    requires
        from <= end <= parts@.len(),
    ensures
        r@ == with_slashes(part_views(parts@).subrange(from as int, end as int)),
{
    let ghost all = part_views(parts@);
    let mut r: Vec<u8> = Vec::new();
    let mut i = from;
    assert(all.subrange(from as int, from as int) =~= Seq::<Seq<u8>>::empty());
    assert(r@ =~= Seq::<u8>::empty());
    while i < end
        invariant
            all == part_views(parts@),
            from <= i <= end <= parts@.len(),
            r@ == with_slashes(all.subrange(from as int, i as int)),
        decreases end - i,
    {
        let ghost before = all.subrange(from as int, i as int);
        let ghost after = all.subrange(from as int, i + 1);
        assert(after.drop_last() =~= before);
        assert(after.last() == parts@[i as int]@);
        if i > from {
            r.push(SLASH);
        }
        let mut part = copy_bytes(&parts[i]);
        r.append(&mut part);
        assert(r@ =~= with_slashes(after));
        i = i + 1;
    }
    r
}

} // verus!
