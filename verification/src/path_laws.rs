//! What taking paths apart and putting them together amounts to.

use crate::path::{
    ancestors_of, behind_names, below, body, components, has_parent, is_absolute, is_name, joined,
    keeping, lemma_filter_push, lemma_pieces_nonempty, names, origin, parent_of, pieces,
    text_or_unknown, tidied, with_slashes, without_leading, without_trailing, DOT, SLASH,
};
use vstd::prelude::*;
use vstd::utf8::{decode_utf8_encode_utf8, encode_utf8, valid_utf8};

verus! {

spec fn has_no_slash(part: Seq<u8>) -> bool {
    forall|i: int| 0 <= i < part.len() ==> #[trigger] part[i] != SLASH
}

/// No part has a slash.
spec fn slash_free(parts: Seq<Seq<u8>>) -> bool {
    forall|i: int| 0 <= i < parts.len() ==> has_no_slash(#[trigger] parts[i])
}

/// The names among the parts.
spec fn named(parts: Seq<Seq<u8>>) -> Seq<Seq<u8>> {
    parts.filter(|piece: Seq<u8>| is_name(piece))
}

proof fn lemma_pieces_have_no_slash(path: Seq<u8>)
    ensures
        pieces(path).len() > 0,
        slash_free(pieces(path)),
    decreases path.len(),
{
    if path.len() > 0 {
        lemma_pieces_have_no_slash(path.drop_last());
        let front = pieces(path.drop_last());
        assert(has_no_slash(front[front.len() - 1]));
    }
}

/// A slash between two paths separates their pieces.
proof fn lemma_pieces_around_slash(a: Seq<u8>, b: Seq<u8>)
    ensures
        pieces(a.push(SLASH) + b) == pieces(a) + pieces(b),
    decreases b.len(),
{
    lemma_pieces_nonempty(a);
    if b.len() == 0 {
        assert(a.push(SLASH) + b =~= a.push(SLASH));
        assert(a.push(SLASH).drop_last() =~= a);
        assert(pieces(a.push(SLASH)) =~= pieces(a) + pieces(b));
    } else {
        let whole = a.push(SLASH) + b;
        assert(whole.drop_last() =~= a.push(SLASH) + b.drop_last());
        assert(whole.last() == b.last());
        lemma_pieces_around_slash(a, b.drop_last());
        let front = pieces(b.drop_last());
        lemma_pieces_nonempty(b.drop_last());
        let both = pieces(a) + front;
        assert(both.last() == front.last());
        assert(both.drop_last() =~= pieces(a) + front.drop_last());
        assert(pieces(whole) =~= pieces(a) + pieces(b));
    }
}

proof fn lemma_filter_concat(a: Seq<Seq<u8>>, b: Seq<Seq<u8>>)
    ensures
        ({
            let keep = |piece: Seq<u8>| is_name(piece);
            (a + b).filter(keep) == a.filter(keep) + b.filter(keep)
        }),
    decreases b.len(),
{
    let keep = |piece: Seq<u8>| is_name(piece);
    if b.len() == 0 {
        reveal(Seq::filter);
        assert(a + b =~= a);
        assert(a.filter(keep) + b.filter(keep) =~= a.filter(keep));
    } else {
        lemma_filter_concat(a, b.drop_last());
        assert(a + b =~= (a + b.drop_last()).push(b.last()));
        assert(b =~= b.drop_last().push(b.last()));
        lemma_filter_push(a + b.drop_last(), b.last());
        lemma_filter_push(b.drop_last(), b.last());
        assert((a + b).filter(keep) =~= a.filter(keep) + b.filter(keep));
    }
}

proof fn lemma_pieces_of_one(part: Seq<u8>)
    requires
        has_no_slash(part),
    ensures
        pieces(part) == seq![part],
    decreases part.len(),
{
    if part.len() > 0 {
        let front = part.drop_last();
        assert(has_no_slash(front)) by {
            assert forall|i: int| 0 <= i < front.len() implies #[trigger] front[i] != SLASH by {
                assert(front[i] == part[i]);
            }
        }
        lemma_pieces_of_one(front);
        assert(part[part.len() - 1] != SLASH);
        assert(front.push(part.last()) =~= part);
        assert(pieces(front).last() == front);
        assert(pieces(front).drop_last() =~= Seq::<Seq<u8>>::empty());
        assert(pieces(part) =~= seq![part]);
    } else {
        assert(part =~= Seq::<u8>::empty());
        assert(pieces(part) =~= seq![part]);
    }
}

/// Parts with slashes between them are the pieces of the path.
proof fn lemma_pieces_of_joined(parts: Seq<Seq<u8>>)
    requires
        slash_free(parts),
        parts.len() > 0,
    ensures
        pieces(with_slashes(parts)) == parts,
    decreases parts.len(),
{
    assert(has_no_slash(parts[parts.len() - 1]));
    lemma_pieces_of_one(parts.last());
    if parts.len() == 1 {
        assert(seq![parts[0]] =~= parts);
    } else {
        let front = parts.drop_last();
        lemma_pieces_of_joined(front);
        lemma_pieces_around_slash(with_slashes(front), parts.last());
        assert(front + seq![parts.last()] =~= parts);
    }
}

/// A path that does not begin with a slash has a first piece.
proof fn lemma_first_piece(path: Seq<u8>)
    requires
        path.len() > 0,
        path[0] != SLASH,
    ensures
        pieces(path).len() > 0,
        pieces(path)[0].len() > 0,
    decreases path.len(),
{
    lemma_pieces_nonempty(path);
    if path.len() == 1 {
        assert(path.drop_last() =~= Seq::<u8>::empty());
        assert(path.last() == path[0]);
        assert(pieces(path.drop_last()) =~= seq![Seq::<u8>::empty()]);
        assert(pieces(path)[0] =~= seq![path[0]]);
    } else {
        let front = pieces(path.drop_last());
        lemma_first_piece(path.drop_last());
        if path.last() == SLASH || front.len() > 1 {
            assert(pieces(path)[0] == front[0]);
        } else {
            assert(pieces(path)[0] == front[0].push(path.last()));
        }
    }
}

/// A path that begins with a slash has nothing before it.
proof fn lemma_nothing_before_the_root(path: Seq<u8>)
    requires
        is_absolute(path),
    ensures
        pieces(path).len() > 1,
        pieces(path)[0].len() == 0,
    decreases path.len(),
{
    lemma_pieces_nonempty(path);
    if path.len() == 1 {
        assert(path.drop_last() =~= Seq::<u8>::empty());
        assert(path.last() == path[0]);
        assert(pieces(path.drop_last()) =~= seq![Seq::<u8>::empty()]);
    } else {
        lemma_nothing_before_the_root(path.drop_last());
    }
}

proof fn lemma_named_push(parts: Seq<Seq<u8>>, part: Seq<u8>)
    ensures
        named(parts.push(part)) == if is_name(part) {
            named(parts).push(part)
        } else {
            named(parts)
        },
{
    lemma_filter_push(parts, part);
}

proof fn lemma_named_first(parts: Seq<Seq<u8>>)
    requires
        parts.len() > 0,
    ensures
        named(parts) == if is_name(parts[0]) {
            seq![parts[0]] + named(parts.drop_first())
        } else {
            named(parts.drop_first())
        },
{
    reveal(Seq::filter);
    let one = seq![parts[0]];
    assert(parts =~= one + parts.drop_first());
    lemma_filter_concat(one, parts.drop_first());
    assert(one =~= Seq::<Seq<u8>>::empty().push(parts[0]));
    lemma_named_push(Seq::empty(), parts[0]);
    assert(named(Seq::empty()) =~= Seq::<Seq<u8>>::empty());
    if is_name(parts[0]) {
        assert(named(one) =~= one);
    } else {
        assert(named(one) + named(parts.drop_first()) =~= named(parts.drop_first()));
    }
}

/// Leaving out what is before the first name leaves out no name.
proof fn lemma_without_leading(parts: Seq<Seq<u8>>)
    requires
        slash_free(parts),
    ensures
        named(without_leading(parts)) == named(parts),
        slash_free(without_leading(parts)),
        without_leading(parts).len() > 0 ==> is_name(without_leading(parts)[0]),
    decreases parts.len(),
{
    if parts.len() > 0 && !is_name(parts[0]) {
        lemma_named_first(parts);
        assert forall|i: int| 0 <= i < parts.drop_first().len() implies has_no_slash(
            #[trigger] parts.drop_first()[i],
        ) by {
            assert(has_no_slash(parts[i + 1]));
        }
        lemma_without_leading(parts.drop_first());
    }
}

/// Leaving out what is behind the last name leaves out no name.
proof fn lemma_without_trailing(parts: Seq<Seq<u8>>)
    requires
        slash_free(parts),
    ensures
        named(without_trailing(parts)) == named(parts),
        slash_free(without_trailing(parts)),
        without_trailing(parts).len() <= parts.len(),
        without_trailing(parts) == parts.take(without_trailing(parts).len() as int),
        without_trailing(parts).len() == 0 ==> named(parts).len() == 0,
    decreases parts.len(),
{
    reveal(Seq::filter);
    if parts.len() > 0 && !is_name(parts.last()) {
        let front = parts.drop_last();
        assert(parts =~= front.push(parts.last()));
        lemma_named_push(front, parts.last());
        lemma_without_trailing(front);
        let n = without_trailing(front).len() as int;
        assert(front.take(n) =~= parts.take(n));
    } else {
        assert(parts.take(parts.len() as int) =~= parts);
    }
}

/// Behind the first `k` names come the other names.
proof fn lemma_behind_names(parts: Seq<Seq<u8>>, k: int)
    requires
        slash_free(parts),
        0 <= k <= named(parts).len(),
    ensures
        named(behind_names(parts, k)) == named(parts).skip(k),
        slash_free(behind_names(parts, k)),
    decreases parts.len(),
{
    reveal(Seq::filter);
    if k == 0 || parts.len() == 0 {
        assert(named(parts).skip(k) =~= named(parts));
    } else {
        let rest = parts.drop_first();
        lemma_named_first(parts);
        assert forall|i: int| 0 <= i < rest.len() implies has_no_slash(#[trigger] rest[i]) by {
            assert(has_no_slash(parts[i + 1]));
        }
        if is_name(parts[0]) {
            lemma_behind_names(rest, k - 1);
            assert((seq![parts[0]] + named(rest)).skip(k) =~= named(rest).skip(k - 1));
        } else {
            lemma_behind_names(rest, k);
        }
    }
}

/// What a path starts from is no name.
proof fn lemma_body(path: Seq<u8>)
    ensures
        names(path) == named(body(path)),
        slash_free(body(path)),
        origin(path).len() <= 1,
        origin(path).len() == 1 ==> pieces(path) == seq![pieces(path)[0]] + body(path),
        origin(path).len() == 0 ==> pieces(path) == body(path),
{
    lemma_pieces_have_no_slash(path);
    let all = pieces(path);
    let o = origin(path).len() as int;
    assert forall|i: int| 0 <= i < body(path).len() implies has_no_slash(
        #[trigger] body(path)[i],
    ) by {
        assert(has_no_slash(all[i + o]));
    }
    if o == 1 {
        if is_absolute(path) {
            lemma_nothing_before_the_root(path);
        }
        lemma_named_first(all);
        assert(all.drop_first() =~= body(path));
        assert(all =~= seq![all[0]] + body(path));
    } else {
        assert(all =~= body(path));
    }
}

proof fn lemma_empty_path()
    ensures
        names(Seq::<u8>::empty()) == Seq::<Seq<u8>>::empty(),
        components(Seq::<u8>::empty()) == Seq::<Seq<u8>>::empty(),
{
    reveal(Seq::filter);
    let empty = Seq::<u8>::empty();
    assert(pieces(empty) =~= Seq::<Seq<u8>>::empty().push(empty));
    lemma_filter_push(Seq::<Seq<u8>>::empty(), empty);
    assert(names(empty) =~= Seq::<Seq<u8>>::empty());
    assert(components(empty) =~= Seq::<Seq<u8>>::empty());
}

/// What follows a slash adds its names to those before it.
proof fn lemma_components_around_slash(a: Seq<u8>, b: Seq<u8>)
    requires
        a.len() > 0,
    ensures
        components(a.push(SLASH) + b) == components(a) + names(b),
{
    lemma_pieces_around_slash(a, b);
    lemma_filter_concat(pieces(a), pieces(b));
    lemma_pieces_nonempty(a);
    let whole = a.push(SLASH) + b;
    assert(pieces(whole)[0] == pieces(a)[0]);
    assert(whole[0] == a[0]);
    assert(components(whole) =~= components(a) + names(b));
}

/// A path that is not empty has a component.
proof fn lemma_components_nonempty(path: Seq<u8>)
    requires
        path.len() > 0,
    ensures
        components(path).len() > 0,
{
    lemma_pieces_nonempty(path);
    if !is_absolute(path) && pieces(path)[0] != seq![DOT] {
        lemma_first_piece(path);
        lemma_named_first(pieces(path));
    }
}

/// Parts that begin with a name are a path that starts from nowhere.
proof fn lemma_relative(parts: Seq<Seq<u8>>)
    requires
        slash_free(parts),
        parts.len() > 0 ==> is_name(parts[0]),
    ensures
        !is_absolute(with_slashes(parts)),
        components(with_slashes(parts)) == named(parts),
        names(with_slashes(parts)) == named(parts),
{
    let path = with_slashes(parts);
    if parts.len() == 0 {
        reveal(Seq::filter);
        lemma_empty_path();
        assert(path =~= Seq::<u8>::empty());
    } else {
        lemma_pieces_of_joined(parts);
        if is_absolute(path) {
            lemma_nothing_before_the_root(path);
        }
        assert(components(path) =~= named(parts));
    }
}

/// Parts that begin with a name come behind the components of the directory that
/// they are joined to.
proof fn lemma_joined_parts(base: Seq<u8>, parts: Seq<Seq<u8>>)
    requires
        slash_free(parts),
        parts.len() > 0 ==> is_name(parts[0]),
    ensures
        components(joined(base, with_slashes(parts))) == components(base) + named(parts),
{
    let rel = with_slashes(parts);
    lemma_relative(parts);
    lemma_empty_path();
    if base.len() == 0 {
        assert(base =~= Seq::<u8>::empty());
        assert(joined(base, rel) =~= rel);
        assert(components(base) + named(parts) =~= named(parts));
    } else if base.last() == SLASH {
        let dir = base.drop_last();
        assert(base =~= dir.push(SLASH));
        if dir.len() > 0 {
            lemma_components_around_slash(dir, rel);
            lemma_components_around_slash(dir, Seq::empty());
            assert(dir.push(SLASH) + Seq::<u8>::empty() =~= base);
            assert(components(dir) + Seq::<Seq<u8>>::empty() =~= components(dir));
        } else {
            lemma_pieces_around_slash(dir, rel);
            lemma_pieces_around_slash(dir, Seq::empty());
            assert(dir =~= Seq::<u8>::empty());
            assert(dir.push(SLASH) + Seq::<u8>::empty() =~= base);
            lemma_filter_concat(pieces(dir), pieces(rel));
            lemma_filter_concat(pieces(dir), pieces(Seq::empty()));
            assert(names(base) =~= Seq::<Seq<u8>>::empty());
            assert(names(base + rel) =~= named(parts));
            assert((base + rel)[0] == SLASH);
            assert(components(base + rel) =~= components(base) + named(parts));
        }
    } else {
        lemma_components_around_slash(base, rel);
    }
}

/// A path that keeps the first pieces behind what it starts from keeps the names
/// among them.
proof fn lemma_keeping(path: Seq<u8>, n: int)
    requires
        0 <= n <= body(path).len(),
    ensures
        components(keeping(path, body(path).take(n))) == origin(path) + named(body(path).take(n)),
{
    lemma_body(path);
    let all = pieces(path);
    let rest = body(path);
    let kept = rest.take(n);
    lemma_pieces_have_no_slash(path);
    assert forall|i: int| 0 <= i < kept.len() implies has_no_slash(#[trigger] kept[i]) by {
        assert(has_no_slash(rest[i]));
    }
    if origin(path).len() == 0 {
        if path.len() == 0 {
            assert(path =~= Seq::<u8>::empty());
            assert(all =~= seq![Seq::<u8>::empty()]);
            lemma_empty_path();
            if n > 0 {
                assert(kept =~= all);
                assert(with_slashes(kept) =~= Seq::<u8>::empty());
                assert(named(kept) == names(path));
            } else {
                lemma_relative(kept);
            }
            assert(origin(path) + named(kept) =~= named(kept));
        } else {
            lemma_first_piece(path);
            assert(is_name(all[0]));
            assert(kept.len() > 0 ==> kept[0] == all[0]);
            lemma_relative(kept);
            assert(origin(path) + named(kept) =~= named(kept));
        }
    } else if kept.len() == 0 {
        let start = origin(path)[0];
        reveal(Seq::filter);
        assert(named(kept) =~= Seq::<Seq<u8>>::empty());
        assert(origin(path) + named(kept) =~= origin(path));
        if is_absolute(path) {
            let empty = Seq::<u8>::empty();
            lemma_pieces_around_slash(empty, empty);
            assert(empty.push(SLASH) + empty =~= start);
            lemma_filter_concat(pieces(empty), pieces(empty));
            lemma_empty_path();
            assert(names(start) =~= Seq::<Seq<u8>>::empty());
            assert(components(start) =~= seq![start]);
        } else {
            assert(has_no_slash(start));
            lemma_pieces_of_one(start);
            lemma_filter_push(Seq::empty(), start);
            assert(seq![start] =~= Seq::<Seq<u8>>::empty().push(start));
            assert(names(start) =~= Seq::<Seq<u8>>::empty());
            assert(components(start) =~= seq![start]);
        }
    } else {
        let parts = seq![all[0]] + kept;
        let short = with_slashes(parts);
        assert forall|i: int| 0 <= i < parts.len() implies has_no_slash(#[trigger] parts[i]) by {
            if i == 0 {
                assert(has_no_slash(all[0]));
            } else {
                assert(has_no_slash(kept[i - 1]));
            }
        }
        lemma_pieces_of_joined(parts);
        lemma_named_first(parts);
        assert(parts.drop_first() =~= kept);
        assert(short.len() > 0) by {
            if short.len() == 0 {
                assert(short =~= Seq::<u8>::empty());
                assert(pieces(short).len() == 1);
            }
        }
        if is_absolute(path) {
            lemma_nothing_before_the_root(path);
            if !is_absolute(short) {
                lemma_first_piece(short);
            }
        } else {
            if is_absolute(short) {
                lemma_nothing_before_the_root(short);
            }
        }
        assert(components(short) =~= origin(path) + named(kept));
    }
}

/// A path without what is behind its last name has the same components.
pub proof fn law_tidied_is_the_same(path: Seq<u8>)
    ensures
        components(tidied(path)) == components(path),
{
    lemma_body(path);
    lemma_without_trailing(body(path));
    lemma_keeping(path, without_trailing(body(path)).len() as int);
}

/// The directory around a path has the components of the path but for the last.
pub proof fn law_parent_drops_the_last_component(path: Seq<u8>)
    requires
        has_parent(path),
    ensures
        components(parent_of(path)) == components(path).drop_last(),
{
    lemma_body(path);
    let rest = body(path);
    let kept = without_trailing(rest);
    lemma_without_trailing(rest);
    if kept.len() == 0 {
        lemma_empty_path();
        assert(components(path) =~= origin(path));
        assert(components(path).drop_last() =~= Seq::<Seq<u8>>::empty());
    } else {
        let front = kept.drop_last();
        lemma_last_is_name(rest);
        assert(kept =~= front.push(kept.last()));
        lemma_named_push(front, kept.last());
        assert forall|i: int| 0 <= i < front.len() implies has_no_slash(#[trigger] front[i]) by {
            assert(has_no_slash(kept[i]));
        }
        lemma_without_trailing(front);
        let n = without_trailing(front).len() as int;
        assert(front.take(n) =~= rest.take(n));
        lemma_keeping(path, n);
        assert(named(kept).drop_last() =~= named(front));
        assert(components(path).drop_last() =~= origin(path) + named(front));
    }
}

/// What is kept up to the last name ends with a name.
proof fn lemma_last_is_name(parts: Seq<Seq<u8>>)
    ensures
        without_trailing(parts).len() > 0 ==> is_name(without_trailing(parts).last()),
    decreases parts.len(),
{
    if parts.len() > 0 && !is_name(parts.last()) {
        lemma_last_is_name(parts.drop_last());
    }
}

/// What is left of a path below a directory keeps its names below any other
/// directory that it is joined to.
pub proof fn law_below_keeps_names(path: Seq<u8>, base: Seq<u8>, other: Seq<u8>)
    requires
        base.len() > 0,
        components(base).is_prefix_of(components(path)),
    ensures
        components(joined(other, below(path, base))) == components(other) + components(path).skip(
            components(base).len() as int,
        ),
{
    let k = components(base).len() as int;
    let o = origin(path).len() as int;
    lemma_body(path);
    lemma_components_nonempty(base);
    assert(names(path).len() == components(path).len() - o);
    lemma_behind_names(body(path), k - o);
    let behind = behind_names(body(path), k - o);
    lemma_without_leading(behind);
    let from = without_leading(behind);
    lemma_without_trailing(from);
    let rest = without_trailing(from);
    if rest.len() > 0 {
        assert(rest[0] == from[0]);
    }
    lemma_joined_parts(other, rest);
    assert(components(path).skip(k) =~= names(path).skip(k - o));
}

/// What is left of a path below a directory leads from the directory back to
/// the path.
pub proof fn law_below_and_joined(path: Seq<u8>, base: Seq<u8>)
    requires
        components(base).is_prefix_of(components(path)),
    ensures
        components(joined(base, below(path, base))) == components(path),
{
    let all = components(path);
    let front = components(base);
    let rest = all.skip(front.len() as int);
    assert(all =~= front + rest);
    if base.len() == 0 {
        assert(base =~= Seq::<u8>::empty());
        lemma_empty_path();
        law_tidied_is_the_same(path);
        assert(joined(base, below(path, base)) =~= below(path, base));
    } else {
        law_below_keeps_names(path, base, base);
    }
}

/// A relative path that is text leads to the same place after it was kept as
/// text.
pub proof fn law_text_leads_to_the_same_path(base: Seq<u8>, rel: Seq<u8>)
    requires
        valid_utf8(rel),
    ensures
        joined(base, encode_utf8(text_or_unknown(rel))) == joined(base, rel),
{
    decode_utf8_encode_utf8(rel);
}

/// A single name that is found in a directory is one component more.
pub proof fn law_name_is_one_more_component(base: Seq<u8>, name: Seq<u8>)
    requires
        is_name(name),
        !name.contains(SLASH),
    ensures
        components(joined(base, name)) == components(base).push(name),
{
    reveal(Seq::filter);
    assert(has_no_slash(name));
    let parts = seq![name];
    lemma_joined_parts(base, parts);
    assert(with_slashes(parts) == name);
    assert(parts =~= Seq::<Seq<u8>>::empty().push(name));
    lemma_named_push(Seq::empty(), name);
    assert(named(Seq::empty()) =~= Seq::<Seq<u8>>::empty());
    assert(components(base) + named(parts) =~= components(base).push(name));
}

/// A path that begins at the root directory is the same from everywhere.
pub proof fn law_root_is_the_same_from_everywhere(base: Seq<u8>, rel: Seq<u8>)
    requires
        rel.len() > 0,
        rel[0] == SLASH,
    ensures
        joined(base, rel) == rel,
{
}

proof fn lemma_names_of_one(name: Seq<u8>)
    requires
        has_no_slash(name),
    ensures
        names(name) == if is_name(name) {
            seq![name]
        } else {
            Seq::<Seq<u8>>::empty()
        },
        pieces(name) == seq![name],
{
    reveal(Seq::filter);
    lemma_pieces_of_one(name);
    assert(seq![name] =~= Seq::<Seq<u8>>::empty().push(name));
    lemma_named_push(Seq::empty(), name);
    assert(named(Seq::empty()) =~= Seq::<Seq<u8>>::empty());
    assert(Seq::<Seq<u8>>::empty().push(name) =~= seq![name]);
}

/// What stands behind a slash is one component more, unless it is nothing or a single
/// dot. So repeated slashes, a slash at the end, and dots between slashes make no
/// difference; two dots do.
pub proof fn law_name_behind_a_slash(front: Seq<u8>, name: Seq<u8>)
    requires
        front.len() > 0,
        !name.contains(47u8),
    ensures
        components(front.push(47u8) + name) == if name.len() == 0 || name == seq![46u8] {
            components(front)
        } else {
            components(front).push(name)
        },
{
    assert(has_no_slash(name)) by {
        assert forall|i: int| 0 <= i < name.len() implies #[trigger] name[i] != SLASH by {
            assert(name.contains(name[i]));
        }
    }
    lemma_names_of_one(name);
    lemma_components_around_slash(front, name);
    assert(components(front) + Seq::<Seq<u8>>::empty() =~= components(front));
    assert(components(front) + seq![name] =~= components(front).push(name));
}

/// A path without a slash is one component, whatever it is, and none where it is empty. A
/// slash at the beginning is a component of its own.
pub proof fn law_beginning_of_a_path(name: Seq<u8>)
    requires
        !name.contains(47u8),
    ensures
        components(Seq::<u8>::empty()) == Seq::<Seq<u8>>::empty(),
        name.len() > 0 ==> components(name) == seq![name],
        components(seq![47u8] + name) == if name.len() == 0 || name == seq![46u8] {
            seq![seq![47u8]]
        } else {
            seq![seq![47u8], name]
        },
{
    assert(has_no_slash(name)) by {
        assert forall|i: int| 0 <= i < name.len() implies #[trigger] name[i] != SLASH by {
            assert(name.contains(name[i]));
        }
    }
    lemma_empty_path();
    lemma_names_of_one(name);
    if name.len() > 0 {
        assert(name[0] != SLASH);
        assert(components(name) =~= seq![name]);
    }
    let empty = Seq::<u8>::empty();
    let whole = seq![47u8] + name;
    assert(whole =~= empty.push(SLASH) + name);
    lemma_pieces_around_slash(empty, name);
    lemma_filter_concat(pieces(empty), pieces(name));
    assert(names(whole) =~= names(name));
    assert(whole[0] == SLASH);
    assert(components(whole) =~= seq![seq![SLASH]] + names(name));
    assert(seq![seq![SLASH]] + seq![name] =~= seq![seq![47u8], name]);
    assert(seq![seq![SLASH]] + Seq::<Seq<u8>>::empty() =~= seq![seq![47u8]]);
}

/// Bytes that are text stand for themselves, and all others are `unknown`.
pub proof fn law_text_stands_for_the_bytes(bytes: Seq<u8>)
    ensures
        valid_utf8(bytes) ==> encode_utf8(text_or_unknown(bytes)) == bytes,
        !valid_utf8(bytes) ==> text_or_unknown(bytes) == "unknown"@,
{
    if valid_utf8(bytes) {
        decode_utf8_encode_utf8(bytes);
    }
}

/// The directories around a path go outwards one component at a time, from the path
/// itself to the outermost, around which there is none.
pub proof fn law_ancestors_go_outwards(path: Seq<u8>, i: int)
    requires
        0 <= i < ancestors_of(path).len(),
    ensures
        ancestors_of(path)[0] == path,
        i <= components(path).len(),
        components(ancestors_of(path)[i]) == components(path).take(components(path).len() - i),
        has_parent(ancestors_of(path)[i]) <==> i + 1 < ancestors_of(path).len(),
    decreases components(path).len(),
{
    let all = ancestors_of(path);
    if has_parent(path) {
        law_parent_drops_the_last_component(path);
        let up = parent_of(path);
        let rest = ancestors_of(up);
        assert(all =~= seq![path] + rest);
        lemma_ancestors_nonempty(up);
        if i > 0 {
            assert(all[i] == rest[i - 1]);
            law_ancestors_go_outwards(up, i - 1);
            assert(components(path).drop_last().take(components(up).len() - (i - 1))
                =~= components(path).take(components(path).len() - i));
        } else {
            assert(components(path).take(components(path).len() as int) =~= components(path));
        }
    } else {
        assert(all =~= seq![path]);
        assert(components(path).take(components(path).len() as int) =~= components(path));
    }
}

proof fn lemma_ancestors_nonempty(path: Seq<u8>)
    ensures
        ancestors_of(path).len() > 0,
{
}

/// The pieces of a path, with slashes between them, are the path.
proof fn lemma_pieces_with_slashes(path: Seq<u8>)
    ensures
        with_slashes(pieces(path)) == path,
    decreases path.len(),
{
    if path.len() > 0 {
        let start = path.drop_last();
        let front = pieces(start);
        lemma_pieces_with_slashes(start);
        lemma_pieces_nonempty(start);
        let parts = pieces(path);
        assert(path =~= start.push(path.last()));
        if path.last() == SLASH {
            assert(parts.drop_last() =~= front);
            assert(with_slashes(parts) =~= path);
        } else if front.len() == 1 {
            assert(parts =~= seq![front[0].push(path.last())]);
            assert(with_slashes(parts) =~= path);
        } else {
            assert(parts.drop_last() =~= front.drop_last());
            assert(with_slashes(parts) =~= with_slashes(front).push(path.last()));
        }
    }
}

/// Behind parts that name nothing, the first name is that of what follows.
proof fn lemma_without_leading_of_both(a: Seq<Seq<u8>>, b: Seq<Seq<u8>>)
    requires
        named(a).len() == 0,
    ensures
        without_leading(a + b) == without_leading(b),
    decreases a.len(),
{
    if a.len() == 0 {
        assert(a + b =~= b);
    } else {
        lemma_named_first(a);
        assert((a + b).drop_first() =~= a.drop_first() + b);
        lemma_without_leading_of_both(a.drop_first(), b);
    }
}

/// Behind all the names of the parts before it comes what follows.
proof fn lemma_behind_all_names(a: Seq<Seq<u8>>, b: Seq<Seq<u8>>)
    ensures
        without_leading(behind_names(a + b, named(a).len() as int)) == without_leading(b),
    decreases a.len(),
{
    reveal(Seq::filter);
    if named(a).len() == 0 {
        lemma_without_leading_of_both(a, b);
    } else {
        assert(a.len() > 0);
        lemma_named_first(a);
        assert((a + b).drop_first() =~= a.drop_first() + b);
        lemma_behind_all_names(a.drop_first(), b);
    }
}

/// A relative path that is joined to a directory is what is found below the directory,
/// as it is written. It begins and ends with a name.
pub proof fn law_joined_and_below(base: Seq<u8>, rel: Seq<u8>)
    requires
        base.len() > 0,
        is_name(pieces(rel).first()),
        is_name(pieces(rel).last()),
    ensures
        components(base).is_prefix_of(components(joined(base, rel))),
        below(joined(base, rel), base) == rel,
{
    reveal(Seq::filter);
    let path = joined(base, rel);
    let parts = pieces(rel);
    lemma_pieces_nonempty(rel);
    lemma_pieces_have_no_slash(rel);
    lemma_pieces_with_slashes(rel);
    if is_absolute(rel) {
        lemma_nothing_before_the_root(rel);
    }
    lemma_joined_parts(base, parts);
    assert(components(base) =~= components(path).subrange(0, components(base).len() as int));
    let d = if base.last() == SLASH {
        base.drop_last()
    } else {
        base
    };
    assert(path =~= d.push(SLASH) + rel);
    lemma_pieces_around_slash(d, rel);
    lemma_pieces_nonempty(d);
    lemma_components_nonempty(base);
    let o = origin(path).len() as int;
    let before = pieces(d).skip(o);
    if base.last() == SLASH {
        assert(base =~= d.push(SLASH) + Seq::<u8>::empty());
        lemma_pieces_around_slash(d, Seq::empty());
        assert(pieces(Seq::<u8>::empty()) =~= seq![Seq::<u8>::empty()]);
        assert(pieces(base) =~= pieces(d).push(Seq::empty()));
    }
    assert(pieces(path)[0] == pieces(d)[0]);
    assert(pieces(base)[0] == pieces(d)[0]);
    assert(path[0] == base[0]);
    assert(origin(path) == origin(base));
    lemma_body(base);
    if base.last() == SLASH {
        assert(body(base) =~= before.push(Seq::empty()));
        lemma_named_push(before, Seq::empty());
    } else {
        assert(body(base) =~= before);
    }
    assert(named(before).len() == components(base).len() - o);
    assert(body(path) =~= before + parts);
    lemma_behind_all_names(before, parts);
    assert(without_leading(parts) == parts);
    assert(without_trailing(parts) == parts);
}

/// A slash at the end of a directory does not change what is found from there.
pub proof fn law_slash_behind_a_directory_does_not_count(base: Seq<u8>, rel: Seq<u8>)
    requires
        base.len() > 0,
        base.last() != 47u8,
    ensures
        joined(base.push(47u8), rel) == joined(base, rel),
        rel.len() > 0 && rel[0] != 47u8 ==> joined(base, rel).len() == base.len() + 1 + rel.len(),
        joined(Seq::empty(), rel) == rel,
{
    assert(Seq::<u8>::empty() + rel =~= rel);
}

} // verus!
