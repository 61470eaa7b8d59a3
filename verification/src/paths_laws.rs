//! What holds of every path.

use crate::paths::{
    after_last_dot, components, extension, file_name, is_absolute_path, joined, last_part, path_key,
    relative_components, PathElement, PathKey,
};
use vstd::prelude::*;

verus! {

/// The bytes and characters that paths are taken apart at.
pub proof fn law_separators_are_slash_and_dot(byte: u8, c: char)
    ensures
        byte.slash() <==> byte == 0x2f,
        byte.dot() <==> byte == 0x2e,
        c.slash() <==> c == '/',
        c.dot() <==> c == '.',
{
}

/// A name below a path stands after a slash, which the path may have at its end already. What
/// starts with a slash stands for itself.
pub proof fn law_name_is_put_below(path: Seq<u8>, name: Seq<u8>)
    ensures
        name.len() > 0 && name[0] == 0x2f ==> joined(path, name) == name,
        !(name.len() > 0 && name[0] == 0x2f) ==> {
            &&& path.len() == 0 ==> joined(path, name) == name
            &&& path.len() > 0 && path.last() == 0x2f ==> joined(path, name) == path + name
            &&& path.len() > 0 && path.last() != 0x2f ==> joined(path, name) == path + seq![0x2fu8]
                + name
        },
{
    assert(path.len() == 0 ==> path + name =~= name);
    assert(path.push(0x2f) + name =~= path + seq![0x2fu8] + name);
}

/// The last part of a path with a part after its last slash starts there.
proof fn lemma_last_part<T: PathElement>(front: Seq<T>, part: Seq<T>)
    requires
        front.len() == 0 || front.last().slash(),
        forall|i: int| 0 <= i < part.len() ==> !(#[trigger] part[i]).slash(),
    ensures
        last_part(front + part) == front.len(),
    decreases part.len(),
{
    if part.len() > 0 {
        lemma_last_part(front, part.drop_last());
        assert((front + part).drop_last() =~= front + part.drop_last());
        assert((front + part).last() == part.last());
        assert(!part[part.len() - 1].slash());
    } else {
        assert(front + part =~= front);
    }
}

/// The names of a path: one more name after a slash is one more name, unless it is empty or a
/// single dot. A path without slashes is a name itself, unless it is empty.
pub proof fn law_names_stand_between_slashes(path: Seq<u8>, name: Seq<u8>)
    requires
        !name.contains(0x2f),
    ensures
        name.len() > 0 && name != seq![0x2eu8] ==> components(path + seq![0x2fu8] + name)
            == components(path).push(name),
        name.len() == 0 || name == seq![0x2eu8] ==> components(path + seq![0x2fu8] + name)
            == components(path),
        name.len() > 0 ==> components(name) == seq![name],
        components(Seq::empty()) == Seq::<Seq<u8>>::empty(),
{
    let front = path + seq![0x2fu8];
    let whole = front + name;
    assert forall|i: int| 0 <= i < name.len() implies !(#[trigger] name[i]).slash() by {
        if name[i] == 0x2f {
            assert(name.contains(name[i]));
        }
    }
    assert(front.last() == 0x2f);
    lemma_last_part(front, name);
    assert(whole.skip(front.len() as int) =~= name);
    assert(whole.take(front.len() - 1) =~= path);
    lemma_last_part(Seq::<u8>::empty(), name);
    assert(Seq::<u8>::empty() + name =~= name);
    assert(name.skip(0) =~= name);
    if name.len() > 0 {
        assert(components(name) =~= seq![name]);
    }
}

/// A path is known by its names, and by whether it starts at the root.
pub proof fn law_key_is_root_and_names(path: Seq<u8>)
    ensures
        path.len() > 0 && path[0] == 0x2f ==> path_key(path) == seq![Seq::<u8>::empty()]
            + components(path),
        !(path.len() > 0 && path[0] == 0x2f) ==> path_key(path) == components(path),
        is_absolute_path(path) <==> path.len() > 0 && path[0] == 0x2f,
{
}

/// What a path is relative to another is what has to follow that one to give the path.
pub proof fn law_relative_part_completes_the_base(base: Seq<u8>, path: Seq<u8>, rest: PathKey)
    ensures
        relative_components(base, path) == Some(rest) <==> path_key(path) == path_key(base) + rest,
        relative_components(base, path) is None ==> path_key(path) != path_key(base) + rest,
{
    let a = path_key(base);
    let b = path_key(path);
    if b == a + rest {
        assert(a =~= b.subrange(0, a.len() as int));
        assert(b.skip(a.len() as int) =~= rest);
    }
    if a.is_prefix_of(b) {
        assert(b =~= a + b.skip(a.len() as int));
    }
}

/// The last dot of a name.
proof fn lemma_after_last_dot<T: PathElement>(front: Seq<T>, rest: Seq<T>)
    requires
        front.len() == 0 || front.last().dot(),
        forall|i: int| 0 <= i < rest.len() ==> !(#[trigger] rest[i]).dot(),
    ensures
        after_last_dot(front + rest) == front.len(),
    decreases rest.len(),
{
    if rest.len() > 0 {
        lemma_after_last_dot(front, rest.drop_last());
        assert((front + rest).drop_last() =~= front + rest.drop_last());
        assert((front + rest).last() == rest.last());
        assert(!rest[rest.len() - 1].dot());
    } else {
        assert(front + rest =~= front);
    }
}

/// The name after the last slash of a path is its last name, unless it is empty, one dot, or two.
pub proof fn law_last_name_follows_the_last_slash<T: PathElement>(front: Seq<T>, name: Seq<T>)
    requires
        front.len() == 0 || front.last().slash(),
        forall|i: int| 0 <= i < name.len() ==> !(#[trigger] name[i]).slash(),
        name.len() > 0,
        !(name.len() == 1 && name[0].dot()),
        !(name.len() == 2 && name[0].dot() && name[1].dot()),
    ensures
        file_name(front + name) == Some(name),
{
    lemma_last_part(front, name);
    assert((front + name).skip(front.len() as int) =~= name);
}

/// The extension of a path is what follows the last dot of its last name, where something stands
/// before that dot.
pub proof fn law_extension_follows_the_last_dot<T: PathElement>(
    front: Seq<T>,
    stem: Seq<T>,
    dot: T,
    rest: Seq<T>,
)
    requires
        front.len() == 0 || front.last().slash(),
        forall|i: int| 0 <= i < stem.len() ==> !(#[trigger] stem[i]).slash(),
        forall|i: int| 0 <= i < rest.len() ==> !(#[trigger] rest[i]).slash() && !rest[i].dot(),
        dot.dot(),
        !dot.slash(),
        stem.len() > 0,
        rest.len() > 0,
    ensures
        extension(front + (stem.push(dot) + rest)) == Some(rest),
{
    let name = stem.push(dot) + rest;
    assert forall|i: int| 0 <= i < name.len() implies !(#[trigger] name[i]).slash() by {
        if i < stem.len() {
            assert(name[i] == stem[i]);
        } else if i > stem.len() {
            assert(name[i] == rest[i - stem.len() - 1]);
        }
    }
    assert(name[name.len() - 1] == rest[rest.len() - 1]);
    law_last_name_follows_the_last_slash(front, name);
    lemma_after_last_dot(stem.push(dot), rest);
    assert(name.skip(stem.len() as int + 1) =~= rest);
}

/// A name without a dot after its first place has no extension.
pub proof fn law_name_without_dot_has_no_extension<T: PathElement>(front: Seq<T>, name: Seq<T>)
    requires
        front.len() == 0 || front.last().slash(),
        forall|i: int| 0 <= i < name.len() ==> !(#[trigger] name[i]).slash(),
        forall|i: int| 1 <= i < name.len() ==> !(#[trigger] name[i]).dot(),
        name.len() > 1 || (name.len() == 1 && !name[0].dot()),
    ensures
        extension(front + name) is None,
{
    law_last_name_follows_the_last_slash(front, name);
    if name[0].dot() {
        let rest = name.skip(1);
        assert forall|i: int| 0 <= i < rest.len() implies !(#[trigger] rest[i]).dot() by {
            assert(!name[i + 1].dot());
        }
        lemma_after_last_dot(seq![name[0]], rest);
        assert(seq![name[0]] + rest =~= name);
    } else {
        assert forall|i: int| 0 <= i < name.len() implies !(#[trigger] name[i]).dot() by {}
        lemma_after_last_dot(Seq::<T>::empty(), name);
        assert(Seq::<T>::empty() + name =~= name);
    }
}

} // verus!
