//! Paths as the bytes that they are made of.

use vstd::prelude::*;

verus! {

/// Whether two paths are made of the same bytes.
pub fn same_path(a: &Vec<u8>, b: &Vec<u8>) -> (res: bool)
    ensures
        res == (a@ == b@),
{
    if a.len() != b.len() {
        return false;
    }
    let mut i: usize = 0;
    while i < a.len()
        invariant
            i <= a.len(),
            a.len() == b.len(),
            forall|j: int| 0 <= j < i ==> a@[j] == b@[j],
        decreases a.len() - i,
    {
        if a[i] != b[i] {
            assert(a@[i as int] != b@[i as int]);
            return false;
        }
        i += 1;
    }
    assert(a@ =~= b@);
    true
}

/// A copy of the bytes of a path.
pub fn copy_path(path: &Vec<u8>) -> (res: Vec<u8>)
    ensures
        res@ == path@,
{
    let mut res: Vec<u8> = Vec::new();
    let mut i: usize = 0;
    while i < path.len()
        invariant
            i <= path.len(),
            res@ == path@.take(i as int),
        decreases path.len() - i,
    {
        res.push(path[i]);
        i += 1;
    }
    assert(path@.take(i as int) == path@);
    res
}

/// What a path is made of: bytes, or the characters of a path that is text.
pub trait PathElement: Copy {
    spec fn slash(self) -> bool;

    spec fn dot(self) -> bool;

    fn is_slash(&self) -> (res: bool)
        ensures
            res == self.slash(),
    ;

    fn is_dot(&self) -> (res: bool)
        ensures
            res == self.dot(),
    ;
}

impl PathElement for u8 {
    open spec fn slash(self) -> bool {
        self == 0x2f
    }

    open spec fn dot(self) -> bool {
        self == 0x2e
    }

    fn is_slash(&self) -> (res: bool) {
        *self == 0x2f
    }

    fn is_dot(&self) -> (res: bool) {
        *self == 0x2e
    }
}

impl PathElement for char {
    open spec fn slash(self) -> bool {
        self == '/'
    }

    open spec fn dot(self) -> bool {
        self == '.'
    }

    fn is_slash(&self) -> (res: bool) {
        *self == '/'
    }

    fn is_dot(&self) -> (res: bool) {
        *self == '.'
    }
}

/// Where the part after the last slash starts.
pub open spec fn last_part<T: PathElement>(path: Seq<T>) -> nat
    decreases path.len(),
{
    if path.len() == 0 || path.last().slash() {
        path.len()
    } else {
        last_part(path.drop_last())
    }
}

/// The last name in a path. Slashes at the end, and parts that are a single dot, do not count;
/// a path that ends in two dots has no last name.
pub open spec fn file_name<T: PathElement>(path: Seq<T>) -> Option<Seq<T>>
    decreases path.len(),
{
    let start = last_part(path);
    let part = path.skip(start as int);
    if path.len() == 0 {
        None
    } else if start >= path.len() {
        file_name(path.drop_last())
    } else if part.len() == 1 && part[0].dot() {
        if start == 0 {
            None
        } else {
            file_name(path.take(start as int))
        }
    } else if part.len() == 2 && part[0].dot() && part[1].dot() {
        None
    } else {
        Some(part)
    }
}

/// Where the part after the last dot starts; 0 where there is no dot.
pub open spec fn after_last_dot<T: PathElement>(name: Seq<T>) -> nat
    decreases name.len(),
{
    if name.len() == 0 || name.last().dot() {
        name.len()
    } else {
        after_last_dot(name.drop_last())
    }
}

/// The extension of a path: what follows the last dot of its last name. A dot at the start of the
/// name does not count.
pub open spec fn extension<T: PathElement>(path: Seq<T>) -> Option<Seq<T>> {
    match file_name(path) {
        None => None,
        Some(name) => if after_last_dot(name) <= 1 {
            None
        } else {
            Some(name.skip(after_last_dot(name) as int))
        },
    }
}

fn last_part_start<T: PathElement>(path: &Vec<T>, end: usize) -> (res: usize)
    requires
        end <= path.len(),
    ensures
        res == last_part(path@.take(end as int)),
        res <= end,
{
    let mut i: usize = end;
    while i > 0 && !path[i - 1].is_slash()
        invariant
            i <= end <= path.len(),
            last_part(path@.take(end as int)) == last_part(path@.take(i as int)),
        decreases i,
    {
        assert(path@.take(i as int).drop_last() == path@.take(i - 1));
        i -= 1;
    }
    i
}

/// The bounds of the last name in a path.
fn file_name_bounds<T: PathElement>(path: &Vec<T>) -> (res: Option<(usize, usize)>)
    ensures
        match res {
            Some((start, end)) => start <= end <= path.len() && file_name(path@) == Some(
                path@.subrange(start as int, end as int),
            ),
            None => file_name(path@) is None,
        },
{
    let mut end: usize = path.len();
    assert(path@.take(end as int) == path@);
    while end > 0
        invariant
            end <= path.len(),
            file_name(path@) == file_name(path@.take(end as int)),
        decreases end,
    {
        let ghost front = path@.take(end as int);
        let start: usize = last_part_start(path, end);
        let ghost part = front.skip(start as int);
        assert(part == path@.subrange(start as int, end as int));
        if start >= end {
            assert(front.drop_last() == path@.take(end - 1));
            end -= 1;
        } else if end - start == 1 && path[start].is_dot() {
            if start == 0 {
                return None;
            }
            assert(front.take(start as int) == path@.take(start as int));
            end = start;
        } else if end - start == 2 && path[start].is_dot() && path[start + 1].is_dot() {
            return None;
        } else {
            return Some((start, end));
        }
    }
    None
}

/// The extension of a path, if it has one.
pub fn extension_of<T: PathElement>(path: &Vec<T>) -> (res: Option<Vec<T>>)
    ensures
        match res {
            Some(e) => extension(path@) == Some(e@),
            None => extension(path@) is None,
        },
{
    let (start, end) = match file_name_bounds(path) {
        Some(bounds) => bounds,
        None => {
            return None;
        },
    };
    let ghost name = path@.subrange(start as int, end as int);
    let mut i: usize = end;
    assert(name.take(end - start) == name);
    while i > start && !path[i - 1].is_dot()
        invariant
            start <= i <= end <= path.len(),
            name == path@.subrange(start as int, end as int),
            after_last_dot(name) == after_last_dot(name.take(i - start)),
        decreases i,
    {
        assert(name.take(i - start).drop_last() == name.take(i - start - 1));
        i -= 1;
    }
    assert(after_last_dot(name) == i - start);
    if i - start <= 1 {
        return None;
    }
    let mut res: Vec<T> = Vec::new();
    let ghost first: int = i as int;
    while i < end
        invariant
            0 <= first <= i <= end <= path.len(),
            res@ == path@.subrange(first, i as int),
        decreases end - i,
    {
        res.push(path[i]);
        i += 1;
        assert(path@.subrange(first, i as int) == path@.subrange(first, i - 1).push(path@[i - 1]));
    }
    assert(res@ == name.skip(first - start));
    Some(res)
}

/// A path with a name below it: a slash stands between them where the path has none at its end.
/// A name that is an absolute path stands for itself.
pub open spec fn joined(path: Seq<u8>, name: Seq<u8>) -> Seq<u8> {
    if is_absolute_path(name) {
        name
    } else if path.len() == 0 || path.last() == 0x2f {
        path + name
    } else {
        path.push(0x2f) + name
    }
}

/// A path with a name below it.
pub fn join(path: &Vec<u8>, name: &[u8]) -> (res: Vec<u8>)
    ensures
        res@ == joined(path@, name@),
{
    let absolute = name.len() > 0 && name[0] == 0x2f;
    let mut res: Vec<u8> = Vec::new();
    if !absolute {
        res = copy_path(path);
        if path.len() > 0 && path[path.len() - 1] != 0x2f {
            res.push(0x2f);
        }
    }
    let ghost front = res@;
    let mut i: usize = 0;
    while i < name.len()
        invariant
            i <= name.len(),
            res@ == front + name@.take(i as int),
        decreases name.len() - i,
    {
        res.push(name[i]);
        i += 1;
        assert(res@ =~= front + name@.take(i as int));
    }
    assert(name@.take(i as int) == name@);
    assert(absolute ==> res@ =~= name@);
    res
}

/// The names that a path is made of. A single dot counts only at the start of a path.
pub open spec fn components(path: Seq<u8>) -> Seq<Seq<u8>>
    decreases path.len(),
{
    let start = last_part(path) as int;
    let part = path.skip(start);
    if path.len() == 0 {
        Seq::empty()
    } else {
        let front = if start == 0 || start > path.len() {
            Seq::empty()
        } else {
            components(path.take(start - 1))
        };
        if part.len() == 0 || (part == seq![0x2eu8] && start > 0) {
            front
        } else {
            front.push(part)
        }
    }
}

pub open spec fn is_absolute_path(path: Seq<u8>) -> bool {
    path.len() > 0 && path[0] == 0x2f
}

/// The bytes of some names.
pub open spec fn names(parts: Seq<Vec<u8>>) -> Seq<Seq<u8>> {
    parts.map_values(|p: Vec<u8>| p@)
}

fn components_up_to(path: &Vec<u8>, end: usize) -> (res: Vec<Vec<u8>>)
    requires
        end <= path.len(),
    ensures
        names(res@) == components(path@.take(end as int)),
    decreases end,
{
    let ghost front_path = path@.take(end as int);
    if end == 0 {
        let res: Vec<Vec<u8>> = Vec::new();
        assert(names(res@) =~= components(front_path));
        return res;
    }
    let start: usize = last_part_start(path, end);
    let mut res: Vec<Vec<u8>> = if start == 0 {
        Vec::new()
    } else {
        assert(front_path.take(start - 1) == path@.take(start - 1));
        components_up_to(path, start - 1)
    };
    let ghost front = names(res@);
    assert(start == 0 ==> front =~= Seq::empty());
    let mut part: Vec<u8> = Vec::new();
    let mut i: usize = start;
    while i < end
        invariant
            start <= i <= end <= path.len(),
            part@ == path@.subrange(start as int, i as int),
        decreases end - i,
    {
        part.push(path[i]);
        i += 1;
        assert(path@.subrange(start as int, i as int) == path@.subrange(start as int, i - 1).push(
            path@[i - 1],
        ));
    }
    assert(part@ == front_path.skip(start as int));
    let is_dot = part.len() == 1 && part[0] == 0x2e;
    assert(is_dot == (part@ == seq![0x2eu8])) by {
        if part.len() == 1 && part@[0] == 0x2e {
            assert(part@ =~= seq![0x2eu8]);
        }
    }
    if !(part.len() == 0 || (is_dot && start > 0)) {
        let ghost before = res@;
        res.push(part);
        assert(names(res@) =~= front.push(part@));
    }
    res
}

/// What a path is told from others by: its names, with an empty one in front where it is absolute.
pub type PathKey = Seq<Seq<u8>>;

/// The key of a path. How many slashes stand between two names, or after the last one, makes no
/// difference.
pub open spec fn path_key(path: Seq<u8>) -> PathKey {
    if is_absolute_path(path) {
        seq![Seq::<u8>::empty()] + components(path)
    } else {
        components(path)
    }
}

/// The key of a path.
pub fn key_of(path: &Vec<u8>) -> (res: Vec<Vec<u8>>)
    ensures
        names(res@) == path_key(path@),
{
    assert(path@.take(path@.len() as int) == path@);
    let mut parts = components_up_to(path, path.len());
    if path.len() > 0 && path[0] == 0x2f {
        let root: Vec<u8> = Vec::new();
        assert(root@ =~= Seq::<u8>::empty());
        let mut res: Vec<Vec<u8>> = Vec::new();
        res.push(root);
        let ghost rest = parts@;
        res.append(&mut parts);
        assert(names(res@) =~= seq![Seq::<u8>::empty()] + names(rest));
        res
    } else {
        parts
    }
}

/// What follows in a path after `base`; none where the path does not lie below it.
pub open spec fn relative_components(base: Seq<u8>, path: Seq<u8>) -> Option<PathKey> {
    if path_key(base).is_prefix_of(path_key(path)) {
        Some(path_key(path).skip(path_key(base).len() as int))
    } else {
        None
    }
}

/// What follows in a path after `base`, if it lies below it.
pub fn relative_to(base: &Vec<u8>, path: &Vec<u8>) -> (res: Option<Vec<Vec<u8>>>)
    ensures
        match res {
            Some(parts) => relative_components(base@, path@) == Some(names(parts@)),
            None => relative_components(base@, path@) is None,
        },
{
    let front = key_of(base);
    let all = key_of(path);
    if front.len() > all.len() {
        assert(names(front@).len() == front.len());
        assert(names(all@).len() == all.len());
        return None;
    }
    let mut i: usize = 0;
    while i < front.len()
        invariant
            i <= front.len() <= all.len(),
            names(front@) == path_key(base@),
            names(all@) == path_key(path@),
            forall|j: int| 0 <= j < i ==> (#[trigger] front@[j])@ == all@[j]@,
        decreases front.len() - i,
    {
        if !same_path(&front[i], &all[i]) {
            assert(names(front@)[i as int] != names(all@).subrange(
                0,
                names(front@).len() as int,
            )[i as int]);
            return None;
        }
        i += 1;
    }
    assert(names(front@) =~= names(all@).subrange(0, names(front@).len() as int)) by {
        assert forall|j: int| 0 <= j < front.len() implies names(front@)[j] == names(all@)[j] by {
            assert(front@[j]@ == all@[j]@);
        }
    }
    let mut rest: Vec<Vec<u8>> = Vec::new();
    while i < all.len()
        invariant
            front.len() <= i <= all.len(),
            names(rest@) == names(all@).subrange(front@.len() as int, i as int),
        decreases all.len() - i,
    {
        let ghost before = rest@;
        rest.push(copy_path(&all[i]));
        i += 1;
        assert(names(rest@) =~= names(before).push(all@[i - 1]@));
        assert(names(all@).subrange(front@.len() as int, i as int) =~= names(all@).subrange(
            front@.len() as int,
            i - 1,
        ).push(all@[i - 1]@));
    }
    assert(names(rest@) =~= path_key(path@).skip(path_key(base@).len() as int));
    Some(rest)
}

/// Whether two paths are the same path.
pub fn same_key(a: &Vec<u8>, b: &Vec<u8>) -> (res: bool)
    ensures
        res == (path_key(a@) == path_key(b@)),
{
    same_names(&key_of(a), &key_of(b))
}

/// No name in a path is empty.
proof fn lemma_names_hold_something(path: Seq<u8>)
    ensures
        forall|i: int| 0 <= i < components(path).len() ==> (#[trigger] components(path)[i]).len() > 0,
    decreases path.len(),
{
    let start = last_part(path) as int;
    let part = path.skip(start);
    if path.len() > 0 && 0 < start <= path.len() {
        lemma_names_hold_something(path.take(start - 1));
        let front = components(path.take(start - 1));
        assert(components(path) == front || components(path) == front.push(part));
    } else {
        assert(components(path) =~= Seq::empty() || components(path) =~= seq![part]);
    }
    assert forall|i: int| 0 <= i < components(path).len() implies (
    #[trigger] components(path)[i]).len() > 0 by {}
}

/// Two paths are the same where both are absolute or neither is, and their names are the same.
pub proof fn law_paths_are_compared_by_names(a: Seq<u8>, b: Seq<u8>)
    ensures
        path_key(a) == path_key(b) <==> is_absolute_path(a) == is_absolute_path(b) && components(a)
            == components(b),
{
    lemma_names_hold_something(a);
    lemma_names_hold_something(b);
    let x = path_key(a);
    let y = path_key(b);
    if x == y {
        if is_absolute_path(a) && is_absolute_path(b) {
            assert(components(a) =~= x.skip(1));
            assert(components(b) =~= y.skip(1));
        } else if is_absolute_path(a) {
            assert(x[0].len() == 0);
            assert(components(b)[0].len() > 0);
        } else if is_absolute_path(b) {
            assert(y[0].len() == 0);
            assert(components(a)[0].len() > 0);
        }
    }
}

/// Whether two lists of names are the same.
pub fn same_names(a: &Vec<Vec<u8>>, b: &Vec<Vec<u8>>) -> (res: bool)
    ensures
        res == (names(a@) == names(b@)),
{
    assert(names(a@).len() == a.len() && names(b@).len() == b.len());
    if a.len() != b.len() {
        return false;
    }
    let mut i: usize = 0;
    while i < a.len()
        invariant
            i <= a.len(),
            a.len() == b.len(),
            forall|j: int| 0 <= j < i ==> (#[trigger] a@[j])@ == b@[j]@,
        decreases a.len() - i,
    {
        if !same_path(&a[i], &b[i]) {
            assert(names(a@)[i as int] != names(b@)[i as int]);
            return false;
        }
        i += 1;
    }
    assert(names(a@) =~= names(b@)) by {
        assert forall|j: int| 0 <= j < a.len() implies names(a@)[j] == names(b@)[j] by {
            assert(a@[j]@ == b@[j]@);
        }
    }
    true
}

} // verus!
