//! Searching and filtering of vectors.

use vstd::prelude::*;

verus! {

/// `i` is the first place of `s` at which `p` holds.
pub open spec fn is_first<T>(s: Seq<T>, p: spec_fn(T) -> bool, i: int) -> bool {
    &&& 0 <= i < s.len()
    &&& p(s[i])
    &&& forall|j: int| 0 <= j < i ==> !p(#[trigger] s[j])
}

/// The first place of `s` at which `p` holds, if there is one.
pub open spec fn first<T>(s: Seq<T>, p: spec_fn(T) -> bool) -> Option<int> {
    if exists|i: int| is_first(s, p, i) {
        Some(choose|i: int| is_first(s, p, i))
    } else {
        None
    }
}

/// There is only one first place.
pub proof fn lemma_first_is<T>(s: Seq<T>, p: spec_fn(T) -> bool, i: int)
    requires
        is_first(s, p, i),
    ensures
        first(s, p) == Some(i),
{
    let j = choose|j: int| is_first(s, p, j);
    assert(is_first(s, p, j));
    if j < i {
        assert(!p(s[j]));
    } else if i < j {
        assert(!p(s[i]));
    }
}

/// Where `p` holds somewhere, there is a first place.
pub proof fn lemma_first_exists<T>(s: Seq<T>, p: spec_fn(T) -> bool, i: int)
    requires
        0 <= i < s.len(),
        p(s[i]),
    ensures
        first(s, p) is Some,
        is_first(s, p, first(s, p)->0),
        first(s, p)->0 <= i,
    decreases i,
{
    if exists|j: int| 0 <= j < i && p(#[trigger] s[j]) {
        let j = choose|j: int| 0 <= j < i && p(#[trigger] s[j]);
        lemma_first_exists(s, p, j);
    } else {
        assert(is_first(s, p, i));
        lemma_first_is(s, p, i);
    }
}

/// The place that is found is one at which `p` holds; where none is found, `p` holds nowhere.
pub proof fn lemma_first<T>(s: Seq<T>, p: spec_fn(T) -> bool)
    ensures
        match first(s, p) {
            Some(i) => is_first(s, p, i),
            None => forall|j: int| 0 <= j < s.len() ==> !p(#[trigger] s[j]),
        },
{
    if first(s, p) is None {
        assert forall|j: int| 0 <= j < s.len() implies !p(#[trigger] s[j]) by {
            if p(s[j]) {
                lemma_first_exists(s, p, j);
            }
        }
    }
}

/// The elements of a sequence up to and with the next one, filtered.
pub proof fn lemma_filter_next<T>(s: Seq<T>, p: spec_fn(T) -> bool, k: int)
    requires
        0 <= k < s.len(),
    ensures
        s.take(k + 1).filter(p) == if p(s[k]) {
            s.take(k).filter(p).push(s[k])
        } else {
            s.take(k).filter(p)
        },
{
    reveal(Seq::filter);
    assert(s.take(k + 1).drop_last() == s.take(k));
}

/// It makes no difference whether a sequence is filtered before or after its elements are mapped.
pub proof fn lemma_filter_mapped<T, U>(
    s: Seq<T>,
    f: spec_fn(T) -> U,
    p: spec_fn(T) -> bool,
    q: spec_fn(U) -> bool,
)
    requires
        forall|x: T| #[trigger] p(x) == q(f(x)),
    ensures
        s.map_values(f).filter(q) == s.filter(p).map_values(f),
    decreases s.len(),
{
    reveal(Seq::filter);
    if s.len() == 0 {
        assert(s.map_values(f).filter(q) =~= s.filter(p).map_values(f));
    } else {
        lemma_filter_mapped(s.drop_last(), f, p, q);
        assert(s.map_values(f).drop_last() =~= s.drop_last().map_values(f));
        assert(s.map_values(f).filter(q) =~= s.filter(p).map_values(f));
    }
}

/// Every element of a filtered sequence stood in the sequence and passed.
pub proof fn lemma_filter_from<T>(s: Seq<T>, p: spec_fn(T) -> bool, j: int) -> (i: int)
    requires
        0 <= j < s.filter(p).len(),
    ensures
        0 <= i < s.len(),
        s.filter(p)[j] == s[i],
        p(s[i]),
{
    broadcast use Seq::lemma_filter_pred;

    s.lemma_filter_contains_rev(p, s.filter(p)[j]);
    s.index_of(s.filter(p)[j])
}

/// Every element that passes stands in the filtered sequence.
pub proof fn lemma_filter_keeps<T>(s: Seq<T>, p: spec_fn(T) -> bool, i: int) -> (j: int)
    requires
        0 <= i < s.len(),
        p(s[i]),
    ensures
        0 <= j < s.filter(p).len(),
        s.filter(p)[j] == s[i],
{
    s.lemma_filter_contains(p, i);
    s.filter(p).index_of(s[i])
}

/// The elements differ in what `f` gives for them.
pub open spec fn distinct<T, K>(s: Seq<T>, f: spec_fn(T) -> K) -> bool {
    forall|i: int, j: int| 0 <= i < j < s.len() ==> f(#[trigger] s[i]) != f(#[trigger] s[j])
}

/// Filtering keeps elements distinct.
pub proof fn lemma_filter_distinct<T, K>(s: Seq<T>, f: spec_fn(T) -> K, p: spec_fn(T) -> bool)
    requires
        distinct(s, f),
    ensures
        distinct(s.filter(p), f),
    decreases s.len(),
{
    reveal(Seq::filter);
    if s.len() > 0 {
        let front = s.drop_last();
        lemma_filter_distinct(front, f, p);
        if p(s.last()) {
            assert forall|i: int, j: int| 0 <= i < j < s.filter(p).len() implies f(
                #[trigger] s.filter(p)[i],
            ) != f(#[trigger] s.filter(p)[j]) by {
                if j == front.filter(p).len() {
                    let k = lemma_filter_from(front, p, i);
                    assert(s[k] == front[k]);
                }
            }
        }
    }
}

/// Two sequences that are filtered alike stay side by side: what stands at one place of the
/// filtered ones stood at one place before.
pub proof fn lemma_filter_alike<A, B>(
    a: Seq<A>,
    b: Seq<B>,
    p: spec_fn(A) -> bool,
    q: spec_fn(B) -> bool,
)
    requires
        a.len() == b.len(),
        forall|i: int| 0 <= i < a.len() ==> p(#[trigger] a[i]) == q(b[i]),
    ensures
        a.filter(p).len() == b.filter(q).len(),
        forall|j: int|
            0 <= j < a.filter(p).len() ==> exists|i: int|
                0 <= i < a.len() && #[trigger] a[i] == #[trigger] a.filter(p)[j] && b[i]
                    == b.filter(q)[j],
    decreases a.len(),
{
    reveal(Seq::filter);
    if a.len() > 0 {
        let fa = a.drop_last();
        let fb = b.drop_last();
        assert forall|i: int| 0 <= i < fa.len() implies p(#[trigger] fa[i]) == q(fb[i]) by {
            assert(p(a[i]) == q(b[i]));
        }
        lemma_filter_alike(fa, fb, p, q);
        assert(p(a[a.len() - 1]) == q(b[a.len() - 1]));
        assert forall|j: int| 0 <= j < a.filter(p).len() implies exists|i: int|
            0 <= i < a.len() && #[trigger] a[i] == #[trigger] a.filter(p)[j] && b[i] == b.filter(
                q,
            )[j] by {
            if j < fa.filter(p).len() {
                let i = choose|i: int|
                    0 <= i < fa.len() && #[trigger] fa[i] == fa.filter(p)[j] && fb[i] == fb.filter(
                        q,
                    )[j];
                assert(a[i] == a.filter(p)[j]);
            } else {
                assert(a[a.len() - 1] == a.filter(p)[j]);
            }
        }
    }
}

/// Finds the first element that `test` accepts.
pub(crate) fn position<T>(
    v: &Vec<T>,
    test: impl Fn(&T) -> bool,
    Ghost(p): Ghost<spec_fn(T) -> bool>,
) -> (res: Option<usize>)
    requires
        forall|x: &T| call_requires(test, (x,)),
        forall|x: &T, b: bool| call_ensures(test, (x,), b) ==> b == p(*x),
    ensures
        res is Some == first(v@, p) is Some,
        res is Some ==> res->0 as int == first(v@, p)->0 && is_first(v@, p, res->0 as int),
{
    let mut i: usize = 0;
    while i < v.len()
        invariant
            i <= v.len(),
            forall|x: &T| call_requires(test, (x,)),
            forall|x: &T, b: bool| call_ensures(test, (x,), b) ==> b == p(*x),
            forall|j: int| 0 <= j < i ==> !p(#[trigger] v@[j]),
        decreases v.len() - i,
    {
        if test(&v[i]) {
            proof {
                lemma_first_is(v@, p, i as int);
            }
            return Some(i);
        }
        i += 1;
    }
    proof {
        lemma_first(v@, p);
    }
    None
}

/// Drops the elements that `keep` rejects.
pub(crate) fn retain<T>(
    v: &mut Vec<T>,
    keep: impl Fn(&T) -> bool,
    Ghost(p): Ghost<spec_fn(T) -> bool>,
)
    requires
        forall|x: &T| call_requires(keep, (x,)),
        forall|x: &T, b: bool| call_ensures(keep, (x,), b) ==> b == p(*x),
    ensures
        final(v)@ == old(v)@.filter(p),
{
    let ghost all = v@;
    let ghost mut seen: int = 0;
    let mut i: usize = 0;
    while i < v.len()
        invariant
            forall|x: &T| call_requires(keep, (x,)),
            forall|x: &T, b: bool| call_ensures(keep, (x,), b) ==> b == p(*x),
            0 <= seen <= all.len(),
            i <= v.len(),
            v@ == all.take(seen).filter(p) + all.skip(seen),
            i == all.take(seen).filter(p).len(),
        decreases v.len() - i,
    {
        proof {
            lemma_filter_next(all, p, seen);
            assert(v@[i as int] == all[seen]);
            seen = seen + 1;
        }
        if keep(&v[i]) {
            assert(v@ =~= all.take(seen).filter(p) + all.skip(seen));
            i += 1;
        } else {
            v.remove(i);
            assert(v@ =~= all.take(seen).filter(p) + all.skip(seen));
        }
    }
    proof {
        assert(seen == all.len());
        assert(all.take(seen) == all);
        assert(v@ =~= all.filter(p));
    }
}

} // verus!
