//! Maps that keep the order of insertion.

use vstd::prelude::*;

verus! {

/// `indexmap::IndexMap`, of which only its own functions see the inside.
#[verifier::external_type_specification]
#[verifier::external_body]
#[verifier::reject_recursive_types(K)]
#[verifier::reject_recursive_types(V)]
#[verifier::reject_recursive_types(S)]
pub struct ExIndexMap<K, V, S>(indexmap::IndexMap<K, V, S>);

pub open spec fn has_key<K, V>(key: K) -> spec_fn((K, V)) -> bool {
    |e: (K, V)| e.0 == key
}

/// The place of a key among pairs.
pub open spec fn place_of<K, V>(entries: Seq<(K, V)>, key: K) -> Option<int> {
    crate::sequences::first(entries, has_key(key))
}

/// The pairs after a value was given to a key: a key that is there keeps its place, a new one
/// comes last.
pub open spec fn with_value<K, V>(entries: Seq<(K, V)>, key: K, value: V) -> Seq<(K, V)> {
    match place_of(entries, key) {
        Some(i) => entries.update(i, (key, value)),
        None => entries.push((key, value)),
    }
}

/// No key occurs twice.
pub open spec fn unique_keys<K, V>(entries: Seq<(K, V)>) -> bool {
    forall|i: int, j: int| 0 <= i < j < entries.len() ==> (#[trigger] entries[i]).0 != (#[trigger] entries[j]).0
}

/// Giving a value to a key brings in no key twice, and the key then has the value.
pub proof fn lemma_with_value<K, V>(entries: Seq<(K, V)>, key: K, value: V)
    requires
        unique_keys(entries),
    ensures
        unique_keys(with_value(entries, key, value)),
        place_of(with_value(entries, key, value), key) is Some,
        with_value(entries, key, value)[place_of(with_value(entries, key, value), key)->0] == (
            key,
            value,
        ),
{
    let after = with_value(entries, key, value);
    crate::sequences::lemma_first(entries, has_key::<K, V>(key));
    let n = match place_of(entries, key) {
        Some(i) => i,
        None => entries.len() as int,
    };
    assert(after[n] == (key, value));
    assert forall|i: int, j: int| 0 <= i < j < after.len() implies (#[trigger] after[i]).0 != (
    #[trigger] after[j]).0 by {
        if place_of(entries, key) is Some {
            assert(entries[i].0 != entries[j].0);
        } else if j < n {
            assert(entries[i].0 != entries[j].0);
        } else {
            assert(!has_key::<K, V>(key)(entries[i]));
        }
    }
    crate::sequences::lemma_first_exists(after, has_key::<K, V>(key), n);
    let m = place_of(after, key)->0;
    if m < n {
        assert(after[m].0 != after[n].0);
    }
}

} // verus!
