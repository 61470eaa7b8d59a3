//! The entries that can be launched.

use crate::index_map::{has_key, lemma_with_value, place_of, unique_keys, with_value};
use crate::mode::launch::launcher::{EntryId, Message};
use crate::paths::{key_of, names, path_key, PathKey};
use crate::sequences::{
    is_first, lemma_filter_from, lemma_filter_keeps, lemma_filter_next, lemma_first,
    lemma_first_exists, lemma_first_is,
};
use indexmap::IndexMap;
use std::hash::RandomState;
use std::sync::Arc;
use vstd::prelude::*;

verus! {

/// An application that can be launched.
pub struct DesktopEntry {
    pub name: String,
    pub generic_name: Option<String>,
    pub description: Option<String>,
    pub path: Vec<u8>,
    pub command_line: String,
    pub icon: Option<String>,
}

/// An image that was read, with the extension of its file.
pub struct StaticImage {
    pub data: Arc<Vec<u8>>,
    pub extension: String,
}

/// The pairs that a map of paths to entries holds, in order.
pub uninterp spec fn cached_entries(
    map: IndexMap<Vec<Vec<u8>>, Arc<DesktopEntry>, RandomState>,
) -> Seq<(PathKey, Arc<DesktopEntry>)>;

/// `IndexMap::new`: a map that holds nothing.
#[verifier::external_body]
fn new_map() -> (res: IndexMap<Vec<Vec<u8>>, Arc<DesktopEntry>, RandomState>)
    ensures
        (cached_entries(res) == Seq::<(PathKey, Arc<DesktopEntry>)>::empty()),
{
    IndexMap::new()
}

/// `IndexMap::len`: the number of pairs.
#[verifier::external_body]
fn map_len(map: &IndexMap<Vec<Vec<u8>>, Arc<DesktopEntry>, RandomState>) -> (res: usize)
    ensures
        res == cached_entries(*map).len(),
{
    map.len()
}

/// `IndexMap::get_index`: the pair at a place.
#[verifier::external_body]
fn map_value_at(
    map: &IndexMap<Vec<Vec<u8>>, Arc<DesktopEntry>, RandomState>,
    index: usize,
) -> (res: Option<&Arc<DesktopEntry>>)
    ensures
        res is Some == (index < cached_entries(*map).len()),
        res is Some ==> *res->0 == cached_entries(*map)[index as int].1,
{
    map.get_index(index).map(|(_, value)| value)
}

/// `IndexMap::get`: the value of a key, if the key is there.
#[verifier::external_body]
fn map_get<'a>(
    map: &'a IndexMap<Vec<Vec<u8>>, Arc<DesktopEntry>, RandomState>,
    key: &Vec<Vec<u8>>,
) -> (res: Option<&'a Arc<DesktopEntry>>)
    ensures
        res is Some == place_of(cached_entries(*map), names(key@)) is Some,
        res is Some ==> *res->0 == cached_entries(*map)[place_of(
            cached_entries(*map),
            names(key@),
        )->0].1,
{
    map.get(key)
}

/// `IndexMap::insert`: a key that is there keeps its place and gets the value, a new one comes
/// last.
#[verifier::external_body]
fn map_insert(
    map: &mut IndexMap<Vec<Vec<u8>>, Arc<DesktopEntry>, RandomState>,
    key: Vec<Vec<u8>>,
    value: Arc<DesktopEntry>,
)
    ensures
        cached_entries(*final(map)) == with_value(cached_entries(*old(map)), names(key@), value),
{
    map.insert(key, value);
}

/// The source of numbers for entries.
pub struct EntryIds {
    pub next: usize,
}

impl EntryIds {
    pub fn new() -> (res: Self)
        ensures
            res.next == 0,
    {
        EntryIds { next: 0 }
    }

    /// A number that was not given out before, until all of them have been.
    pub fn next_id(&mut self) -> (res: EntryId)
        ensures
            res == EntryId(old(self).next),
            final(self).next == nth_id(old(self).next, 1).0,
    {
        let id: usize = self.next;
        self.next = id.wrapping_add(1);
        proof {
            let m = usize::MAX + 1;
            if id == usize::MAX {
                vstd::arithmetic::div_mod::lemma_mod_self_0(m);
            } else {
                vstd::arithmetic::div_mod::lemma_small_mod((id + 1) as nat, m as nat);
            }
        }
        EntryId(id)
    }
}

/// The number that is given out after `n` others, counting from `next`.
pub open spec fn nth_id(next: usize, n: nat) -> EntryId {
    EntryId(((next + n) % (usize::MAX + 1)) as usize)
}

/// The entries that were found before, in order, by their paths.
pub struct EntryCache {
    entries: IndexMap<Vec<Vec<u8>>, Arc<DesktopEntry>, RandomState>,
}

impl View for EntryCache {
    type V = Seq<(PathKey, Arc<DesktopEntry>)>;

    closed spec fn view(&self) -> Seq<(PathKey, Arc<DesktopEntry>)> {
        cached_entries(self.entries)
    }
}

/// A desktop entry that belongs in the launcher: it says what to run, and does not ask to be
/// left out.
pub open spec fn is_launchable(found: crate::xdg::desktop_entry::DesktopEntry) -> bool {
    found.command_line is Some && found.no_display != Some(true)
}

/// The entry that the launcher makes of a desktop entry.
pub open spec fn converted(found: crate::xdg::desktop_entry::DesktopEntry) -> DesktopEntry {
    DesktopEntry {
        name: found.name,
        generic_name: found.generic_name,
        description: found.comment,
        path: found.source_path,
        command_line: found.command_line->0,
        icon: found.icon,
    }
}

/// The entry is in the cache.
pub open spec fn is_cached(
    cache: Seq<(PathKey, Arc<DesktopEntry>)>,
    found: crate::xdg::desktop_entry::DesktopEntry,
) -> bool {
    place_of(cache, path_key(found.source_path@)) is Some
}

/// The entry of the launcher for a desktop entry: the one in the cache, or else a new one.
pub open spec fn entry_for(
    cache: Seq<(PathKey, Arc<DesktopEntry>)>,
    found: crate::xdg::desktop_entry::DesktopEntry,
) -> Arc<DesktopEntry> {
    match place_of(cache, path_key(found.source_path@)) {
        Some(i) => cache[i].1,
        None => Arc::new(converted(found)),
    }
}

pub open spec fn launchable() -> spec_fn(crate::xdg::desktop_entry::DesktopEntry) -> bool {
    |f: crate::xdg::desktop_entry::DesktopEntry| is_launchable(f)
}

pub open spec fn launchable_and_new(cache: Seq<(PathKey, Arc<DesktopEntry>)>) -> spec_fn(
    crate::xdg::desktop_entry::DesktopEntry,
) -> bool {
    |f: crate::xdg::desktop_entry::DesktopEntry| is_launchable(f) && !is_cached(cache, f)
}

/// The messages that announce some entries, numbered from `next` on.
pub open spec fn announced(entries: Seq<Arc<DesktopEntry>>, next: usize) -> Seq<Message> {
    entries.map(|i: int, e: Arc<DesktopEntry>| Message::NewEntry(nth_id(next, i as nat), e))
}

/// The entries as pairs with their paths; of two with one path, the place of the first and the
/// value of the last.
pub open spec fn collected(entries: Seq<Arc<DesktopEntry>>) -> Seq<(PathKey, Arc<DesktopEntry>)>
    decreases entries.len(),
{
    if entries.len() == 0 {
        Seq::empty()
    } else {
        with_value(
            collected(entries.drop_last()),
            path_key(entries.last().path@),
            entries.last(),
        )
    }
}

/// The entries for those of the found ones that are launchable.
pub open spec fn entries_for(
    cache: Seq<(PathKey, Arc<DesktopEntry>)>,
    found: Seq<crate::xdg::desktop_entry::DesktopEntry>,
) -> Seq<Arc<DesktopEntry>> {
    found.filter(launchable()).map_values(
        |f: crate::xdg::desktop_entry::DesktopEntry| entry_for(cache, f),
    )
}

/// The new ones among the found entries.
pub open spec fn new_entries(
    cache: Seq<(PathKey, Arc<DesktopEntry>)>,
    found: Seq<crate::xdg::desktop_entry::DesktopEntry>,
) -> Seq<Arc<DesktopEntry>> {
    found.filter(launchable_and_new(cache)).map_values(
        |f: crate::xdg::desktop_entry::DesktopEntry| Arc::new(converted(f)),
    )
}

proof fn lemma_nth_id(next: usize, n: nat)
    ensures
        nth_id(nth_id(next, n).0, 1) == nth_id(next, n + 1),
{
    let m = usize::MAX + 1;
    vstd::arithmetic::div_mod::lemma_add_mod_noop((next + n) as int, 1, m);
    vstd::arithmetic::div_mod::lemma_small_mod(1, m as nat);
    vstd::arithmetic::div_mod::lemma_mod_bound((next + n) as int, m);
}

/// Taking some ids and then some more is taking all of them.
proof fn lemma_nth_id_adds(next: usize, n: nat, more: nat)
    ensures
        nth_id(nth_id(next, n).0, more) == nth_id(next, n + more),
{
    let m = usize::MAX + 1;
    vstd::arithmetic::div_mod::lemma_add_mod_noop((next + n) as int, more as int, m);
    vstd::arithmetic::div_mod::lemma_add_mod_noop(((next + n) as int) % m, more as int, m);
    vstd::arithmetic::div_mod::lemma_mod_twice((next + n) as int, m);
    vstd::arithmetic::div_mod::lemma_mod_bound((next + n) as int, m);
}

impl EntryCache {
    pub fn new() -> (res: Self)
        ensures
            (res@ == Seq::<(PathKey, Arc<DesktopEntry>)>::empty()),
    {
        EntryCache { entries: new_map() }
    }

    /// Announces the entries that were found before.
    pub fn announce_cached(&self, ids: &mut EntryIds) -> (res: Vec<Message>)
        ensures
            res@ == announced(
                self@.map_values(|p: (PathKey, Arc<DesktopEntry>)| p.1),
                old(ids).next,
            ),
            final(ids).next == nth_id(old(ids).next, self@.len()).0,
    {
        let ghost next = ids.next;
        let ghost second = |p: (PathKey, Arc<DesktopEntry>)| p.1;
        let mut res: Vec<Message> = Vec::new();
        let len: usize = map_len(&self.entries);
        let mut i: usize = 0;
        proof {
            assert(nth_id(next, 0).0 == next) by {
                vstd::arithmetic::div_mod::lemma_small_mod(next as nat, (usize::MAX + 1) as nat);
            }
        }
        while i < len
            invariant
                len == self@.len(),
                i <= len,
                second == (|p: (PathKey, Arc<DesktopEntry>)| p.1),
                ids.next == nth_id(next, i as nat).0,
                res@ == announced(self@.take(i as int).map_values(second), next),
            decreases len - i,
        {
            proof {
                lemma_nth_id(next, i as nat);
            }
            let id = ids.next_id();
            if let Some(entry) = map_value_at(&self.entries, i) {
                res.push(Message::NewEntry(id, entry.clone()));
            }
            i += 1;
            assert(res@ =~= announced(self@.take(i as int).map_values(second), next));
        }
        assert(self@.take(i as int) == self@);
        res
    }

    /// Takes over the desktop entries that a search found: announces those that are new, and
    /// keeps the launchable ones in place of those that the cache held.
    pub fn take_found(
        &mut self,
        found: Vec<crate::xdg::desktop_entry::DesktopEntry>,
        ids: &mut EntryIds,
    ) -> (res: Vec<Message>)
        ensures
            res@ == announced(new_entries(old(self)@, found@), old(ids).next),
            final(self)@ == collected(entries_for(old(self)@, found@)),
            final(ids).next == nth_id(old(ids).next, new_entries(old(self)@, found@).len()).0,
    {
        let ghost all = found@;
        let ghost next = ids.next;
        let ghost cache = self@;
        let ghost to_entry = |f: crate::xdg::desktop_entry::DesktopEntry| entry_for(cache, f);
        let ghost to_new = |f: crate::xdg::desktop_entry::DesktopEntry| Arc::new(converted(f));
        let mut res: Vec<Message> = Vec::new();
        let mut kept: Vec<Arc<DesktopEntry>> = Vec::new();
        proof {
            assert(nth_id(next, 0).0 == next) by {
                vstd::arithmetic::div_mod::lemma_small_mod(next as nat, (usize::MAX + 1) as nat);
            }
            assert(kept@ =~= entries_for(cache, all.take(0)));
            assert(res@ =~= announced(new_entries(cache, all.take(0)), next));
        }
        for f in it: found
            invariant
                it.seq() == all,
                self@ == cache,
                to_entry == (|f: crate::xdg::desktop_entry::DesktopEntry| entry_for(cache, f)),
                to_new == (|f: crate::xdg::desktop_entry::DesktopEntry| Arc::new(converted(f))),
                kept@ == entries_for(cache, all.take(it.index() as int)),
                res@ == announced(new_entries(cache, all.take(it.index() as int)), next),
                ids.next == nth_id(next, res@.len()).0,
        {
            let ghost n = it.index() as int;
            proof {
                assert(f == all[n]);
                lemma_filter_next(all, launchable(), n);
                lemma_filter_next(all, launchable_and_new(cache), n);
                lemma_nth_id(next, res@.len());
            }
            let hidden = match f.no_display {
                Some(no_display) => no_display,
                None => false,
            };
            if f.command_line.is_some() && !hidden {
                let cached = match map_get(&self.entries, &key_of(&f.source_path)) {
                    Some(entry) => Some(entry.clone()),
                    None => None,
                };
                match cached {
                    Some(entry) => {
                        kept.push(entry);
                    },
                    None => {
                        if let Some(command_line) = f.command_line {
                            let entry = Arc::new(
                                DesktopEntry {
                                    name: f.name,
                                    generic_name: f.generic_name,
                                    description: f.comment,
                                    path: f.source_path,
                                    command_line,
                                    icon: f.icon,
                                },
                            );
                            let id = ids.next_id();
                            res.push(Message::NewEntry(id, entry.clone()));
                            kept.push(entry);
                        }
                    },
                }
            }
            proof {
                assert(kept@ =~= entries_for(cache, all.take(n + 1)));
                assert(res@ =~= announced(new_entries(cache, all.take(n + 1)), next));
            }
        }
        assert(all.take(all.len() as int) == all);
        let mut map = new_map();
        let mut i: usize = 0;
        while i < kept.len()
            invariant
                i <= kept.len(),
                cached_entries(map) == collected(kept@.take(i as int)),
            decreases kept.len() - i,
        {
            let path = key_of(&kept[i].path);
            map_insert(&mut map, path, kept[i].clone());
            i += 1;
            assert(kept@.take(i as int).drop_last() == kept@.take(i - 1));
        }
        assert(kept@.take(i as int) == kept@);
        self.entries = map;
        res
    }
}

/// Announces the entries that were found before, takes over the ones that a search found, and
/// announces those that are new.
pub fn scour_desktop_entries(
    cache: &mut EntryCache,
    ids: &mut EntryIds,
    found: Vec<crate::xdg::desktop_entry::DesktopEntry>,
) -> (res: Vec<Message>)
    ensures
        res@ == announced(
            old(cache)@.map_values(|p: (PathKey, Arc<DesktopEntry>)| p.1),
            old(ids).next,
        ) + announced(
            new_entries(old(cache)@, found@),
            nth_id(old(ids).next, old(cache)@.len()).0,
        ),
        final(cache)@ == collected(entries_for(old(cache)@, found@)),
        final(ids).next == nth_id(
            old(ids).next,
            old(cache)@.len() + new_entries(old(cache)@, found@).len(),
        ).0,
{
    proof {
        lemma_nth_id_adds(ids.next, cache@.len(), new_entries(cache@, found@).len());
    }
    let mut res = cache.announce_cached(ids);
    let mut new = cache.take_found(found, ids);
    res.append(&mut new);
    res
}

/// Every entry of a cache stands under its own path, and no path occurs twice.
pub open spec fn is_cache(cache: Seq<(PathKey, Arc<DesktopEntry>)>) -> bool {
    &&& unique_keys(cache)
    &&& forall|i: int| 0 <= i < cache.len() ==> (#[trigger] cache[i]).0 == path_key(
        cache[i].1.path@,
    )
}

/// Some of the entries has the path.
pub open spec fn has_path(entries: Seq<Arc<DesktopEntry>>, path: PathKey) -> bool {
    exists|k: int| 0 <= k < entries.len() && path_key((#[trigger] entries[k]).path@) == path
}

/// Collecting entries gives a cache, and it has exactly their paths.
pub proof fn law_collected_entries_are_a_cache(entries: Seq<Arc<DesktopEntry>>, path: PathKey)
    ensures
        is_cache(collected(entries)),
        place_of(collected(entries), path) is Some <==> has_path(entries, path),
    decreases entries.len(),
{
    if entries.len() == 0 {
        lemma_first(collected(entries), has_key::<PathKey, Arc<DesktopEntry>>(path));
    } else {
        let front = entries.drop_last();
        let last = entries.last();
        let before = collected(front);
        let after = collected(entries);
        law_collected_entries_are_a_cache(front, path);
        law_collected_entries_are_a_cache(front, path_key(last.path@));
        lemma_with_value(before, path_key(last.path@), last);
        lemma_first(before, has_key::<PathKey, Arc<DesktopEntry>>(path_key(last.path@)));
        assert forall|i: int| 0 <= i < after.len() implies (#[trigger] after[i]).0
            == path_key(after[i].1.path@) by {
            if i < before.len() {
                assert(before[i].0 == path_key(before[i].1.path@));
            }
        }
        lemma_first(before, has_key::<PathKey, Arc<DesktopEntry>>(path));
        lemma_first(after, has_key::<PathKey, Arc<DesktopEntry>>(path));
        if has_path(entries, path) {
            let k = choose|k: int| 0 <= k < entries.len() && path_key(
                (#[trigger] entries[k]).path@,
            ) == path;
            if k < front.len() {
                assert(path_key(front[k].path@) == path);
                let n = place_of(before, path)->0;
                assert(before[n].0 == path);
                lemma_first_exists(after, has_key::<PathKey, Arc<DesktopEntry>>(path), n);
            }
        }
        if place_of(after, path) is Some {
            let n = place_of(after, path)->0;
            assert(after[n].0 == path);
            if path == path_key(last.path@) {
                assert(path_key(entries[entries.len() - 1].path@) == path);
            } else {
                assert(before[n].0 == path);
                lemma_first_exists(before, has_key::<PathKey, Arc<DesktopEntry>>(path), n);
                let k = choose|k: int| 0 <= k < front.len() && path_key(
                    (#[trigger] front[k]).path@,
                ) == path;
                assert(path_key(entries[k].path@) == path);
            }
        }
    }
}

/// In a cache the entry for a desktop entry has its path.
proof fn lemma_entry_path(
    cache: Seq<(PathKey, Arc<DesktopEntry>)>,
    found: crate::xdg::desktop_entry::DesktopEntry,
)
    requires
        is_cache(cache),
    ensures
        path_key(entry_for(cache, found).path@) == path_key(found.source_path@),
{
    lemma_first(cache, has_key::<PathKey, Arc<DesktopEntry>>(path_key(found.source_path@)));
}

/// After a search the cache holds exactly the paths of the launchable entries that it found;
/// entries that are gone, hidden, or without a command are not in it.
pub proof fn law_cache_holds_what_is_launchable(
    cache: Seq<(PathKey, Arc<DesktopEntry>)>,
    found: Seq<crate::xdg::desktop_entry::DesktopEntry>,
    path: PathKey,
)
    requires
        is_cache(cache),
    ensures
        is_cache(collected(entries_for(cache, found))),
        place_of(collected(entries_for(cache, found)), path) is Some <==> exists|k: int|
            0 <= k < found.len() && is_launchable(#[trigger] found[k]) && path_key(
                found[k].source_path@,
            ) == path,
{
    let entries = entries_for(cache, found);
    let fit = found.filter(launchable());
    law_collected_entries_are_a_cache(entries, path);
    if has_path(entries, path) {
        let j = choose|j: int| 0 <= j < entries.len() && path_key(
            (#[trigger] entries[j]).path@,
        ) == path;
        let k = lemma_filter_from(found, launchable(), j);
        lemma_entry_path(cache, fit[j]);
        assert(is_launchable(found[k]) && path_key(found[k].source_path@) == path);
    }
    if exists|k: int|
        0 <= k < found.len() && is_launchable(#[trigger] found[k]) && path_key(
            found[k].source_path@,
        ) == path {
        let k = choose|k: int|
            0 <= k < found.len() && is_launchable(#[trigger] found[k]) && path_key(
                found[k].source_path@,
            ) == path;
        let j = lemma_filter_keeps(found, launchable(), k);
        lemma_entry_path(cache, fit[j]);
        assert(path_key(entries[j].path@) == path);
    }
}

/// The pairs of `a` have the keys of `b`, and the values that `cache` has for them.
spec fn relabelled(
    a: Seq<(PathKey, Arc<DesktopEntry>)>,
    b: Seq<(PathKey, Arc<DesktopEntry>)>,
    cache: Seq<(PathKey, Arc<DesktopEntry>)>,
) -> bool {
    &&& a.len() == b.len()
    &&& forall|i: int|
        0 <= i < a.len() ==> (#[trigger] a[i]).0 == b[i].0 && place_of(cache, a[i].0) is Some
            && a[i].1 == cache[place_of(cache, a[i].0)->0].1
}

/// Entries that are replaced by those that a cache has under their paths are collected in the same
/// order.
proof fn lemma_relabelled(
    a: Seq<Arc<DesktopEntry>>,
    b: Seq<Arc<DesktopEntry>>,
    cache: Seq<(PathKey, Arc<DesktopEntry>)>,
)
    requires
        a.len() == b.len(),
        forall|k: int|
            0 <= k < a.len() ==> path_key((#[trigger] a[k]).path@) == path_key(
            b[k].path@,
        ) && place_of(
                cache,
                path_key(b[k].path@),
            ) is Some && a[k] == cache[place_of(cache, path_key(b[k].path@))->0].1,
    ensures
        relabelled(collected(a), collected(b), cache),
    decreases a.len(),
{
    if a.len() > 0 {
        let fa = a.drop_last();
        let fb = b.drop_last();
        assert forall|k: int| 0 <= k < fa.len() implies path_key((#[trigger] fa[k]).path@) == path_key(
            fb[k].path@,
        )
            && place_of(cache, path_key(fb[k].path@)) is Some && fa[k] == cache[place_of(
            cache,
            path_key(fb[k].path@),
        )->0].1 by {
            assert(path_key(a[k].path@) == path_key(b[k].path@));
        }
        lemma_relabelled(fa, fb, cache);
        let n = a.len() - 1;
        assert(path_key(a[n].path@) == path_key(b[n].path@));
        let path = path_key(a[n].path@);
        let p = has_key::<PathKey, Arc<DesktopEntry>>(path);
        lemma_first(collected(fa), p);
        lemma_first(collected(fb), p);
        if let Some(i) = place_of(collected(fa), path) {
            assert(collected(fa)[i].0 == collected(fb)[i].0);
            assert(is_first(collected(fb), p, i)) by {
                assert forall|j: int| 0 <= j < i implies !p(#[trigger] collected(fb)[j]) by {
                    assert(collected(fa)[j].0 == collected(fb)[j].0);
                    assert(!p(collected(fa)[j]));
                }
            }
            lemma_first_is(collected(fb), p, i);
        } else if let Some(i) = place_of(collected(fb), path) {
            assert(collected(fa)[i].0 == collected(fb)[i].0);
            assert(p(collected(fa)[i]));
        }
        assert forall|i: int| 0 <= i < collected(a).len() implies (#[trigger] collected(a)[i]).0
            == collected(b)[i].0 && place_of(cache, collected(a)[i].0) is Some && collected(a)[i].1
            == cache[place_of(cache, collected(a)[i].0)->0].1 by {
            if i < collected(fa).len() {
                assert(collected(fa)[i].0 == collected(fb)[i].0);
            }
        }
    }
}

/// A search that finds the same again announces nothing, and changes nothing.
pub proof fn law_second_search_is_silent(
    cache: Seq<(PathKey, Arc<DesktopEntry>)>,
    found: Seq<crate::xdg::desktop_entry::DesktopEntry>,
)
    requires
        is_cache(cache),
    ensures
        ({
            let after = collected(entries_for(cache, found));
            &&& new_entries(after, found).len() == 0
            &&& collected(entries_for(after, found)) == after
        }),
{
    let after = collected(entries_for(cache, found));
    let fit = found.filter(launchable());
    let new = found.filter(launchable_and_new(after));
    if new.len() > 0 {
        let k = lemma_filter_from(found, launchable_and_new(after), 0);
        law_cache_holds_what_is_launchable(cache, found, path_key(found[k].source_path@));
        assert(is_launchable(found[k]));
        assert(false);
    }
    let a = entries_for(after, found);
    let b = entries_for(cache, found);
    law_collected_entries_are_a_cache(b, Seq::empty());
    assert forall|k: int| 0 <= k < a.len() implies path_key((#[trigger] a[k]).path@) == path_key(
            b[k].path@,
        )
        && place_of(after, path_key(b[k].path@)) is Some && a[k] == after[place_of(after, path_key(b[k].path@))->0].1 by {
        lemma_entry_path(cache, fit[k]);
        lemma_entry_path(after, fit[k]);
        law_collected_entries_are_a_cache(b, path_key(b[k].path@));
        assert(has_path(b, path_key(b[k].path@)));
    }
    lemma_relabelled(a, b, after);
    assert forall|i: int| 0 <= i < after.len() implies #[trigger] collected(a)[i] == after[i] by {
        assert(collected(a)[i].0 == after[i].0);
        lemma_first(after, has_key::<PathKey, Arc<DesktopEntry>>(after[i].0));
        let n = place_of(after, after[i].0)->0;
        if n < i {
            assert(after[n].0 != after[i].0);
        } else if i < n {
            assert(after[i].0 != after[n].0);
        }
    }
    assert(collected(a) =~= after);
}

/// The numbers that are given out are new ones, as long as they do not run out.
pub proof fn law_entry_ids_are_fresh(next: usize, m: nat, n: nat)
    requires
        m < n,
        next + n <= usize::MAX,
    ensures
        nth_id(next, m) != nth_id(next, n),
{
    vstd::arithmetic::div_mod::lemma_small_mod((next + m) as nat, (usize::MAX + 1) as nat);
    vstd::arithmetic::div_mod::lemma_small_mod((next + n) as nat, (usize::MAX + 1) as nat);
}

} // verus!
