//! What holds of every search for desktop entries.

use crate::index_map::{has_key, place_of, with_value};
use crate::mode::launch::entry::{
    announced, collected, entries_for, entry_for, launchable, launchable_and_new, new_entries,
    nth_id, DesktopEntry,
};
use crate::mode::launch::launcher::{EntryId, Message};
use crate::mode::launch::rows::{rows_after, value_of, SearchRow};
use crate::paths::{path_key, PathKey};
use crate::sequences::{lemma_filter_from, lemma_filter_keeps, lemma_first, lemma_first_exists};
use std::sync::Arc;
use vstd::prelude::*;

verus! {

/// The message announces the desktop entry that was found, with all that the launcher takes from
/// it.
pub open spec fn announces(
    message: Message,
    found: crate::xdg::desktop_entry::DesktopEntry,
) -> bool {
    message matches Message::NewEntry(id, entry) && is_made_of(*entry, found)
}

/// The entry of the launcher is what the desktop entry says.
pub open spec fn is_made_of(
    entry: DesktopEntry,
    found: crate::xdg::desktop_entry::DesktopEntry,
) -> bool {
    &&& entry.name == found.name
    &&& entry.generic_name == found.generic_name
    &&& entry.description == found.comment
    &&& entry.path == found.source_path
    &&& found.command_line == Some(entry.command_line)
    &&& entry.icon == found.icon
}

/// The cache holds an entry under the path.
pub open spec fn caches(cache: Seq<(PathKey, Arc<DesktopEntry>)>, path: PathKey) -> bool {
    exists|k: int| 0 <= k < cache.len() && (#[trigger] cache[k]).0 == path
}

/// An entry is found by the path that it is cached under.
proof fn lemma_cached(cache: Seq<(PathKey, Arc<DesktopEntry>)>, path: PathKey)
    ensures
        place_of(cache, path) is Some <==> caches(cache, path),
        place_of(cache, path) matches Some(k) ==> 0 <= k < cache.len() && cache[k].0 == path,
{
    let p = has_key::<PathKey, Arc<DesktopEntry>>(path);
    lemma_first(cache, p);
    if caches(cache, path) {
        let k = choose|k: int| 0 <= k < cache.len() && (#[trigger] cache[k]).0 == path;
        lemma_first_exists(cache, p, k);
    }
}

/// What is collected has the paths of the entries, and each value is one of them.
proof fn lemma_collected(entries: Seq<Arc<DesktopEntry>>)
    ensures
        forall|n: int|
            0 <= n < entries.len() ==> caches(
                collected(entries),
                path_key((#[trigger] entries[n]).path@),
            ),
        forall|k: int|
            0 <= k < collected(entries).len() ==> comes_from(
                #[trigger] collected(entries)[k],
                entries,
            ),
    decreases entries.len(),
{
    if entries.len() > 0 {
        let front = entries.drop_last();
        let last = entries.last();
        let before = collected(front);
        let after = collected(entries);
        let key = path_key(last.path@);
        lemma_collected(front);
        lemma_cached(before, key);
        assert forall|n: int| 0 <= n < entries.len() implies caches(
            after,
            path_key((#[trigger] entries[n]).path@),
        ) by {
            if n < front.len() {
                assert(caches(before, path_key(front[n].path@)));
                let k = choose|k: int|
                    0 <= k < before.len() && (#[trigger] before[k]).0 == path_key(front[n].path@);
                assert(after[k].0 == before[k].0);
            } else {
                let k = match place_of(before, key) {
                    Some(k) => k,
                    None => before.len() as int,
                };
                assert(after[k].0 == key);
            }
        }
        assert forall|k: int| 0 <= k < after.len() implies comes_from(#[trigger] after[k], entries) by {
            if k < before.len() && after[k] == before[k] {
                assert(comes_from(before[k], front));
                let n = choose|n: int|
                    0 <= n < front.len() && before[k] == (
                        path_key((#[trigger] front[n]).path@),
                        front[n],
                    );
                assert(entries[n] == front[n]);
            } else {
                assert(entries[entries.len() - 1] == last);
            }
        }
    }
}

/// The pair is one of the entries under its path.
pub open spec fn comes_from(
    pair: (PathKey, Arc<DesktopEntry>),
    entries: Seq<Arc<DesktopEntry>>,
) -> bool {
    exists|n: int|
        0 <= n < entries.len() && pair == (path_key((#[trigger] entries[n]).path@), entries[n])
}

/// Whatever else a desktop entry says: where it has a command and does not ask to be hidden, the
/// cache then holds its path, and where the cache did not hold it before, the entry is announced.
pub proof fn law_launchable_entry_is_offered(
    cache: Seq<(PathKey, Arc<DesktopEntry>)>,
    found: Seq<crate::xdg::desktop_entry::DesktopEntry>,
    next: usize,
    i: int,
)
    requires
        forall|j: int| 0 <= j < cache.len() ==> (#[trigger] cache[j]).0 == path_key(cache[j].1.path@),
        0 <= i < found.len(),
        found[i].command_line is Some,
        found[i].no_display != Some(true),
    ensures
        exists|k: int|
            0 <= k < collected(entries_for(cache, found)).len() && (#[trigger] collected(
                entries_for(cache, found),
            )[k]).0 == path_key(found[i].source_path@),
        (forall|j: int|
            0 <= j < cache.len() ==> (#[trigger] cache[j]).0 != path_key(found[i].source_path@))
            ==> exists|m: int|
            0 <= m < announced(new_entries(cache, found), next).len() && announces(
                #[trigger] announced(new_entries(cache, found), next)[m],
                found[i],
            ),
{
    let key = path_key(found[i].source_path@);
    let entries = entries_for(cache, found);
    lemma_cached(cache, key);
    let n = lemma_filter_keeps(found, launchable(), i);
    assert(entries[n] == entry_for(cache, found[i]));
    assert(path_key(entries[n].path@) == key);
    lemma_collected(entries);
    assert(caches(collected(entries), key));
    if !caches(cache, key) {
        let m = lemma_filter_keeps(found, launchable_and_new(cache), i);
        assert(announces(announced(new_entries(cache, found), next)[m], found[i]));
    }
}

/// Only what was found, has a command, does not ask to be hidden and was not cached before is
/// announced.
pub proof fn law_only_new_launchable_entries_are_announced(
    cache: Seq<(PathKey, Arc<DesktopEntry>)>,
    found: Seq<crate::xdg::desktop_entry::DesktopEntry>,
    next: usize,
    m: int,
)
    requires
        0 <= m < announced(new_entries(cache, found), next).len(),
    ensures
        exists|i: int|
            0 <= i < found.len() && announces(
                announced(new_entries(cache, found), next)[m],
                #[trigger] found[i],
            ) && found[i].command_line is Some && found[i].no_display != Some(true) && !caches(
                cache,
                path_key(found[i].source_path@),
            ),
{
    let i = lemma_filter_from(found, launchable_and_new(cache), m);
    lemma_cached(cache, path_key(found[i].source_path@));
    assert(announces(announced(new_entries(cache, found), next)[m], found[i]));
}

/// Every entry of the cache after a search is the one that was cached before under its path, or,
/// where there was none, one that is made of a desktop entry that was found there. That one has a
/// command, and does not ask to be hidden.
pub proof fn law_cache_holds_found_entries(
    cache: Seq<(PathKey, Arc<DesktopEntry>)>,
    found: Seq<crate::xdg::desktop_entry::DesktopEntry>,
    k: int,
)
    requires
        forall|j: int| 0 <= j < cache.len() ==> (#[trigger] cache[j]).0 == path_key(cache[j].1.path@),
        0 <= k < collected(entries_for(cache, found)).len(),
    ensures
        ({
            let (path, entry) = collected(entries_for(cache, found))[k];
            &&& exists|i: int|
                0 <= i < found.len() && path_key((#[trigger] found[i]).source_path@) == path
                    && found[i].command_line is Some && found[i].no_display != Some(true) && (
                caches(cache, path) || is_made_of(*entry, found[i]))
            &&& caches(cache, path) ==> cache.contains((path, entry))
        }),
{
    let entries = entries_for(cache, found);
    let fit = found.filter(launchable());
    lemma_collected(entries);
    let pair = collected(entries)[k];
    assert(comes_from(pair, entries));
    let n = choose|n: int|
        0 <= n < entries.len() && pair == (path_key((#[trigger] entries[n]).path@), entries[n]);
    let i = lemma_filter_from(found, launchable(), n);
    let key = path_key(found[i].source_path@);
    lemma_cached(cache, key);
    assert(entries[n] == entry_for(cache, found[i]));
    if let Some(j) = place_of(cache, key) {
        assert(cache[j] == (key, cache[j].1));
        assert(path_key(cache[j].1.path@) == key);
    }
    assert(path_key(found[i].source_path@) == pair.0);
}

/// What is found one after the other is announced one after the other: a desktop entry that is
/// new, has a command and does not ask to be hidden gives one entry, and any other none.
pub proof fn law_entries_are_announced_in_order(
    cache: Seq<(PathKey, Arc<DesktopEntry>)>,
    a: Seq<crate::xdg::desktop_entry::DesktopEntry>,
    b: Seq<crate::xdg::desktop_entry::DesktopEntry>,
    f: crate::xdg::desktop_entry::DesktopEntry,
)
    ensures
        new_entries(cache, a + b) == new_entries(cache, a) + new_entries(cache, b),
        f.command_line is Some && f.no_display != Some(true) && !caches(
            cache,
            path_key(f.source_path@),
        ) ==> new_entries(cache, seq![f]).len() == 1 && is_made_of(
            *new_entries(cache, seq![f])[0],
            f,
        ),
        !(f.command_line is Some && f.no_display != Some(true) && !caches(
            cache,
            path_key(f.source_path@),
        )) ==> new_entries(cache, seq![f]).len() == 0,
{
    let p = launchable_and_new(cache);
    Seq::filter_distributes_over_add(a, b, p);
    lemma_cached(cache, path_key(f.source_path@));
    reveal(Seq::filter);
    assert(seq![f].drop_last() =~= Seq::empty());
    reveal_with_fuel(Seq::filter, 2);
    assert(new_entries(cache, a + b) =~= new_entries(cache, a) + new_entries(cache, b));
}

/// Each announced entry has its own message, in order, and the numbers count on.
pub proof fn law_announcements_are_numbered(
    entries: Seq<Arc<DesktopEntry>>,
    next: usize,
    m: int,
)
    requires
        next + m <= usize::MAX,
    ensures
        announced(entries, next).len() == entries.len(),
        0 <= m < entries.len() ==> announced(entries, next)[m] == Message::NewEntry(
            EntryId((next + m) as usize),
            entries[m],
        ),
{
    if 0 <= m < entries.len() {
        vstd::arithmetic::div_mod::lemma_small_mod((next + m) as nat, (usize::MAX + 1) as nat);
        assert(nth_id(next, m as nat) == EntryId((next + m) as usize));
    }
}

/// A key that has a value gets the new one in its place, a new key comes last; every other pair
/// stays where it is.
pub proof fn law_value_takes_its_place<K, V>(entries: Seq<(K, V)>, key: K, value: V, i: int)
    requires
        0 <= i < entries.len(),
    ensures
        entries[i].0 != key ==> with_value(entries, key, value)[i] == entries[i],
        (forall|j: int| 0 <= j < i ==> (#[trigger] entries[j]).0 != key) && entries[i].0 == key
            ==> with_value(entries, key, value) == entries.update(i, (key, value)),
        (forall|j: int| 0 <= j < entries.len() ==> (#[trigger] entries[j]).0 != key) ==> with_value(
            entries,
            key,
            value,
        ) == entries.push((key, value)),
{
    let p = has_key::<K, V>(key);
    lemma_first(entries, p);
    if (forall|j: int| 0 <= j < i ==> (#[trigger] entries[j]).0 != key) && entries[i].0 == key {
        lemma_first_exists(entries, p, i);
    }
}

/// The row is what the desktop entry says.
pub open spec fn is_row_of(row: SearchRow, found: crate::xdg::desktop_entry::DesktopEntry) -> bool {
    &&& row.entry.name == found.name
    &&& row.entry.path == found.source_path
    &&& found.command_line == Some(row.entry.command_line)
    &&& row.entry.icon == found.icon
}

/// One of the rows has the path.
pub open spec fn lists(rows: Seq<SearchRow>, path: PathKey) -> bool {
    exists|k: int| 0 <= k < rows.len() && path_key((#[trigger] rows[k]).entry.path@) == path
}

/// Rows are made of what is found one after the other. A desktop entry that has a command, does not
/// ask to be hidden and whose path has no row yet gets one, after the others; for any other the
/// rows stay.
pub proof fn law_rows_follow_what_is_found(
    rows: Seq<SearchRow>,
    a: Seq<crate::xdg::desktop_entry::DesktopEntry>,
    b: Seq<crate::xdg::desktop_entry::DesktopEntry>,
    f: crate::xdg::desktop_entry::DesktopEntry,
    history: Seq<(Vec<u8>, u32)>,
)
    ensures
        rows_after(rows, a + b, history) == rows_after(rows_after(rows, a, history), b, history),
        rows_after(rows, Seq::empty(), history) == rows,
        ({
            let after = rows_after(rows, seq![f], history);
            if f.command_line is Some && f.no_display != Some(true) && !lists(
                rows,
                path_key(f.source_path@),
            ) {
                &&& after.len() == rows.len() + 1
                &&& after.drop_last() == rows
                &&& is_row_of(after.last(), f)
                &&& after.last().bonus_score == value_of(history, path_key(f.source_path@))
            } else {
                after == rows
            }
        }),
    decreases b.len(),
{
    reveal_with_fuel(rows_after, 2);
    assert(seq![f].drop_last() =~= Seq::empty());
    assert(lists(rows, path_key(f.source_path@)) == crate::mode::launch::rows::has_row(
        rows,
        path_key(f.source_path@),
    ));
    let after = rows_after(rows, seq![f], history);
    if after.len() > rows.len() {
        assert(after.drop_last() =~= rows);
    }
    if b.len() == 0 {
        assert(a + b =~= a);
    } else {
        law_rows_follow_what_is_found(rows, a, b.drop_last(), f, history);
        assert((a + b).drop_last() =~= a + b.drop_last());
        assert((a + b).last() == b.last());
    }
}

/// The bonus of a path is the value of the first pair that the history has for it, and 0 where it
/// has none.
pub proof fn law_bonus_is_the_first_value(history: Seq<(Vec<u8>, u32)>, path: PathKey, i: int)
    requires
        0 <= i <= history.len(),
        forall|j: int| 0 <= j < i ==> path_key((#[trigger] history[j]).0@) != path,
    ensures
        i < history.len() && path_key(history[i].0@) == path ==> value_of(history, path)
            == history[i].1,
        i == history.len() ==> value_of(history, path) == 0,
{
    let p = crate::mode::launch::rows::is_path(path);
    lemma_first(history, p);
    if i < history.len() && path_key(history[i].0@) == path {
        lemma_first_exists(history, p, i);
    }
}

} // verus!
