//! What holds of the launcher in every state.

use crate::index_map::{has_key, lemma_with_value, place_of, unique_keys};
use crate::mode::launch::entry::DesktopEntry;
use crate::mode::launch::history::law_launched_entry_is_kept;
use crate::mode::launch::icons::RenderedIcon;
use crate::mode::launch::launcher::{
    is_display_order, is_id, ranked, stands_above, EntryId, LauncherAction, LauncherEntry,
    LauncherView, Message,
};
use crate::paths::{path_key, PathKey};
use crate::sequences::{first, lemma_first, lemma_first_exists};
use vstd::prelude::*;

verus! {

/// Every row stands under the number of its entry, and no number occurs twice.
pub open spec fn is_numbered(view: LauncherView) -> bool {
    &&& unique_keys(view.entries)
    &&& forall|i: int|
        0 <= i < view.entries.len() ==> (#[trigger] view.entries[i]).1.id.0 == view.entries[i].0
}

/// No message brings rows and numbers out of step.
pub proof fn law_messages_keep_numbering(
    before: LauncherView,
    message: Message,
    icons: Map<Seq<char>, RenderedIcon>,
    now: i128,
    after: LauncherView,
    actions: Seq<LauncherAction>,
)
    requires
        is_numbered(before),
        before.handles(message, icons, now, after, actions),
    ensures
        is_numbered(after),
{
    let old_rows = before.entries;
    let rows = after.entries;
    match message {
        Message::NewEntry(id, entry) => {
            let row = crate::mode::launch::launcher::new_row(id, entry, icons);
            lemma_with_value(old_rows, id.0, row);
            lemma_first(old_rows, has_key::<usize, LauncherEntry>(id.0));
            assert forall|i: int| 0 <= i < rows.len() implies (#[trigger] rows[i]).1.id.0
                == rows[i].0 by {
                if i < old_rows.len() {
                    assert(old_rows[i].1.id.0 == old_rows[i].0);
                }
            }
        },
        Message::UpdateIcon(id, icon) => {
            lemma_first(old_rows, has_key::<usize, LauncherEntry>(id.0));
            assert forall|i: int| 0 <= i < rows.len() implies (#[trigger] rows[i]).1.id.0
                == rows[i].0 by {
                assert(old_rows[i].1.id.0 == old_rows[i].0);
            }
            assert forall|i: int, j: int| 0 <= i < j < rows.len() implies (#[trigger] rows[i]).0
                != (#[trigger] rows[j]).0 by {
                assert(old_rows[i].0 != old_rows[j].0);
            }
        },
        Message::SearchUpdated => {
            assert forall|i: int| 0 <= i < rows.len() implies (#[trigger] rows[i]).1.id.0
                == rows[i].0 by {
                assert(old_rows[i].1.id.0 == old_rows[i].0);
            }
            assert forall|i: int, j: int| 0 <= i < j < rows.len() implies (#[trigger] rows[i]).0
                != (#[trigger] rows[j]).0 by {
                assert(old_rows[i].0 != old_rows[j].0);
            }
        },
        _ => {},
    }
}

/// A new entry is shown at once, under its number.
pub proof fn law_new_entry_is_shown(
    before: LauncherView,
    id: EntryId,
    entry: std::sync::Arc<DesktopEntry>,
    icons: Map<Seq<char>, RenderedIcon>,
)
    requires
        is_numbered(before),
    ensures
        ({
            let after = before.with_new_entry(id, entry, icons);
            &&& place_of(after.entries, id.0) is Some
            &&& after.entries[place_of(after.entries, id.0)->0].1.shown
            &&& after.entries[place_of(after.entries, id.0)->0].1.desktop == entry
        }),
{
    lemma_with_value(
        before.entries,
        id.0,
        crate::mode::launch::launcher::new_row(id, entry, icons),
    );
}

/// After a search exactly those rows are shown whose entries were found.
pub proof fn law_search_shows_what_was_found(row: (usize, LauncherEntry), found: Seq<EntryId>)
    ensures
        ranked(row, found).1.shown == found.contains(EntryId(row.0)),
{
    let id = EntryId(row.0);
    lemma_first(found, is_id(id));
    if found.contains(id) {
        let i = choose|i: int| 0 <= i < found.len() && found[i] == id;
        lemma_first_exists(found, is_id(id), i);
    }
}

/// Of two entries that were found, the one with the better match has the higher score; and
/// whatever was found has a higher score than what was not.
pub proof fn law_better_match_has_higher_score(
    a: (usize, LauncherEntry),
    b: (usize, LauncherEntry),
    found: Seq<EntryId>,
)
    requires
        found.len() <= u32::MAX,
        first(found, is_id(EntryId(a.0))) is Some,
        match first(found, is_id(EntryId(b.0))) {
            Some(p) => first(found, is_id(EntryId(a.0)))->0 < p,
            None => true,
        },
    ensures
        ranked(a, found).1.score > ranked(b, found).1.score,
{
    lemma_first(found, is_id(EntryId(a.0)));
    lemma_first(found, is_id(EntryId(b.0)));
}

/// An entry that is launched is remembered in the history that is stored, unless that holds scores
/// below 0, where no launch leads.
pub proof fn law_launch_is_remembered(
    before: LauncherView,
    id: EntryId,
    icons: Map<Seq<char>, RenderedIcon>,
    now: i128,
    after: LauncherView,
    actions: Seq<LauncherAction>,
)
    requires
        before.handles(Message::Launch(id), icons, now, after, actions),
        place_of(before.entries, id.0) is Some,
        forall|p: PathKey| before.bias.dom().contains(p) ==> (#[trigger] before.bias[p]).score >= 0,
    ensures
        ({
            let path = path_key(before.entries[place_of(before.entries, id.0)->0].1.desktop.path@);
            &&& after.bias.dom().contains(path)
            &&& after.bias[path].last_launched == now
        }),
{
    let path = path_key(before.entries[place_of(before.entries, id.0)->0].1.desktop.path@);
    if before.bias.dom().contains(path) {
        assert(before.bias[path].score >= 0);
    }
    law_launched_entry_is_kept(before.bias, path, now);
}

/// There is only one order in which rows are shown.
pub proof fn law_display_order_is_unique(
    view: LauncherView,
    now: i128,
    a: Seq<usize>,
    b: Seq<usize>,
)
    requires
        is_display_order(view, now, a),
        is_display_order(view, now, b),
        view.entries.len() <= usize::MAX,
    ensures
        a == b,
{
    lemma_same_prefix(view, now, a, b, a.len() as int);
    lemma_same_prefix(view, now, b, a, b.len() as int);
    assert(a.take(a.len() as int) == a);
    assert(b.take(b.len() as int) == b);
    assert(b.take(a.len() as int) == b);
}

/// Two orders of the same rows begin alike.
proof fn lemma_same_prefix(view: LauncherView, now: i128, a: Seq<usize>, b: Seq<usize>, n: int)
    requires
        is_display_order(view, now, a),
        is_display_order(view, now, b),
        view.entries.len() <= usize::MAX,
        0 <= n <= a.len(),
    ensures
        n <= b.len(),
        a.take(n) == b.take(n),
    decreases n,
{
    if n > 0 {
        let k = n - 1;
        lemma_same_prefix(view, now, a, b, k);
        let x = a[k];
        assert(view.entries[x as int].1.shown);
        assert(b.contains(x));
        let m = choose|m: int| 0 <= m < b.len() && b[m] == x;
        if m < k {
            assert(a.take(k)[m] == b.take(k)[m]);
            assert(stands_above(view, now, a[m] as int, a[k] as int));
        } else if m > k {
            let y = b[k];
            assert(stands_above(view, now, b[k] as int, b[m] as int));
            assert(view.entries[y as int].1.shown);
            assert(a.contains(y));
            let l = choose|l: int| 0 <= l < a.len() && a[l] == y;
            if l < k {
                assert(a.take(k)[l] == b.take(k)[l]);
                assert(stands_above(view, now, b[l] as int, b[k] as int));
            } else if l > k {
                assert(stands_above(view, now, a[k] as int, a[l] as int));
            }
        }
        assert(a.take(n) =~= b.take(n)) by {
            assert forall|i: int| 0 <= i < n implies a[i] == b[i] by {
                if i < k {
                    assert(a.take(k)[i] == b.take(k)[i]);
                }
            }
        }
    }
}

/// Choosing an entry in the user interface launches that entry, as long as its number fits.
pub proof fn law_chosen_entry_is_launched(entry: LauncherEntry)
    requires
        entry.id.0 <= i32::MAX,
    ensures
        entry.id.0 as i32 >= 0,
        Message::Launch(EntryId((entry.id.0 as i32) as usize)) == Message::Launch(entry.id),
{
}

} // verus!
