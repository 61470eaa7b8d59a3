//! What the launcher shows, and what its messages do.

use crate::index_map::{has_key, place_of};
use crate::mode::launch::entry::{DesktopEntry, StaticImage};
use crate::mode::launch::history::{all_decayed, launched, score_in};
use crate::mode::launch::icons::RenderedIcon;
use crate::mode::launch::launcher::{
    found_ids, is_display_order, is_id, ranked, shows, EntryId, LauncherAction, LauncherEntry,
    LauncherView, Message, SearchEntry, UiEntry,
};
use crate::paths::path_key;
use crate::sequences::{first, lemma_first, lemma_first_exists};
use crate::ui::index_model::Notification;
use std::sync::Arc;
use vstd::prelude::*;

verus! {

/// Of two rows that are shown, the one with the higher launch score stands above, however well
/// either matches what is searched for.
pub proof fn law_higher_launch_score_is_on_top(
    view: LauncherView,
    now: i128,
    order: Seq<usize>,
    j: int,
    k: int,
)
    requires
        is_display_order(view, now, order),
        0 <= j < order.len(),
        0 <= k < order.len(),
        score_in(view.ranking, path_key(view.entries[order[j] as int].1.desktop.path@), now)
            > score_in(view.ranking, path_key(view.entries[order[k] as int].1.desktop.path@), now),
    ensures
        j < k,
{
    if k < j {
        assert(order[k] < view.entries.len() && order[j] < view.entries.len());
    }
}

/// Of two rows with the same launch score, the one with the better match stands above; and where
/// that is the same too, the one that came later.
pub proof fn law_better_match_breaks_ties(
    view: LauncherView,
    now: i128,
    order: Seq<usize>,
    j: int,
    k: int,
)
    requires
        is_display_order(view, now, order),
        0 <= j < order.len(),
        0 <= k < order.len(),
        score_in(view.ranking, path_key(view.entries[order[j] as int].1.desktop.path@), now)
            == score_in(view.ranking, path_key(view.entries[order[k] as int].1.desktop.path@), now),
        view.entries[order[j] as int].1.score > view.entries[order[k] as int].1.score || (
        view.entries[order[j] as int].1.score == view.entries[order[k] as int].1.score && order[j]
            > order[k]),
    ensures
        j < k,
{
    if k < j {
        assert(order[k] < view.entries.len() && order[j] < view.entries.len());
    }
}

/// Every row that is to be shown is shown once, and no other is.
pub proof fn law_shown_rows_are_shown_once(
    view: LauncherView,
    now: i128,
    order: Seq<usize>,
    row: usize,
)
    requires
        is_display_order(view, now, order),
    ensures
        order.contains(row) <==> row < view.entries.len() && view.entries[row as int].1.shown,
        order.no_duplicates(),
{
    assert forall|j: int, k: int| 0 <= j < order.len() && 0 <= k < order.len() && j != k implies order[j]
        != order[k] by {
        if j < k {
            assert(order[j] < view.entries.len() && order[k] < view.entries.len());
        } else {
            assert(order[k] < view.entries.len() && order[j] < view.entries.len());
        }
    }
    if order.contains(row) {
        let k = choose|k: int| 0 <= k < order.len() && order[k] == row;
        assert(order[k] < view.entries.len());
    }
}

/// The text, and nothing where there is none.
pub open spec fn is_text_or_nothing(shown: Seq<char>, text: Option<String>) -> bool {
    match text {
        Some(t) => shown == t@,
        None => shown.len() == 0,
    }
}

/// What the user interface shows of a row is the name of its entry, with its other texts where it
/// has them, its icon, and its number.
pub proof fn law_shown_row_is_its_entry(
    view: LauncherView,
    order: Seq<usize>,
    shown: Seq<UiEntry>,
    k: int,
)
    requires
        shows(view, order, shown),
    ensures
        shown.len() == order.len(),
        0 <= k < order.len() ==> {
            let entry = view.entries[order[k] as int].1;
            &&& shown[k].name@ == entry.desktop.name@
            &&& is_text_or_nothing(shown[k].generic_name@, entry.desktop.generic_name)
            &&& is_text_or_nothing(shown[k].description@, entry.desktop.description)
            &&& shown[k].icon == entry.icon
            &&& entry.id.0 <= i32::MAX ==> shown[k].id == entry.id.0
        },
{
}

/// Results of the search show a row exactly where its entry was found, and score it by its place:
/// the best match gets the number of matches, and each one after it gets one less. Nothing else
/// of the row changes.
pub proof fn law_results_rank_rows(
    before: LauncherView,
    icons: Map<Seq<char>, RenderedIcon>,
    now: i128,
    after: LauncherView,
    actions: Seq<LauncherAction>,
    row: int,
    place: int,
)
    requires
        before.handles(Message::SearchUpdated, icons, now, after, actions),
        0 <= row < before.entries.len(),
        after.search.found.len() <= u32::MAX,
    ensures
        after.entries.len() == before.entries.len(),
        after.entries[row].0 == before.entries[row].0,
        after.entries[row].1.id == before.entries[row].1.id,
        after.entries[row].1.desktop == before.entries[row].1.desktop,
        after.entries[row].1.icon == before.entries[row].1.icon,
        after.entries[row].1.shown <==> exists|p: int|
            0 <= p < after.search.found.len() && (#[trigger] after.search.found[p]).for_id
                == EntryId(before.entries[row].0),
        !after.entries[row].1.shown ==> after.entries[row].1.score == 0,
        0 <= place < after.search.found.len() && after.search.found[place].for_id == EntryId(
            before.entries[row].0,
        ) && (forall|p: int|
            0 <= p < place ==> (#[trigger] after.search.found[p]).for_id != EntryId(
                before.entries[row].0,
            )) ==> after.entries[row].1.score == after.search.found.len() - place,
{
    let found = after.search.found;
    let ids = found_ids(after.search);
    let id = EntryId(before.entries[row].0);
    assert(after.entries[row] == ranked(before.entries[row], ids));
    lemma_first(ids, is_id(id));
    if exists|p: int| 0 <= p < found.len() && (#[trigger] found[p]).for_id == id {
        let p = choose|p: int| 0 <= p < found.len() && (#[trigger] found[p]).for_id == id;
        assert(ids[p] == id);
        lemma_first_exists(ids, is_id(id), p);
    }
    if let Some(p) = first(ids, is_id(id)) {
        assert(found[p].for_id == id);
    }
    if 0 <= place < found.len() && found[place].for_id == id && (forall|p: int|
        0 <= p < place ==> (#[trigger] found[p]).for_id != id) {
        assert(ids[place] == id);
        lemma_first_exists(ids, is_id(id), place);
        let p = first(ids, is_id(id))->0;
        if p < place {
            assert(found[p].for_id == id);
        }
    }
}

/// The entry is one of those that were added.
pub open spec fn was_added(
    entry: SearchEntry,
    items: Seq<(SearchEntry, Seq<Seq<char>>)>,
) -> bool {
    exists|i: int| 0 <= i < items.len() && (#[trigger] items[i]).0 == entry
}

/// Results of the search change nothing but rows and what is found, and all rows are reported.
pub proof fn law_results_change_nothing_else(
    before: LauncherView,
    icons: Map<Seq<char>, RenderedIcon>,
    now: i128,
    after: LauncherView,
    actions: Seq<LauncherAction>,
)
    requires
        before.handles(Message::SearchUpdated, icons, now, after, actions),
    ensures
        after.bias == before.bias,
        after.ranking == before.ranking,
        after.search.items == before.search.items,
        after.search.queries == before.search.queries,
        after.search.searched == before.search.queries,
        after.search.last_query == before.search.last_query,
        actions.len() == 2,
        actions[0] is Searched,
        actions[1] == LauncherAction::Notify(Notification::Reset),
        forall|p: int|
            0 <= p < after.search.found.len() ==> was_added(
                #[trigger] after.search.found[p],
                before.search.items,
            ),
{
    assert forall|p: int| 0 <= p < after.search.found.len() implies was_added(
        #[trigger] after.search.found[p],
        before.search.items,
    ) by {
        assert(crate::fuzzy_search::is_given(after.search.found[p], after.search.items));
    }
}

/// A query is searched for from then on, and touches neither rows nor histories. Those who wait are
/// told exactly where the matcher says that it has finished, with new matches.
pub proof fn law_query_is_searched_for(
    before: LauncherView,
    query: String,
    icons: Map<Seq<char>, RenderedIcon>,
    now: i128,
    after: LauncherView,
    actions: Seq<LauncherAction>,
)
    requires
        before.handles(Message::QuerySet(query), icons, now, after, actions),
        before.search.queries.len() == 1,
    ensures
        after.search.queries == seq![query@],
        after.search.searched == seq![query@],
        after.search.last_query == query@,
        after.search.items == before.search.items,
        after.entries == before.entries,
        after.bias == before.bias,
        after.ranking == before.ranking,
        actions.len() > 0,
        actions[0] matches LauncherAction::Searched(status) && actions == if status.changed
            && !status.running {
            seq![actions[0], LauncherAction::NotifySearch]
        } else {
            seq![actions[0]]
        } && (status.changed || after.search.found == before.search.found),
{
    assert(before.search.queries.update(0, query@) =~= seq![query@]);
}

/// Launching a row stores a history in which its entry was launched now, launches what the row
/// stands for, and then asks for the launcher to be stopped. The rows stay, and the history that
/// they are ranked by.
pub proof fn law_row_is_launched(
    before: LauncherView,
    id: EntryId,
    icons: Map<Seq<char>, RenderedIcon>,
    now: i128,
    after: LauncherView,
    actions: Seq<LauncherAction>,
    row: int,
)
    requires
        before.handles(Message::Launch(id), icons, now, after, actions),
        0 <= row <= before.entries.len(),
        forall|j: int| 0 <= j < row ==> (#[trigger] before.entries[j]).0 != id.0,
    ensures
        after.entries == before.entries,
        after.ranking == before.ranking,
        after.search == before.search,
        row < before.entries.len() && before.entries[row].0 == id.0 ==> {
            let desktop = before.entries[row].1.desktop;
            &&& actions == seq![
                LauncherAction::WriteHistory,
                LauncherAction::Launch(desktop),
                LauncherAction::Finish,
            ]
            &&& after.bias == all_decayed(launched(before.bias, path_key(desktop.path@), now))
        },
        row == before.entries.len() ==> after == before && actions.len() == 0,
{
    let p = has_key::<usize, LauncherEntry>(id.0);
    lemma_first(before.entries, p);
    if row < before.entries.len() && before.entries[row].0 == id.0 {
        lemma_first_exists(before.entries, p, row);
    }
}

/// A new entry can be searched by its name, and has a row, which is shown. The row has the icon
/// that was loaded under the name of its icon; where none was tried yet, it is to be loaded.
pub proof fn law_new_entry_can_be_found(
    before: LauncherView,
    id: EntryId,
    entry: Arc<DesktopEntry>,
    icons: Map<Seq<char>, RenderedIcon>,
    now: i128,
    after: LauncherView,
    actions: Seq<LauncherAction>,
)
    requires
        before.handles(Message::NewEntry(id, entry), icons, now, after, actions),
        forall|j: int| 0 <= j < before.entries.len() ==> (#[trigger] before.entries[j]).0 != id.0,
    ensures
        after.search.items == before.search.items.push(
            (SearchEntry { for_id: id, text: entry.name }, seq![entry.name@]),
        ),
        after.search.found == before.search.found,
        after.search.queries == before.search.queries,
        after.bias == before.bias,
        after.ranking == before.ranking,
        after.entries.len() == before.entries.len() + 1,
        after.entries.drop_last() == before.entries,
        ({
            let (key, row) = after.entries.last();
            &&& key == id.0
            &&& row.id == id
            &&& row.shown
            &&& row.score == 0
            &&& row.desktop == entry
            &&& match entry.icon {
                None => row.icon is None && actions.len() == 0,
                Some(icon) => if icons.dom().contains(icon@) {
                    &&& actions.len() == 0
                    &&& match icons[icon@] {
                        RenderedIcon::Loaded(image) => row.icon == Some(image),
                        _ => row.icon is None,
                    }
                } else {
                    row.icon is None && actions == seq![LauncherAction::LoadIcon { id, icon }]
                },
            }
        }),
{
    let p = has_key::<usize, LauncherEntry>(id.0);
    lemma_first(before.entries, p);
    assert(after.entries.drop_last() =~= before.entries);
}

/// An icon for an entry that has no row changes nothing.
pub proof fn law_icon_without_a_row_is_dropped(
    before: LauncherView,
    id: EntryId,
    icon: StaticImage,
    icons: Map<Seq<char>, RenderedIcon>,
    now: i128,
    after: LauncherView,
    actions: Seq<LauncherAction>,
)
    requires
        before.handles(Message::UpdateIcon(id, icon), icons, now, after, actions),
        forall|j: int| 0 <= j < before.entries.len() ==> (#[trigger] before.entries[j]).0 != id.0,
    ensures
        after == before,
        actions.len() == 0,
{
    lemma_first(before.entries, has_key::<usize, LauncherEntry>(id.0));
}

/// An icon is given to the row of its entry and to no other, and that row is reported.
pub proof fn law_icon_is_given_to_its_row(
    before: LauncherView,
    id: EntryId,
    icon: StaticImage,
    icons: Map<Seq<char>, RenderedIcon>,
    now: i128,
    after: LauncherView,
    actions: Seq<LauncherAction>,
    row: int,
    other: int,
)
    requires
        before.handles(Message::UpdateIcon(id, icon), icons, now, after, actions),
        0 <= row < before.entries.len(),
        before.entries[row].0 == id.0,
        forall|j: int| 0 <= j < row ==> (#[trigger] before.entries[j]).0 != id.0,
        0 <= other < before.entries.len(),
        row <= usize::MAX,
    ensures
        after.entries.len() == before.entries.len(),
        other != row ==> after.entries[other] == before.entries[other],
        after.entries[row].0 == id.0,
        after.entries[row].1.icon == Some(icon),
        after.entries[row].1.id == before.entries[row].1.id,
        after.entries[row].1.shown == before.entries[row].1.shown,
        after.entries[row].1.score == before.entries[row].1.score,
        after.entries[row].1.desktop == before.entries[row].1.desktop,
        after.search == before.search,
        after.bias == before.bias,
        after.ranking == before.ranking,
        actions == seq![LauncherAction::Notify(Notification::RowChanged(row as usize))],
{
    let p = has_key::<usize, LauncherEntry>(id.0);
    lemma_first(before.entries, p);
    lemma_first_exists(before.entries, p, row);
    assert(place_of(before.entries, id.0) == Some(row));
}

} // verus!
