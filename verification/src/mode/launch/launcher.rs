//! The launcher itself.

use crate::fuzzy_search::{
    FuzzySearch, Row, SearchConfig, SearchStatus, SearchView, ITEM_LIMIT,
};
use crate::index_map::{has_key, place_of, with_value};
use crate::mode::launch::command::texts;
use crate::mode::launch::entry::{DesktopEntry, StaticImage};
use crate::mode::launch::history::{
    all_decayed, is_time, launched, now, score_in, LaunchHistory, Statistic,
};
use crate::mode::launch::icons::{copy_image, Icons, RenderedIcon};
use crate::paths::{copy_path, path_key, PathKey};
use crate::sequences::{first, position};
use crate::single::Single;
use crate::ui::index_model::{IndexModel, Notification};
use std::sync::Arc;
use vstd::prelude::*;

verus! {

/// The number of an entry.
#[derive(Debug, Default, Clone, Copy, PartialEq, Eq, PartialOrd, Ord, Hash, Structural)]
pub struct EntryId(pub usize);

/// An entry as the launcher shows it.
pub struct LauncherEntry {
    pub id: EntryId,
    /// Whether the entry is shown.
    pub shown: bool,
    /// The score that the entry got from the search.
    pub score: u32,
    pub desktop: Arc<DesktopEntry>,
    pub icon: Option<StaticImage>,
}

/// What the launcher is told.
pub enum Message {
    QuerySet(String),
    Launch(EntryId),
    NewEntry(EntryId, Arc<DesktopEntry>),
    UpdateIcon(EntryId, StaticImage),
    SearchUpdated,
}

/// What is searched for an entry.
pub struct SearchEntry {
    pub for_id: EntryId,
    pub text: String,
}

impl Row<1> for SearchEntry {
    open spec fn column_texts(&self) -> Seq<Seq<char>> {
        seq![self.text@]
    }

    fn columns(&self) -> (res: [String; 1]) {
        let res = [self.text.clone()];
        assert(texts(res@) =~= seq![self.text@]);
        res
    }
}

/// A copy of an entry.
pub fn copy_entry(entry: &LauncherEntry) -> (res: LauncherEntry)
    ensures
        res == *entry,
{
    let icon = match &entry.icon {
        Some(image) => Some(copy_image(image)),
        None => None,
    };
    LauncherEntry {
        id: entry.id,
        shown: entry.shown,
        score: entry.score,
        desktop: entry.desktop.clone(),
        icon,
    }
}

/// What is to be done outside the launcher.
pub enum LauncherAction {
    /// This is what the matcher said of its search: there is nothing to be done.
    Searched(SearchStatus),
    /// Tell those who wait for results of the search that there are some.
    NotifySearch,
    /// Store the launch history.
    WriteHistory,
    /// Launch the application.
    Launch(Arc<DesktopEntry>),
    /// Ask for the launcher to be stopped.
    Finish,
    /// Load the icon, and send it with [`Message::UpdateIcon`] where there is one.
    LoadIcon { id: EntryId, icon: String },
    /// Tell the user interface of a change of the rows.
    Notify(Notification),
}

pub struct Launcher {
    entries: IndexModel,
    search: FuzzySearch<1>,
    bias: LaunchHistory,
    ranking: LaunchHistory,
}

/// What a [`Launcher`] holds.
#[verifier::ext_equal]
pub struct LauncherView {
    pub entries: Seq<(usize, LauncherEntry)>,
    pub search: SearchView,
    /// The history of launches.
    pub bias: Map<PathKey, Statistic>,
    /// The history that rows are ranked by: the one that the launcher started with.
    pub ranking: Map<PathKey, Statistic>,
}

impl View for Launcher {
    type V = LauncherView;

    closed spec fn view(&self) -> LauncherView {
        LauncherView {
            entries: self.entries@,
            search: self.search@,
            bias: self.bias@,
            ranking: self.ranking@,
        }
    }
}

/// The image of an icon that is cached; none where it failed, or was not tried yet.
pub open spec fn image_of(icons: Map<Seq<char>, RenderedIcon>, icon: Option<String>) -> Option<
    StaticImage,
> {
    if icon is Some && icons.dom().contains(icon->0@) && icons[icon->0@] is Loaded {
        Some(icons[icon->0@]->Loaded_0)
    } else {
        None
    }
}

/// The row of a new entry: it is shown, and was not found by a search yet.
pub open spec fn new_row(
    id: EntryId,
    entry: Arc<DesktopEntry>,
    icons: Map<Seq<char>, RenderedIcon>,
) -> LauncherEntry {
    LauncherEntry {
        id,
        shown: true,
        score: 0,
        desktop: entry,
        icon: image_of(icons, entry.icon),
    }
}

/// What is to be done for a new entry: its icon is loaded where it has one that was not tried yet.
pub open spec fn new_row_actions(
    id: EntryId,
    entry: Arc<DesktopEntry>,
    icons: Map<Seq<char>, RenderedIcon>,
) -> Seq<LauncherAction> {
    if entry.icon is Some && !icons.dom().contains(entry.icon->0@) {
        seq![LauncherAction::LoadIcon { id, icon: entry.icon->0 }]
    } else {
        Seq::empty()
    }
}

/// What is to be done for a query: those who wait for results are told where the matcher has
/// finished at once, with new matches.
pub open spec fn query_actions(status: SearchStatus) -> Seq<LauncherAction> {
    if !status.running && status.changed {
        seq![LauncherAction::Searched(status), LauncherAction::NotifySearch]
    } else {
        seq![LauncherAction::Searched(status)]
    }
}

/// What is to be done for results of the search: all rows may have changed.
pub open spec fn update_actions(status: SearchStatus) -> Seq<LauncherAction> {
    seq![LauncherAction::Searched(status), LauncherAction::Notify(Notification::Reset)]
}

pub open spec fn is_id(id: EntryId) -> spec_fn(EntryId) -> bool {
    |x: EntryId| x == id
}

/// A row after a search: it is shown where it was found, and the better its match, the higher its
/// score.
pub open spec fn ranked(row: (usize, LauncherEntry), found: Seq<EntryId>) -> (usize, LauncherEntry) {
    let place = first(found, is_id(EntryId(row.0)));
    (
        row.0,
        LauncherEntry {
            shown: place is Some,
            score: match place {
                Some(p) => (found.len() - p) as u32,
                None => 0,
            },
            ..row.1
        },
    )
}

/// The numbers of the entries that a search found.
pub open spec fn found_ids(search: SearchView) -> Seq<EntryId> {
    search.found.map_values(|e: SearchEntry| e.for_id)
}

impl Launcher {
    pub closed spec fn well_formed(&self) -> bool {
        self.search.well_formed() && self.bias.well_formed() && self.ranking.well_formed()
    }

    /// A launcher with the history that was stored, if there is one. `on_update` is called
    /// whenever there may be new results of a search.
    pub fn create<F: Fn() + Send + Sync + 'static>(
        stored: Option<LaunchHistory>,
        on_update: F,
    ) -> (res: Self)
        requires
            stored is Some ==> stored->0.well_formed(),
            call_requires(on_update, ()),
        ensures
            res.well_formed(),
            (res@.entries == Seq::<(usize, LauncherEntry)>::empty()),
            res@.bias == if stored is Some {
                stored->0@
            } else {
                Map::empty()
            },
            res@.ranking == res@.bias,
            (res@.search == SearchView {
                items: Seq::empty(),
                found: Seq::empty(),
                queries: seq![Seq::empty()],
                searched: seq![Seq::empty()],
                last_query: Seq::empty(),
                prefer_prefix: true,
            }),
    {
        let bias = match stored {
            Some(history) => history,
            None => LaunchHistory::default(),
        };
        let search = FuzzySearch::create_with_config(
            SearchConfig { prefer_prefix: true },
            on_update,
        );
        assert(search@.queries =~= seq![Seq::empty()]);
        let ranking = bias.copy();
        Launcher { entries: IndexModel::default(), search, bias, ranking }
    }

    /// The history of launches, to be stored.
    pub fn history(&self) -> (res: &LaunchHistory)
        requires
            self.well_formed(),
        ensures
            res@ == self@.bias,
            res.well_formed(),
    {
        &self.bias
    }

    /// The number of entries, as far as the search counts them.
    pub fn entry_count(&self) -> (res: usize)
        requires
            self.well_formed(),
        ensures
            res == self@.search.items.len(),
    {
        self.search.len()
    }

    fn new_entry(
        &mut self,
        id: EntryId,
        entry: Arc<DesktopEntry>,
        icons: &Icons,
        actions: &mut Vec<LauncherAction>,
    )
        requires
            old(self).well_formed(),
            old(self)@.search.items.len() < ITEM_LIMIT,
        ensures
            final(self).well_formed(),
            final(self)@ == old(self)@.with_new_entry(id, entry, icons@),
            final(actions)@ == old(actions)@ + new_row_actions(id, entry, icons@),
    {
        let searched = SearchEntry { for_id: id, text: entry.name.clone() };
        self.search.push(searched);
        let icon = match &entry.icon {
            Some(icon) => {
                if icons.is_icon_cached(icon) {
                    icons.cached_icon(icon)
                } else {
                    actions.push(LauncherAction::LoadIcon { id, icon: icon.clone() });
                    None
                }
            },
            None => None,
        };
        let row = LauncherEntry { id, shown: true, score: 0, desktop: entry, icon };
        self.entries.insert(id.0, row);
    }

    /// Takes over what the search has found.
    fn search_updated(&mut self) -> (res: (SearchStatus, Notification))
        requires
            old(self).well_formed(),
        ensures
            final(self).well_formed(),
            res.1 == Notification::Reset,
            final(self)@.search.takes_over(old(self)@.search.found, res.0),
            final(self)@.entries == old(self)@.entries.map_values(
                |row: (usize, LauncherEntry)| ranked(row, found_ids(final(self)@.search)),
            ),
            final(self)@.bias == old(self)@.bias,
            final(self)@.ranking == old(self)@.ranking,
            final(self)@.search.items == old(self)@.search.items,
            final(self)@.search.queries == old(self)@.search.queries,
            final(self)@.search.last_query == old(self)@.search.last_query,
            final(self)@.search.prefer_prefix == old(self)@.search.prefer_prefix,
    {
        let ghost before = self@.entries;
        let status = self.search.tick();
        let found = self.search.get_matches();
        let mut matches: Vec<EntryId> = Vec::new();
        let mut i: usize = 0;
        while i < found.len()
            invariant
                i <= found.len(),
                found@ == self.search@.found.map_values(|e: SearchEntry| &e),
                matches@ == found_ids(self.search@).take(i as int),
            decreases found.len() - i,
        {
            matches.push(found[i].for_id);
            i += 1;
            assert(matches@ =~= found_ids(self.search@).take(i as int));
        }
        assert(matches@ =~= found_ids(self.search@));
        let ids = &matches;
        let rank = |row: usize, key: &usize, value: &LauncherEntry| -> (res: LauncherEntry) ensures (*key, res) == ranked((*key, *value), ids@), { rank_row(*key, value, ids) };
        let notification = self.entries.mutate_all(rank);
        assert(self@.entries =~= before.map_values(
            |row: (usize, LauncherEntry)| ranked(row, found_ids(self@.search)),
        ));
        (status, notification)
    }

    /// Starts a search for what was typed.
    fn query_set(&mut self, query: String, actions: &mut Vec<LauncherAction>)
        requires
            old(self).well_formed(),
        ensures
            final(self).well_formed(),
            exists|status: SearchStatus|
                final(actions)@ == old(actions)@ + #[trigger] query_actions(status) && old(
                    self,
                )@.searches(query, status, final(self)@),
    {
        proof {
            self.search.lemma_columns();
        }
        let outcome = self.search.search::<0>(query);
        assert(self@.search.queries =~= seq![query@]);
        actions.push(LauncherAction::Searched(outcome.status));
        if outcome.notify {
            actions.push(LauncherAction::NotifySearch);
        }
        assert(actions@ =~= old(actions)@ + query_actions(outcome.status));
    }

    /// Replaces the icon of an entry.
    fn update_icon(&mut self, id: EntryId, icon: StaticImage, actions: &mut Vec<LauncherAction>)
        requires
            old(self).well_formed(),
        ensures
            final(self).well_formed(),
            final(self)@ == old(self)@.with_icon(id, icon),
            final(actions)@ == old(actions)@ + old(self)@.icon_actions(id),
    {
        proof {
            crate::sequences::lemma_first(
                self@.entries,
                has_key::<usize, LauncherEntry>(id.0),
            );
        }
        let image = &icon;
        let change = |row: usize, key: &usize, value: &LauncherEntry| -> (res: (LauncherEntry, ())) ensures res.0 == (LauncherEntry { icon: Some(*image), ..*value }), { with_icon(value, image) };
        match self.entries.mutate_by_key(&id.0, change) {
            Some((_, notification)) => {
                actions.push(LauncherAction::Notify(notification));
            },
            None => {},
        }
    }

    /// Handles a message, at a given time. The icons are those that have been read up to then.
    pub fn on_message_at(
        &mut self,
        message: Message,
        icons: &Icons,
        now: i128,
    ) -> (res: Vec<LauncherAction>)
        requires
            old(self).well_formed(),
            message is NewEntry ==> old(self)@.search.items.len() < ITEM_LIMIT,
        ensures
            final(self).well_formed(),
            old(self)@.handles(message, icons@, now, final(self)@, res@),
    {
        let mut actions: Vec<LauncherAction> = Vec::new();
        match message {
            Message::QuerySet(query) => {
                self.query_set(query, &mut actions);
                let ghost status = choose|status: SearchStatus|
                    actions@ == Seq::empty() + #[trigger] query_actions(status) && old(
                        self,
                    )@.searches(query, status, self@);
                assert(actions@ =~= query_actions(status));
            },
            Message::Launch(id) => {
                if let Some(entry) = self.entries.get_value_of_key(&id.0) {
                    let path = copy_path(&entry.desktop.path);
                    self.bias.increment_and_decay_at(path, now);
                    actions.push(LauncherAction::WriteHistory);
                    actions.push(LauncherAction::Launch(entry.desktop));
                    actions.push(LauncherAction::Finish);
                }
                assert(actions.len() > 0 ==> actions@ =~= seq![
                    actions@[0],
                    actions@[1],
                    actions@[2],
                ]);
            },
            Message::NewEntry(id, entry) => {
                self.new_entry(id, entry, icons, &mut actions);
                assert(actions@ =~= new_row_actions(id, entry, icons@));
            },
            Message::UpdateIcon(id, icon) => {
                self.update_icon(id, icon, &mut actions);
                assert(actions@ =~= old(self)@.icon_actions(id));
            },
            Message::SearchUpdated => {
                let (status, notification) = self.search_updated();
                actions.push(LauncherAction::Searched(status));
                actions.push(LauncherAction::Notify(notification));
                assert(actions@ =~= update_actions(status));
            },
        }
        actions
    }

    /// Handles a message, now.
    pub fn on_message(&mut self, message: Message, icons: &Icons) -> (res: Vec<LauncherAction>)
        requires
            old(self).well_formed(),
            message is NewEntry ==> old(self)@.search.items.len() < ITEM_LIMIT,
        ensures
            final(self).well_formed(),
            exists|now: i128|
                is_time(now) && #[trigger] old(self)@.handles(
                    message,
                    icons@,
                    now,
                    final(self)@,
                    res@,
                ),
    {
        let t = now();
        self.on_message_at(message, icons, t)
    }
}

fn with_icon(entry: &LauncherEntry, icon: &StaticImage) -> (res: (LauncherEntry, ()))
    ensures
        res.0 == (LauncherEntry { icon: Some(*icon), ..*entry }),
{
    let mut changed = copy_entry(entry);
    changed.icon = Some(copy_image(icon));
    (changed, ())
}

fn rank_row(key: usize, value: &LauncherEntry, found: &Vec<EntryId>) -> (res: LauncherEntry)
    ensures
        (key, res) == ranked((key, *value), found@),
{
    let id = EntryId(key);
    let test = |x: &EntryId| -> (b: bool) ensures b == (*x == id), { *x == id };
    let place = position(found, test, Ghost(is_id(id)));
    let mut row = copy_entry(value);
    match place {
        Some(p) => {
            row.shown = true;
            row.score = #[verifier::truncate] ((found.len() - p) as u32);
        },
        None => {
            row.shown = false;
            row.score = 0;
        },
    }
    row
}

impl LauncherView {
    /// The launcher with another icon for an entry; nothing changes where there is no such entry.
    pub open spec fn with_icon(self, id: EntryId, icon: StaticImage) -> LauncherView {
        match place_of(self.entries, id.0) {
            Some(row) => LauncherView {
                entries: self.entries.update(
                    row,
                    (id.0, LauncherEntry { icon: Some(icon), ..self.entries[row].1 }),
                ),
                ..self
            },
            None => self,
        }
    }

    /// The row that shows another icon is reported.
    pub open spec fn icon_actions(self, id: EntryId) -> Seq<LauncherAction> {
        match place_of(self.entries, id.0) {
            Some(row) => seq![LauncherAction::Notify(Notification::RowChanged(row as usize))],
            None => Seq::empty(),
        }
    }

    /// A query leads from this state to `after`: it is searched for from now on, and `status` is
    /// what the matcher said.
    pub open spec fn searches(
        self,
        query: String,
        status: SearchStatus,
        after: LauncherView,
    ) -> bool {
        &&& after.entries == self.entries
        &&& after.bias == self.bias
        &&& after.ranking == self.ranking
        &&& self.search.searches(0, query@, status, after.search)
        &&& after.search.searched == seq![query@]
    }

    /// What a message does: it leads from this state to `after`, with `actions` to be done.
    pub open spec fn handles(
        self,
        message: Message,
        icons: Map<Seq<char>, RenderedIcon>,
        now: i128,
        after: LauncherView,
        actions: Seq<LauncherAction>,
    ) -> bool {
        match message {
            Message::QuerySet(query) => {
                exists|status: SearchStatus|
                    actions == #[trigger] query_actions(status) && self.searches(
                        query,
                        status,
                        after,
                    )
            },
            Message::Launch(id) => match place_of(self.entries, id.0) {
                Some(row) => {
                    let desktop = self.entries[row].1.desktop;
                    &&& after == LauncherView {
                        bias: all_decayed(launched(self.bias, path_key(desktop.path@), now)),
                        ..self
                    }
                    &&& actions == seq![
                        LauncherAction::WriteHistory,
                        LauncherAction::Launch(desktop),
                        LauncherAction::Finish,
                    ]
                },
                None => after == self && actions == Seq::<LauncherAction>::empty(),
            },
            Message::NewEntry(id, entry) => {
                &&& after == self.with_new_entry(id, entry, icons)
                &&& actions == new_row_actions(id, entry, icons)
            },
            Message::UpdateIcon(id, icon) => {
                &&& after == self.with_icon(id, icon)
                &&& actions == self.icon_actions(id)
            },
            Message::SearchUpdated => {
                &&& after.entries == self.entries.map_values(
                    |row: (usize, LauncherEntry)| ranked(row, found_ids(after.search)),
                )
                &&& after.bias == self.bias
                &&& after.ranking == self.ranking
                &&& after.search.items == self.search.items
                &&& after.search.queries == self.search.queries
                &&& after.search.last_query == self.search.last_query
                &&& after.search.prefer_prefix == self.search.prefer_prefix
                &&& exists|status: SearchStatus|
                    actions == #[trigger] update_actions(status) && after.search.takes_over(
                        self.search.found,
                        status,
                    )
            },
        }
    }

    /// The launcher with one more entry: it can be searched, and it has a row.
    pub open spec fn with_new_entry(
        self,
        id: EntryId,
        entry: Arc<DesktopEntry>,
        icons: Map<Seq<char>, RenderedIcon>,
    ) -> LauncherView {
        LauncherView {
            entries: with_value(self.entries, id.0, new_row(id, entry, icons)),
            search: SearchView {
                items: self.search.items.push(
                    (SearchEntry { for_id: id, text: entry.name }, seq![entry.name@]),
                ),
                ..self.search
            },
            ..self
        }
    }
}

/// What the order of rows goes by: the launch score of the entry, in the history that the launcher
/// started with, and then the score of the search.
pub open spec fn rank_of(view: LauncherView, now: i128, row: int) -> (int, u32) {
    (
        score_in(view.ranking, path_key(view.entries[row].1.desktop.path@), now),
        view.entries[row].1.score,
    )
}

/// Row `a` stands above row `b`. Of two rows with one rank, the one that came later stands above.
pub open spec fn stands_above(view: LauncherView, now: i128, a: int, b: int) -> bool {
    let x = rank_of(view, now, a);
    let y = rank_of(view, now, b);
    x.0 > y.0 || (x.0 == y.0 && (x.1 > y.1 || (x.1 == y.1 && a > b)))
}

/// The rows that are shown, from the top to the bottom.
pub open spec fn is_display_order(view: LauncherView, now: i128, order: Seq<usize>) -> bool {
    &&& forall|k: int|
        0 <= k < order.len() ==> (#[trigger] order[k]) < view.entries.len()
            && view.entries[order[k] as int].1.shown
    &&& forall|i: int|
        0 <= i < view.entries.len() && (#[trigger] view.entries[i]).1.shown ==> order.contains(
            i as usize,
        )
    &&& forall|j: int, k: int|
        0 <= j < k < order.len() ==> stands_above(
            view,
            now,
            (#[trigger] order[j]) as int,
            (#[trigger] order[k]) as int,
        )
}

/// An entry as the user interface takes it.
pub struct UiEntry {
    pub name: String,
    pub generic_name: String,
    pub description: String,
    pub icon: Option<StaticImage>,
    pub id: i32,
}

/// The text, or nothing.
pub open spec fn text_or_empty(text: Option<String>) -> Seq<char> {
    match text {
        Some(t) => t@,
        None => Seq::empty(),
    }
}

fn clone_or_empty(text: &Option<String>) -> (res: String)
    ensures
        res@ == text_or_empty(*text),
{
    match text {
        Some(t) => t.clone(),
        None => {
            let nothing = String::new();
            assert(nothing@ =~= Seq::empty());
            nothing
        },
    }
}

impl LauncherEntry {
    /// What the user interface shows of the entry.
    pub fn to_slint(&self) -> (res: UiEntry)
        ensures
            res.name@ == self.desktop.name@,
            res.generic_name@ == text_or_empty(self.desktop.generic_name),
            res.description@ == text_or_empty(self.desktop.description),
            res.icon == self.icon,
            res.id == self.id.0 as i32,
    {
        let icon = match &self.icon {
            Some(image) => Some(copy_image(image)),
            None => None,
        };
        UiEntry {
            name: self.desktop.name.clone(),
            generic_name: clone_or_empty(&self.desktop.generic_name),
            description: clone_or_empty(&self.desktop.description),
            icon,
            id: #[verifier::truncate] (self.id.0 as i32),
        }
    }
}

/// The message for an entry that was chosen in the user interface; a number below 0 stands for no
/// entry.
pub fn on_launch(id: i32) -> (res: Option<Message>)
    ensures
        res == if id < 0 {
            None
        } else {
            Some(Message::Launch(EntryId(id as usize)))
        },
{
    if id < 0 {
        None
    } else {
        Some(Message::Launch(EntryId(id as usize)))
    }
}

/// The message for a text that was typed.
pub fn on_search_edited(query: String) -> (res: Message)
    ensures
        res == Message::QuerySet(query),
{
    Message::QuerySet(query)
}

/// The ranks of rows, as they are placed.
spec fn is_placed(view: LauncherView, now: i128, placed: Seq<(Single, u32, usize)>, rows: int) -> bool {
    &&& forall|k: int|
        0 <= k < placed.len() ==> (#[trigger] placed[k]).2 < rows && view.entries[placed[k].2 as int].1.shown
            && placed[k].0.well_formed() && (placed[k].0@, placed[k].1) == rank_of(
            view,
            now,
            placed[k].2 as int,
        )
    &&& forall|i: int|
        0 <= i < rows && (#[trigger] view.entries[i]).1.shown ==> exists|k: int|
            0 <= k < placed.len() && (#[trigger] placed[k]).2 == i
    &&& forall|j: int, k: int|
        0 <= j < k < placed.len() ==> stands_above(
            view,
            now,
            (#[trigger] placed[j]).2 as int,
            (#[trigger] placed[k]).2 as int,
        )
}

/// A row that is put in between those above and those below it is placed.
proof fn lemma_place_row(
    view: LauncherView,
    now: i128,
    placed: Seq<(Single, u32, usize)>,
    row: int,
    rank: (Single, u32, usize),
    at: int,
)
    requires
        is_placed(view, now, placed, row),
        0 <= row < view.entries.len(),
        view.entries[row].1.shown,
        rank.2 == row,
        rank.0.well_formed(),
        (rank.0@, rank.1) == rank_of(view, now, row),
        0 <= at <= placed.len(),
        forall|k: int| 0 <= k < at ==> stands_above(view, now, (#[trigger] placed[k]).2 as int, row),
        forall|k: int|
            at <= k < placed.len() ==> stands_above(
                view,
                now,
                row,
                (#[trigger] placed[k]).2 as int,
            ),
    ensures
        is_placed(view, now, placed.insert(at, rank), row + 1),
{
    let after = placed.insert(at, rank);
    assert forall|i: int| 0 <= i < row + 1 && (#[trigger] view.entries[i]).1.shown implies exists|
        k: int,
    |
        0 <= k < after.len() && (#[trigger] after[k]).2 == i by {
        if i == row {
            assert(after[at].2 == i);
        } else {
            let k = choose|k: int| 0 <= k < placed.len() && (#[trigger] placed[k]).2 == i;
            if k < at {
                assert(after[k].2 == i);
            } else {
                assert(after[k + 1].2 == i);
            }
        }
    }
    assert forall|k: int| 0 <= k < after.len() implies (#[trigger] after[k]).2 < row + 1
        && view.entries[after[k].2 as int].1.shown && after[k].0.well_formed() && (
    after[k].0@, after[k].1) == rank_of(
        view,
        now,
        after[k].2 as int,
    ) by {
        if k < at {
            assert(after[k] == placed[k]);
        } else if k > at {
            assert(after[k] == placed[k - 1]);
        }
    }
    assert forall|j: int, k: int| 0 <= j < k < after.len() implies stands_above(
        view,
        now,
        (#[trigger] after[j]).2 as int,
        (#[trigger] after[k]).2 as int,
    ) by {
        let x = if j < at {
            j
        } else {
            j - 1
        };
        let y = if k < at {
            k
        } else {
            k - 1
        };
        if j != at {
            assert(after[j] == placed[x]);
        }
        if k != at {
            assert(after[k] == placed[y]);
        }
        if j != at && k != at {
            assert(stands_above(view, now, placed[x].2 as int, placed[y].2 as int));
        }
    }
}

impl Launcher {
    /// The rows that are shown at a given time, from the top to the bottom.
    pub fn display_order(&self, now: i128) -> (res: Vec<usize>)
        requires
            self.well_formed(),
        ensures
            is_display_order(self@, now, res@),
    {
        let mut placed: Vec<(Single, u32, usize)> = Vec::new();
        let count: usize = self.entries.row_count();
        let mut row: usize = 0;
        while row < count
            invariant
                self.well_formed(),
                count == self@.entries.len(),
                row <= count,
                is_placed(self@, now, placed@, row as int),
            decreases count - row,
        {
            if let Some(entry) = self.entries.row_data(row) {
                if entry.shown {
                    let bias = self.ranking.score_at(&entry.desktop.path, now);
                    let score: u32 = entry.score;
                    let mut at: usize = 0;
                    while at < placed.len() && (placed[at].0.exceeds(&bias) || (!bias.exceeds(
                        &placed[at].0,
                    ) && placed[at].1 > score))
                        invariant
                            at <= placed.len(),
                            is_placed(self@, now, placed@, row as int),
                            bias.well_formed(),
                            (bias@, score) == rank_of(self@, now, row as int),
                            forall|k: int|
                                0 <= k < at ==> stands_above(
                                    self@,
                                    now,
                                    (#[trigger] placed@[k]).2 as int,
                                    row as int,
                                ),
                        decreases placed.len() - at,
                    {
                        at += 1;
                    }
                    proof {
                        assert forall|k: int| at <= k < placed.len() implies stands_above(
                            self@,
                            now,
                            row as int,
                            (#[trigger] placed@[k]).2 as int,
                        ) by {
                            if at < k {
                                assert(stands_above(
                                    self@,
                                    now,
                                    placed@[at as int].2 as int,
                                    placed@[k].2 as int,
                                ));
                            }
                        }
                        lemma_place_row(
                            self@,
                            now,
                            placed@,
                            row as int,
                            (bias, score, row),
                            at as int,
                        );
                    }
                    placed.insert(at, (bias, score, row));
                }
            }
            row += 1;
        }
        let mut res: Vec<usize> = Vec::new();
        let mut k: usize = 0;
        while k < placed.len()
            invariant
                k <= placed.len(),
                res.len() == k,
                forall|j: int| 0 <= j < k ==> #[trigger] res@[j] == placed@[j].2,
            decreases placed.len() - k,
        {
            res.push(placed[k].2);
            k += 1;
        }
        proof {
            assert forall|i: int|
                0 <= i < self@.entries.len() && (
                #[trigger] self@.entries[i]).1.shown implies res@.contains(i as usize) by {
                let n = choose|n: int| 0 <= n < placed.len() && (#[trigger] placed@[n]).2 == i;
                assert(res@[n] == i);
            }
        }
        res
    }

    /// What the user interface shows at a given time, from the top to the bottom.
    pub fn displayed(&self, now: i128) -> (res: Vec<UiEntry>)
        requires
            self.well_formed(),
        ensures
            exists|order: Seq<usize>| #[trigger]
                is_display_order(self@, now, order) && shows(self@, order, res@),
    {
        let order = self.display_order(now);
        let mut res: Vec<UiEntry> = Vec::new();
        let mut k: usize = 0;
        while k < order.len()
            invariant
                k <= order.len(),
                is_display_order(self@, now, order@),
                res.len() == k,
                forall|j: int|
                    0 <= j < k ==> shows_entry(
                        #[trigger] res@[j],
                        self@.entries[order@[j] as int].1,
                    ),
            decreases order.len() - k,
        {
            assert(order@[k as int] < self@.entries.len());
            if let Some(entry) = self.entries.row_data(order[k]) {
                res.push(entry.to_slint());
            }
            k += 1;
        }
        assert(shows(self@, order@, res@));
        res
    }
}

/// What is shown is the entry.
pub open spec fn shows_entry(shown: UiEntry, entry: LauncherEntry) -> bool {
    &&& shown.name@ == entry.desktop.name@
    &&& shown.generic_name@ == text_or_empty(entry.desktop.generic_name)
    &&& shown.description@ == text_or_empty(entry.desktop.description)
    &&& shown.icon == entry.icon
    &&& shown.id == entry.id.0 as i32
}

/// What is shown are the rows in the given order.
pub open spec fn shows(view: LauncherView, order: Seq<usize>, shown: Seq<UiEntry>) -> bool {
    &&& shown.len() == order.len()
    &&& forall|k: int|
        0 <= k < order.len() ==> shows_entry(#[trigger] shown[k], view.entries[order[k] as int].1)
}

} // verus!
