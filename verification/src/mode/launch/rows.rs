//! A launcher that shows what its search finds, in the order of the matches, and gives entries a
//! bonus for how often they were launched.

use crate::binary32::{
    law_rounding_is_monotone, law_rounding_keeps_representable, lemma_spacing_bounds, round,
    rounded, spacing,
};
use crate::fuzzy_search::{
    FuzzySearch, Row, SearchConfig, SearchStatus, SearchView, ITEM_LIMIT,
};
use crate::mode::launch::command::texts;
use crate::mode::launch::icons::{is_absolute, IconStep, ICON_SCALE, ICON_SIZE};
use crate::mode::launch::launcher::{EntryId, SearchEntry};
use crate::paths::{path_key, same_key, PathKey};
use crate::text::characters;
use std::sync::Arc;
use vstd::prelude::*;

verus! {

/// The value of an entry in the history after one more launch: half of it, and half of 100, in
/// single precision.
pub open spec fn bumped(value: u32) -> nat {
    rounded(100 + rounded(value as nat)) / 2
}

/// The value of an entry in the history after another one was launched: nine tenths of it, in
/// single precision.
pub open spec fn decremented(value: u32) -> nat {
    rounded(rounded(value as nat) * 15099494) / 0x100_0000
}

/// How far rounding can move a number up.
proof fn lemma_rounded_up(n: nat)
    ensures
        rounded(n) * 0x80_0000 <= n * 0x80_0001,
        n < 0x100_0000 ==> rounded(n) == n,
{
    let u = spacing(n);
    lemma_spacing_bounds(n);
    let q = n / u;
    vstd::arithmetic::div_mod::lemma_fundamental_div_mod(n as int, u as int);
    vstd::arithmetic::div_mod::lemma_mod_bound(n as int, u as int);
    assert((q + 1) * u == q * u + u && u * q == q * u) by (nonlinear_arith);
    if n < 0x100_0000 {
        law_rounding_keeps_representable(n);
    }
}

pub fn bump_history_value(value: u32) -> (res: u32)
    ensures
        res == bumped(value),
{
    let v: u128 = round(value as u128);
    proof {
        lemma_rounded_up(value as nat);
        lemma_rounded_up(100 + rounded(value as nat));
    }
    let sum: u128 = round(100 + v);
    (sum / 2) as u32
}

pub fn decrement_history_value(value: u32) -> (res: u32)
    ensures
        res == decremented(value),
{
    let v: u128 = round(value as u128);
    proof {
        law_decrement_never_grows(value);
    }
    let product: u128 = round(v * 15099494);
    (product / 0x100_0000) as u32
}

/// A launch moves the value of an entry towards 100.
pub proof fn law_bump_moves_towards_hundred(value: u32)
    ensures
        value <= 100 ==> value <= bumped(value) <= 100,
        value >= 100 ==> bumped(value) >= 100,
        value > 100 ==> bumped(value) < value,
{
    lemma_rounded_up(value as nat);
    lemma_rounded_up(100 + rounded(value as nat));
    if value >= 100 {
        lemma_rounded_up(100);
        lemma_rounded_up(200);
        law_rounding_is_monotone(100, value as nat);
        law_rounding_is_monotone(200, 100 + rounded(value as nat));
    }
}

/// Neither a launch nor the launch of another entry changes the order of two values.
pub proof fn law_history_values_keep_their_order(less: u32, more: u32)
    requires
        less <= more,
    ensures
        bumped(less) <= bumped(more),
        decremented(less) <= decremented(more),
{
    law_rounding_is_monotone(less as nat, more as nat);
    let a = rounded(less as nat);
    let b = rounded(more as nat);
    law_rounding_is_monotone(100 + a, 100 + b);
    law_rounding_is_monotone(a * 15099494, b * 15099494);
}

/// The launch of another entry never raises the value of an entry.
pub proof fn law_decrement_never_grows(value: u32)
    ensures
        decremented(value) <= value,
{
    let v = rounded(value as nat);
    let m = v * 15099494;
    lemma_rounded_up(value as nat);
    lemma_rounded_up(m);
}

/// An entry of the launcher.
pub struct LaunchEntry {
    pub name: String,
    pub path: Vec<u8>,
    pub command_line: String,
    pub icon: Option<String>,
}

/// An entry that is shared by the search and the user interface, with its bonus.
pub struct SearchRow {
    pub entry: Arc<LaunchEntry>,
    pub bonus_score: u32,
}

impl SearchRow {
    /// The same row once more.
    pub fn share(&self) -> (res: SearchRow)
        ensures
            res == *self,
    {
        SearchRow { entry: self.entry.clone(), bonus_score: self.bonus_score }
    }
}

impl Row<1> for SearchRow {
    open spec fn column_texts(&self) -> Seq<Seq<char>> {
        seq![self.entry.name@]
    }

    fn columns(&self) -> (res: [String; 1]) {
        let res = [self.entry.name.clone()];
        assert(texts(res@) =~= seq![self.entry.name@]);
        res
    }
}

/// The same rows once more.
pub fn copy_desktop_entry_cache(rows: &Vec<SearchRow>) -> (res: Vec<SearchRow>)
    ensures
        res@ == rows@,
{
    let mut res: Vec<SearchRow> = Vec::new();
    let mut i: usize = 0;
    while i < rows.len()
        invariant
            i <= rows.len(),
            res@ == rows@.take(i as int),
        decreases rows.len() - i,
    {
        res.push(rows[i].share());
        i += 1;
        assert(res@ =~= rows@.take(i as int));
    }
    assert(rows@.take(i as int) == rows@);
    res
}

/// The values of entries that were launched, by their paths.
pub struct LauncherEntryBiasState {
    pub history: Vec<(Vec<u8>, u32)>,
}

pub open spec fn is_path(path: PathKey) -> spec_fn((Vec<u8>, u32)) -> bool {
    |e: (Vec<u8>, u32)| path_key(e.0@) == path
}

/// The value of a path; 0 where there is none.
pub open spec fn value_of(history: Seq<(Vec<u8>, u32)>, path: PathKey) -> u32 {
    match crate::sequences::first(history, is_path(path)) {
        Some(i) => history[i].1,
        None => 0,
    }
}

impl LauncherEntryBiasState {
    pub fn value(&self, path: &Vec<u8>) -> (res: u32)
        ensures
            res == value_of(self.history@, path_key(path@)),
    {
        let test = |e: &(Vec<u8>, u32)| -> (b: bool) ensures b == (path_key(e.0@) == path_key(path@)), { same_key(&e.0, path) };
        match crate::sequences::position(&self.history, test, Ghost(is_path(path_key(path@)))) {
            Some(i) => self.history[i].1,
            None => 0,
        }
    }
}

/// The row that is made of a desktop entry.
pub open spec fn row_of(
    found: crate::xdg::desktop_entry::DesktopEntry,
    history: Seq<(Vec<u8>, u32)>,
) -> SearchRow {
    SearchRow {
        entry: Arc::new(
            LaunchEntry {
                name: found.name,
                path: found.source_path,
                command_line: found.command_line->0,
                icon: found.icon,
            },
        ),
        bonus_score: value_of(history, path_key(found.source_path@)),
    }
}

/// One of the rows has the path.
pub open spec fn has_row(rows: Seq<SearchRow>, path: PathKey) -> bool {
    exists|i: int| 0 <= i < rows.len() && path_key((#[trigger] rows[i]).entry.path@) == path
}

/// The rows after a search: what was found, can be launched and is not there yet comes last.
pub open spec fn rows_after(
    rows: Seq<SearchRow>,
    found: Seq<crate::xdg::desktop_entry::DesktopEntry>,
    history: Seq<(Vec<u8>, u32)>,
) -> Seq<SearchRow>
    decreases found.len(),
{
    if found.len() == 0 {
        rows
    } else {
        let before = rows_after(rows, found.drop_last(), history);
        let last = found.last();
        if crate::mode::launch::entry::is_launchable(last) && !has_row(
            before,
            path_key(last.source_path@),
        ) {
            before.push(row_of(last, history))
        } else {
            before
        }
    }
}

fn rows_have(rows: &Vec<SearchRow>, path: &Vec<u8>) -> (res: bool)
    ensures
        res == has_row(rows@, path_key(path@)),
{
    let mut i: usize = 0;
    while i < rows.len()
        invariant
            i <= rows.len(),
            forall|j: int| 0 <= j < i ==> path_key((#[trigger] rows@[j]).entry.path@) != path_key(path@),
        decreases rows.len() - i,
    {
        if same_key(&rows[i].entry.path, path) {
            assert(path_key(rows@[i as int].entry.path@) == path_key(path@));
            return true;
        }
        i += 1;
    }
    false
}

/// Takes over the desktop entries that a search found. The rows that were there stay first; what
/// comes after them is new.
pub fn scour_desktop_entries(
    rows: &mut Vec<SearchRow>,
    found: Vec<crate::xdg::desktop_entry::DesktopEntry>,
    bias: &LauncherEntryBiasState,
)
    ensures
        final(rows)@ == rows_after(old(rows)@, found@, bias.history@),
{
    let ghost all = found@;
    for f in it: found
        invariant
            it.seq() == all,
            rows@ == rows_after(old(rows)@, all.take(it.index() as int), bias.history@),
    {
        let ghost n = it.index() as int;
        proof {
            assert(f == all[n]);
            assert(all.take(n + 1).drop_last() == all.take(n));
        }
        let hidden = match f.no_display {
            Some(no_display) => no_display,
            None => false,
        };
        if f.command_line.is_some() && !hidden && !rows_have(rows, &f.source_path) {
            let bonus_score: u32 = bias.value(&f.source_path);
            if let Some(command_line) = f.command_line {
                let entry = LaunchEntry {
                    name: f.name,
                    path: f.source_path,
                    command_line,
                    icon: f.icon,
                };
                rows.push(SearchRow { entry: Arc::new(entry), bonus_score });
            }
        }
    }
    assert(all.take(all.len() as int) == all);
}

/// No path occurs twice among the rows.
pub open spec fn distinct_rows(rows: Seq<SearchRow>) -> bool {
    forall|i: int, j: int|
        0 <= i < j < rows.len() ==> path_key((#[trigger] rows[i]).entry.path@) != path_key(
            (#[trigger] rows[j]).entry.path@,
        )
}

/// A search never drops or moves a row, and brings in no path twice.
pub proof fn law_rows_stay(
    rows: Seq<SearchRow>,
    found: Seq<crate::xdg::desktop_entry::DesktopEntry>,
    history: Seq<(Vec<u8>, u32)>,
)
    requires
        distinct_rows(rows),
    ensures
        rows.is_prefix_of(rows_after(rows, found, history)),
        distinct_rows(rows_after(rows, found, history)),
    decreases found.len(),
{
    if found.len() == 0 {
        assert(rows.subrange(0, rows.len() as int) == rows);
    } else {
        law_rows_stay(rows, found.drop_last(), history);
        let before = rows_after(rows, found.drop_last(), history);
        let after = rows_after(rows, found, history);
        assert(after.subrange(0, rows.len() as int) =~= before.subrange(0, rows.len() as int));
    }
}

/// The theme that icons are looked up in.
pub const ICON_THEME: &'static str = "Adwaita";

/// How the icon of an entry is found: a path to a file that is there is read, and anything else is
/// looked up by its name. An entry without an icon has none.
pub fn find_icon(icon: &Option<String>, present: bool) -> (res: IconStep)
    ensures
        res == match *icon {
            None => IconStep::Finished(None),
            Some(name) => if is_absolute(name@) && present {
                IconStep::Read(name)
            } else {
                IconStep::LookUp {
                    name,
                    size: ICON_SIZE,
                    scale: ICON_SCALE,
                    theme: Some(ICON_THEME),
                }
            },
        },
{
    match icon {
        None => IconStep::Finished(None),
        Some(name) => {
            let chars = characters(name.as_str());
            if chars.len() > 0 && chars[0] == '/' && present {
                IconStep::Read(name.clone())
            } else {
                IconStep::LookUp {
                    name: name.clone(),
                    size: ICON_SIZE,
                    scale: ICON_SCALE,
                    theme: Some(ICON_THEME),
                }
            }
        },
    }
}

/// What the launcher is told.
pub enum Message {
    QuerySet(String),
    Search,
    Launch(usize),
}

/// What is to be done outside the launcher.
pub enum RowAction {
    /// This is what the matcher said of its search: there is nothing to be done.
    Searched(SearchStatus),
    /// Tell those who wait for results of the search that there are some.
    NotifySearch,
    /// Show these rows, from the top to the bottom.
    Show(Vec<SearchRow>),
    Launch(Arc<LaunchEntry>),
    /// Ask for the launcher to be stopped.
    Finish,
}

/// What is to be done for a query: those who wait for results are told where the matcher has
/// finished at once, with new matches.
pub open spec fn query_actions(status: SearchStatus) -> Seq<RowAction> {
    if !status.running && status.changed {
        seq![RowAction::Searched(status), RowAction::NotifySearch]
    } else {
        seq![RowAction::Searched(status)]
    }
}

/// A launcher that shows rows in the order of their matches.
pub struct RowLauncher {
    rows: Vec<SearchRow>,
    search: FuzzySearch<1>,
}

/// What a [`RowLauncher`] holds.
#[verifier::ext_equal]
pub struct RowLauncherView {
    pub rows: Seq<SearchRow>,
    pub search: SearchView,
}

impl View for RowLauncher {
    type V = RowLauncherView;

    closed spec fn view(&self) -> RowLauncherView {
        RowLauncherView { rows: self.rows@, search: self.search@ }
    }
}

impl RowLauncherView {
    /// The row of a match.
    pub open spec fn found_row(self, i: int) -> SearchRow {
        self.rows[self.search.found[i].for_id.0 as int]
    }

    /// The rows of all matches, best match first.
    pub open spec fn found_rows(self) -> Seq<SearchRow> {
        Seq::new(self.search.found.len(), |i: int| self.found_row(i))
    }

    /// A query leads from this state to `after`: it is searched for from now on, and `status` is
    /// what the matcher said.
    pub open spec fn searches(
        self,
        query: String,
        status: SearchStatus,
        after: RowLauncherView,
    ) -> bool {
        &&& self.search.searches(0, query@, status, after.search)
        &&& after.search.searched == seq![query@]
    }
}

impl RowLauncher {
    /// Every row can be searched under its place.
    pub closed spec fn well_formed(&self) -> bool {
        &&& self.search.well_formed()
        &&& self.search@.items.len() == self.rows@.len()
        &&& forall|i: int|
            0 <= i < self.search@.items.len() ==> (#[trigger] self.search@.items[i]).0.for_id
                == EntryId(i as usize)
    }

    pub fn create<F: Fn() + Send + Sync + 'static>(on_update: F) -> (res: Self)
        requires
            call_requires(on_update, ()),
        ensures
            res.well_formed(),
            res@.rows == Seq::<SearchRow>::empty(),
            (res@.search == SearchView {
                items: Seq::empty(),
                found: Seq::empty(),
                queries: seq![Seq::empty()],
                searched: seq![Seq::empty()],
                last_query: Seq::empty(),
                prefer_prefix: true,
            }),
    {
        let search = FuzzySearch::create_with_config(
            SearchConfig { prefer_prefix: true },
            on_update,
        );
        assert(search@.queries =~= seq![Seq::empty()]);
        RowLauncher { rows: Vec::new(), search }
    }

    pub fn row_count(&self) -> (res: usize)
        ensures
            res == self@.rows.len(),
    {
        self.rows.len()
    }

    /// Adds a row.
    pub fn push(&mut self, row: SearchRow)
        requires
            old(self).well_formed(),
            old(self)@.rows.len() < ITEM_LIMIT,
        ensures
            final(self).well_formed(),
            final(self)@.rows == old(self)@.rows.push(row),
            (final(self)@.search == SearchView {
                items: old(self)@.search.items.push(
                    (
                        SearchEntry {
                            for_id: EntryId(old(self)@.rows.len() as usize),
                            text: row.entry.name,
                        },
                        seq![row.entry.name@],
                    ),
                ),
                ..old(self)@.search
            }),
    {
        let for_id = EntryId(self.rows.len());
        let text = row.entry.name.clone();
        self.search.push(SearchEntry { for_id, text });
        self.rows.push(row);
    }

    /// A match stands for a row.
    proof fn lemma_found(&self, i: int)
        requires
            self.well_formed(),
            0 <= i < self@.search.found.len(),
        ensures
            (self@.search.found[i].for_id.0 as int) < self@.rows.len(),
    {
        crate::fuzzy_search::law_found_entries_were_added(&self.search, i);
        let items = self.search@.items;
        let j = choose|j: int|
            0 <= j < items.len() && (#[trigger] items[j]).0 == self.search@.found[i];
        assert(items[j].0.for_id == EntryId(j as usize));
    }

    /// Handles a message.
    pub fn on_message(&mut self, message: Message) -> (res: Vec<RowAction>)
        requires
            old(self).well_formed(),
        ensures
            final(self).well_formed(),
            final(self)@.rows == old(self)@.rows,
            final(self)@.search.items == old(self)@.search.items,
            final(self)@.search.prefer_prefix == old(self)@.search.prefer_prefix,
            match message {
                Message::QuerySet(query) => {
                    exists|status: SearchStatus|
                        res@ == #[trigger] query_actions(status) && old(self)@.searches(
                            query,
                            status,
                            final(self)@,
                        )
                },
                Message::Search => {
                    &&& final(self)@.search.queries == old(self)@.search.queries
                    &&& final(self)@.search.last_query == old(self)@.search.last_query
                    &&& res@.len() == 2
                    &&& res@[0] matches RowAction::Searched(status)
                        && final(self)@.search.takes_over(old(self)@.search.found, status)
                    &&& res@[1] matches RowAction::Show(rows) && rows@ == final(self)@.found_rows()
                },
                Message::Launch(index) => {
                    &&& final(self)@ == old(self)@
                    &&& res@ == if index < old(self)@.search.found.len() {
                        seq![
                            RowAction::Launch(old(self)@.found_row(index as int).entry),
                            RowAction::Finish,
                        ]
                    } else {
                        Seq::<RowAction>::empty()
                    }
                },
            },
    {
        let mut actions: Vec<RowAction> = Vec::new();
        match message {
            Message::QuerySet(query) => {
                proof {
                    self.search.lemma_columns();
                }
                let outcome = self.search.search::<0>(query);
                assert(self@.search.queries =~= seq![query@]);
                actions.push(RowAction::Searched(outcome.status));
                if outcome.notify {
                    actions.push(RowAction::NotifySearch);
                }
                assert(actions@ =~= query_actions(outcome.status));
            },
            Message::Search => {
                let status = self.search.tick();
                actions.push(RowAction::Searched(status));
                let rows = self.found();
                actions.push(RowAction::Show(rows));
            },
            Message::Launch(index) => {
                let found = self.search.get_matches();
                if index < found.len() {
                    proof {
                        self.lemma_found(index as int);
                    }
                    let row = &self.rows[found[index].for_id.0];
                    actions.push(RowAction::Launch(row.entry.clone()));
                    actions.push(RowAction::Finish);
                    assert(actions@ =~= seq![actions@[0], actions@[1]]);
                }
            },
        }
        actions
    }

    fn found(&self) -> (res: Vec<SearchRow>)
        requires
            self.well_formed(),
        ensures
            res@ == self@.found_rows(),
    {
        let found = self.search.get_matches();
        let mut rows: Vec<SearchRow> = Vec::new();
        let mut i: usize = 0;
        while i < found.len()
            invariant
                self.well_formed(),
                i <= found.len(),
                found@ == self@.search.found.map_values(|e: SearchEntry| &e),
                rows@ == self@.found_rows().take(i as int),
            decreases found.len() - i,
        {
            proof {
                self.lemma_found(i as int);
            }
            rows.push(self.rows[found[i].for_id.0].share());
            i += 1;
            assert(rows@ =~= self@.found_rows().take(i as int));
        }
        assert(self@.found_rows().take(i as int) =~= self@.found_rows());
        rows
    }
}

} // verus!
