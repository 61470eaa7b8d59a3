//! Fuzzy search among the entries of the launcher.

use crate::mode::launch::command::texts;
use crate::mode::launch::launcher::SearchEntry;
use crate::text::characters;
use nucleo::Nucleo;
use vstd::prelude::*;

verus! {

/// `nucleo::Nucleo`, of which only its own functions see the inside.
#[verifier::external_type_specification]
#[verifier::external_body]
#[verifier::reject_recursive_types(T)]
pub struct ExNucleo<T: Sync + Send + 'static>(nucleo::Nucleo<T>);

/// How many items a matcher takes.
pub const ITEM_LIMIT: usize = 0xffff_ff00;

/// The items that a matcher was given, in order, with the texts of their columns.
pub uninterp spec fn given_items(matcher: Nucleo<SearchEntry>) -> Seq<
    (SearchEntry, Seq<Seq<char>>),
>;

/// The items that the snapshot of a matcher holds, best match first.
pub uninterp spec fn matched_items(matcher: Nucleo<SearchEntry>) -> Seq<SearchEntry>;

/// The text that a matcher searches for in each column.
pub uninterp spec fn pattern_texts(matcher: Nucleo<SearchEntry>) -> Seq<Seq<char>>;

/// The text that the worker of a matcher was last started with, for each column.
pub uninterp spec fn searched_texts(matcher: Nucleo<SearchEntry>) -> Seq<Seq<char>>;

/// The text that a matcher was handed last, whatever its column; nothing at first.
pub uninterp spec fn last_text(matcher: Nucleo<SearchEntry>) -> Seq<char>;

/// Whether a matcher ranks matches at the start of a text higher, as it was made to.
pub uninterp spec fn prefers_prefix(matcher: Nucleo<SearchEntry>) -> bool;

/// How a matcher ranks.
#[derive(Debug, Clone, Copy, PartialEq, Eq, Structural)]
pub struct SearchConfig {
    /// Whether a match at the start of a text ranks higher.
    pub prefer_prefix: bool,
}

/// What a matcher says of its state: whether the matches are new ones, and whether it still runs.
#[derive(Debug, Clone, Copy, PartialEq, Eq, Structural)]
pub struct SearchStatus {
    pub changed: bool,
    pub running: bool,
}

/// `Nucleo::new`: a matcher without items, that searches for nothing in each of the columns, and
/// ranks as it is told to. It calls `on_update` whenever there may be new results, from its own
/// threads and when an item is added, so that a call must always be in order; nothing is claimed
/// of when it does.
#[verifier::external_body]
fn new_matcher<F: Fn() + Send + Sync + 'static>(
    config: SearchConfig,
    on_update: F,
    columns: u32,
) -> (res: Nucleo<SearchEntry>)
    requires
        columns > 0,
        call_requires(on_update, ()),
    ensures
        (given_items(res) == Seq::<(SearchEntry, Seq<Seq<char>>)>::empty()),
        matched_items(res) == Seq::<SearchEntry>::empty(),
        pattern_texts(res) == Seq::new(columns as nat, |i: int| Seq::<char>::empty()),
        searched_texts(res) == pattern_texts(res),
        last_text(res) == Seq::<char>::empty(),
        prefers_prefix(res) == config.prefer_prefix,
{
    let mut matcher_config = nucleo::Config::DEFAULT;
    matcher_config.prefer_prefix = config.prefer_prefix;
    Nucleo::new(matcher_config, std::sync::Arc::new(on_update), None, columns)
}

/// `MultiPattern::reparse` on the pattern of a matcher, with smart case and without
/// normalization: the text of one column changes. `append` tells whether the text that was handed
/// to it before is a prefix of the new one. The worker takes over the text with the next tick.
#[verifier::external_body]
fn reparse(matcher: &mut Nucleo<SearchEntry>, column: usize, text: &str, append: bool)
    requires
        column < pattern_texts(*old(matcher)).len(),
        append == last_text(*old(matcher)).is_prefix_of(text@),
    ensures
        pattern_texts(*final(matcher)) == pattern_texts(*old(matcher)).update(
            column as int,
            text@,
        ),
        last_text(*final(matcher)) == text@,
        searched_texts(*final(matcher)) == searched_texts(*old(matcher)),
        given_items(*final(matcher)) == given_items(*old(matcher)),
        matched_items(*final(matcher)) == matched_items(*old(matcher)),
        prefers_prefix(*final(matcher)) == prefers_prefix(*old(matcher)),
{
    matcher.pattern.reparse(
        column,
        text,
        nucleo::pattern::CaseMatching::Smart,
        nucleo::pattern::Normalization::Never,
        append,
    );
}

/// `Nucleo::tick`, without waiting: the worker has then been started with the texts that the
/// matcher searches for. The snapshot may change, and does so only where the status
/// says so. What it then holds are items that the matcher was given. A matcher that no longer runs
/// has gone through all of its items, and where it searches for nothing its snapshot holds each of
/// them, in order. When it stops running rests on its threads, and which items match a text is not
/// said.
#[verifier::external_body]
fn tick_matcher(matcher: &mut Nucleo<SearchEntry>) -> (res: SearchStatus)
    ensures
        given_items(*final(matcher)) == given_items(*old(matcher)),
        pattern_texts(*final(matcher)) == pattern_texts(*old(matcher)),
        searched_texts(*final(matcher)) == pattern_texts(*final(matcher)),
        last_text(*final(matcher)) == last_text(*old(matcher)),
        !res.changed ==> matched_items(*final(matcher)) == matched_items(*old(matcher)),
        res.changed ==> all_given(matched_items(*final(matcher)), given_items(*final(matcher))),
        !res.running && no_query(pattern_texts(*final(matcher))) ==> matched_items(*final(matcher))
            == entries_of(given_items(*final(matcher))),
        prefers_prefix(*final(matcher)) == prefers_prefix(*old(matcher)),
{
    let status = matcher.tick(0);
    SearchStatus { changed: status.changed, running: status.running }
}

/// `Snapshot::matched_items` on all of the snapshot of a matcher.
#[verifier::external_body]
fn snapshot_items(matcher: &Nucleo<SearchEntry>) -> (res: Vec<&SearchEntry>)
    ensures
        res@ == matched_items(*matcher).map_values(|e: SearchEntry| &e),
{
    matcher.snapshot().matched_items(..).map(|item| item.data).collect()
}

/// `Injector::push`: one more item, after the others, with the texts of its columns.
#[verifier::external_body]
fn inject<const C: usize>(
    matcher: &mut Nucleo<SearchEntry>,
    entry: SearchEntry,
    columns: [String; C],
)
    requires
        pattern_texts(*old(matcher)).len() == C,
        given_items(*old(matcher)).len() < ITEM_LIMIT,
    ensures
        given_items(*final(matcher)) == given_items(*old(matcher)).push(
            (entry, texts(columns@)),
        ),
        matched_items(*final(matcher)) == matched_items(*old(matcher)),
        pattern_texts(*final(matcher)) == pattern_texts(*old(matcher)),
        searched_texts(*final(matcher)) == searched_texts(*old(matcher)),
        last_text(*final(matcher)) == last_text(*old(matcher)),
        prefers_prefix(*final(matcher)) == prefers_prefix(*old(matcher)),
{
    let mut filled = columns.map(nucleo::Utf32String::from);
    matcher.injector().push(entry, |_, slots| slots.swap_with_slice(&mut filled));
}

/// Each of the matches is one of the items.
pub open spec fn all_given(
    matches: Seq<SearchEntry>,
    items: Seq<(SearchEntry, Seq<Seq<char>>)>,
) -> bool {
    forall|i: int| 0 <= i < matches.len() ==> is_given(#[trigger] matches[i], items)
}

/// The entry is one of the items.
pub open spec fn is_given(
    entry: SearchEntry,
    items: Seq<(SearchEntry, Seq<Seq<char>>)>,
) -> bool {
    exists|j: int| 0 <= j < items.len() && (#[trigger] items[j]).0 == entry
}

/// Nothing is searched for, in any column.
pub open spec fn no_query(queries: Seq<Seq<char>>) -> bool {
    forall|i: int| 0 <= i < queries.len() ==> (#[trigger] queries[i]) == Seq::<char>::empty()
}

/// The entries of the items, in order.
pub open spec fn entries_of(items: Seq<(SearchEntry, Seq<Seq<char>>)>) -> Seq<SearchEntry> {
    items.map_values(|item: (SearchEntry, Seq<Seq<char>>)| item.0)
}

/// What can be searched: something with a text in each of `C` columns.
pub trait Row<const C: usize> {
    spec fn column_texts(&self) -> Seq<Seq<char>>;

    fn columns(&self) -> (res: [String; C])
        ensures
            texts(res@) == self.column_texts(),
    ;
}

/// A search in `C` columns.
pub struct FuzzySearch<const C: usize> {
    nucleo: Nucleo<SearchEntry>,
    query: String,
    count: usize,
}

/// What a [`FuzzySearch`] holds.
#[verifier::ext_equal]
pub struct SearchView {
    /// The entries that can be found, with the texts of their columns.
    pub items: Seq<(SearchEntry, Seq<Seq<char>>)>,
    /// The entries that are found, best match first.
    pub found: Seq<SearchEntry>,
    /// The query of each column.
    pub queries: Seq<Seq<char>>,
    /// The queries that are being searched for.
    pub searched: Seq<Seq<char>>,
    /// The query that was searched for last, in whatever column.
    pub last_query: Seq<char>,
    /// Whether matches at the start of a text rank higher.
    pub prefer_prefix: bool,
}

impl SearchView {
    /// A search for `query` in a column leads from this state to `after`, where the matcher says
    /// `status`.
    pub open spec fn searches(
        self,
        column: int,
        query: Seq<char>,
        status: SearchStatus,
        after: SearchView,
    ) -> bool {
        &&& after.queries == self.queries.update(column, query)
        &&& after.last_query == query
        &&& after.items == self.items
        &&& after.prefer_prefix == self.prefer_prefix
        &&& after.takes_over(self.found, status)
    }

    /// The matcher works on the queries, and says `status`: what is found are entries that were
    /// added. It is still what was found before where the matcher says that nothing changed; and
    /// where it has finished, and nothing is searched for, it is every entry, in order.
    pub open spec fn takes_over(self, before: Seq<SearchEntry>, status: SearchStatus) -> bool {
        &&& self.searched == self.queries
        &&& all_given(self.found, self.items)
        &&& !status.changed ==> self.found == before
        &&& !status.running && no_query(self.queries) ==> self.found == entries_of(self.items)
    }
}

impl<const C: usize> View for FuzzySearch<C> {
    type V = SearchView;

    closed spec fn view(&self) -> SearchView {
        SearchView {
            items: given_items(self.nucleo),
            found: matched_items(self.nucleo),
            queries: pattern_texts(self.nucleo),
            searched: searched_texts(self.nucleo),
            last_query: last_text(self.nucleo),
            prefer_prefix: prefers_prefix(self.nucleo),
        }
    }
}

fn starts_with(s: &String, prefix: &String) -> (res: bool)
    ensures
        res == prefix@.is_prefix_of(s@),
{
    let a = characters(s.as_str());
    let b = characters(prefix.as_str());
    if b.len() > a.len() {
        return false;
    }
    let mut i: usize = 0;
    while i < b.len()
        invariant
            i <= b.len() <= a.len(),
            a@ == s@,
            b@ == prefix@,
            forall|j: int| 0 <= j < i ==> a@[j] == b@[j],
        decreases b.len() - i,
    {
        if a[i] != b[i] {
            assert(a@.subrange(0, b@.len() as int)[i as int] != b@[i as int]);
            return false;
        }
        i += 1;
    }
    assert(b@ =~= a@.subrange(0, b@.len() as int));
    true
}

/// What a search gave: the status of the matcher, and whether those who wait for results are to
/// be notified at once.
#[derive(Debug, Clone, Copy, PartialEq, Eq, Structural)]
pub struct SearchOutcome {
    pub status: SearchStatus,
    pub notify: bool,
}

impl<const C: usize> FuzzySearch<C> {
    pub closed spec fn well_formed(&self) -> bool {
        &&& pattern_texts(self.nucleo).len() == C
        &&& self.query@ == last_text(self.nucleo)
        &&& self.count == given_items(self.nucleo).len()
        &&& all_given(matched_items(self.nucleo), given_items(self.nucleo))
    }

    /// There is one query for each column.
    pub proof fn lemma_columns(&self)
        requires
            self.well_formed(),
        ensures
            self@.queries.len() == C,
    {
    }

    /// A search without entries. `on_update` is called whenever there may be new results.
    pub fn create_with_config<F: Fn() + Send + Sync + 'static>(
        config: SearchConfig,
        on_update: F,
    ) -> (res: Self)
        requires
            0 < C <= u32::MAX,
            call_requires(on_update, ()),
        ensures
            res.well_formed(),
            (res@.items == Seq::<(SearchEntry, Seq<Seq<char>>)>::empty()),
            res@.found == Seq::<SearchEntry>::empty(),
            res@.queries == Seq::new(C as nat, |i: int| Seq::<char>::empty()),
            res@.searched == res@.queries,
            res@.last_query == Seq::<char>::empty(),
            res@.prefer_prefix == config.prefer_prefix,
    {
        let nucleo = new_matcher(config, on_update, C as u32);
        let query = String::new();
        assert(query@ =~= Seq::<char>::empty());
        FuzzySearch { nucleo, query, count: 0 }
    }

    /// Starts a new search in one column. Once a search for nothing is done, every entry is found,
    /// in the order in which they were added.
    pub fn search<const COL: usize>(&mut self, query: String) -> (res: SearchOutcome)
        requires
            old(self).well_formed(),
            COL < C,
        ensures
            final(self).well_formed(),
            old(self)@.searches(COL as int, query@, res.status, final(self)@),
            res.notify == (!res.status.running && res.status.changed),
    {
        let append = starts_with(&query, &self.query);
        reparse(&mut self.nucleo, COL, query.as_str(), append);
        self.query = query;
        let status = self.tick();
        SearchOutcome { status, notify: notifies(status) }
    }

    /// The entries that are found, best match first.
    pub fn get_matches(&self) -> (res: Vec<&SearchEntry>)
        ensures
            res@ == self@.found.map_values(|e: SearchEntry| &e),
    {
        snapshot_items(&self.nucleo)
    }

    /// Sets the matcher to work on the queries, and takes over the results that are there. Where nothing is searched for and the matcher is done,
    /// these are all the entries, in the order in which they were added.
    pub fn tick(&mut self) -> (res: SearchStatus)
        requires
            old(self).well_formed(),
        ensures
            final(self).well_formed(),
            final(self)@.queries == old(self)@.queries,
            final(self)@.last_query == old(self)@.last_query,
            final(self)@.items == old(self)@.items,
            final(self)@.prefer_prefix == old(self)@.prefer_prefix,
            final(self)@.takes_over(old(self)@.found, res),
    {
        tick_matcher(&mut self.nucleo)
    }

    /// How many entries can be found.
    pub fn len(&self) -> (res: usize)
        requires
            self.well_formed(),
        ensures
            res == self@.items.len(),
    {
        self.count
    }

    /// Adds an entry.
    pub fn push(&mut self, entry: SearchEntry) where SearchEntry: Row<C>
        requires
            old(self).well_formed(),
            old(self)@.items.len() < ITEM_LIMIT,
        ensures
            final(self).well_formed(),
            final(self)@.items == old(self)@.items.push(
                (entry, Row::<C>::column_texts(&entry)),
            ),
            final(self)@.found == old(self)@.found,
            final(self)@.queries == old(self)@.queries,
            final(self)@.searched == old(self)@.searched,
            final(self)@.last_query == old(self)@.last_query,
            final(self)@.prefer_prefix == old(self)@.prefer_prefix,
    {
        let ghost items = self@.items;
        let ghost found = self@.found;
        let columns = Row::<C>::columns(&entry);
        inject(&mut self.nucleo, entry, columns);
        self.count += 1;
        proof {
            let after = self@.items;
            assert forall|i: int| 0 <= i < found.len() implies is_given(
                #[trigger] found[i],
                after,
            ) by {
                let j = choose|j: int| 0 <= j < items.len() && (#[trigger] items[j]).0 == found[i];
                assert(after[j].0 == found[i]);
            }
        }
    }

    /// Adds entries, in order: the same as adding one after the other.
    pub fn push_all(&mut self, entries: Vec<SearchEntry>) where SearchEntry: Row<C>
        requires
            old(self).well_formed(),
            old(self)@.items.len() + entries@.len() <= ITEM_LIMIT,
        ensures
            final(self).well_formed(),
            final(self)@.items == old(self)@.items + entries@.map_values(
                |e: SearchEntry| (e, Row::<C>::column_texts(&e)),
            ),
            final(self)@.items == added_in_turn::<C>(old(self)@.items, entries@),
            final(self)@.found == old(self)@.found,
            final(self)@.queries == old(self)@.queries,
            final(self)@.searched == old(self)@.searched,
            final(self)@.last_query == old(self)@.last_query,
            final(self)@.prefer_prefix == old(self)@.prefer_prefix,
    {
        let ghost before = self@;
        let ghost all = entries@;
        let ghost item = |e: SearchEntry| (e, Row::<C>::column_texts(&e));
        assert(before.items + all.take(0).map_values(item) =~= before.items);
        for entry in it: entries
            invariant
                it.seq() == all,
                item == (|e: SearchEntry| (e, Row::<C>::column_texts(&e))),
                self.well_formed(),
                before.items.len() + all.len() <= ITEM_LIMIT,
                self@.items == before.items + all.take(it.index() as int).map_values(item),
                self@.found == before.found,
                self@.queries == before.queries,
                self@.searched == before.searched,
                self@.last_query == before.last_query,
                self@.prefer_prefix == before.prefer_prefix,
        {
            let ghost n = it.index() as int;
            assert(entry == all[n]);
            self.push(entry);
            assert(self@.items =~= before.items + all.take(n + 1).map_values(item));
        }
        assert(all.take(all.len() as int) == all);
        proof {
            law_entries_are_added_in_turn::<C>(before.items, all);
        }
    }
}

/// Whether results are there at once: the matcher has finished, and has new matches.
pub fn notifies(status: SearchStatus) -> (res: bool)
    ensures
        res == (!status.running && status.changed),
{
    !status.running && status.changed
}

/// The items after entries were added, one after the other.
pub open spec fn added_in_turn<const C: usize>(
    items: Seq<(SearchEntry, Seq<Seq<char>>)>,
    entries: Seq<SearchEntry>,
) -> Seq<(SearchEntry, Seq<Seq<char>>)> where SearchEntry: Row<C>
    decreases entries.len(),
{
    if entries.len() == 0 {
        items
    } else {
        let last = entries.last();
        added_in_turn::<C>(items, entries.drop_last()).push((last, Row::<C>::column_texts(&last)))
    }
}

/// Adding entries at once is the same as adding each of them once, in order: those that were
/// there stay first.
pub proof fn law_entries_are_added_in_turn<const C: usize>(
    items: Seq<(SearchEntry, Seq<Seq<char>>)>,
    entries: Seq<SearchEntry>,
) where SearchEntry: Row<C>
    ensures
        items + entries.map_values(|e: SearchEntry| (e, Row::<C>::column_texts(&e)))
            == added_in_turn::<C>(items, entries),
        items.is_prefix_of(added_in_turn::<C>(items, entries)),
        added_in_turn::<C>(items, entries).len() == items.len() + entries.len(),
    decreases entries.len(),
{
    let item = |e: SearchEntry| (e, Row::<C>::column_texts(&e));
    if entries.len() > 0 {
        law_entries_are_added_in_turn::<C>(items, entries.drop_last());
        assert(entries =~= entries.drop_last().push(entries.last()));
    }
    assert(items + entries.map_values(item) =~= added_in_turn::<C>(items, entries));
    assert(items =~= (items + entries.map_values(item)).subrange(0, items.len() as int));
}

/// Of two searches in one column, one after the other: the column is searched for the second query
/// from then on, and the others for what they were; the query that the next one is held against is
/// the second. What was found is left as it was where the matcher says that nothing changed, and
/// consists of entries that were added.
pub proof fn law_searches_follow_each_other(
    s: SearchView,
    column: int,
    first: Seq<char>,
    first_status: SearchStatus,
    between: SearchView,
    second: Seq<char>,
    second_status: SearchStatus,
    after: SearchView,
)
    requires
        0 <= column < s.queries.len(),
        s.searches(column, first, first_status, between),
        between.searches(column, second, second_status, after),
    ensures
        between.last_query == first,
        after.last_query == second,
        after.searched == s.queries.update(column, second),
        after.items == s.items,
        all_given(after.found, s.items),
        !first_status.changed && !second_status.changed ==> after.found == s.found,
{
    assert(s.queries.update(column, first).update(column, second) =~= s.queries.update(
        column,
        second,
    ));
}

/// Only entries that were added are ever found.
pub proof fn law_found_entries_were_added<const C: usize>(search: &FuzzySearch<C>, i: int)
    requires
        search.well_formed(),
        0 <= i < search@.found.len(),
    ensures
        is_given(search@.found[i], search@.items),
{
}

} // verus!
