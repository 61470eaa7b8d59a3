//! A list of rows that can also be found by a key.

use crate::index_map::{place_of, with_value};
use crate::mode::launch::launcher::{copy_entry, LauncherEntry};
use indexmap::IndexMap;
use std::hash::RandomState;
use vstd::prelude::*;

verus! {

/// The pairs that a map of numbers to rows holds, in order.
pub uninterp spec fn rows(map: IndexMap<usize, LauncherEntry, RandomState>) -> Seq<
    (usize, LauncherEntry),
>;

/// `IndexMap::new`: a map that holds nothing.
#[verifier::external_body]
fn new_map() -> (res: IndexMap<usize, LauncherEntry, RandomState>)
    ensures
        (rows(res) == Seq::<(usize, LauncherEntry)>::empty()),
{
    IndexMap::new()
}

/// `IndexMap::len`: the number of pairs.
#[verifier::external_body]
fn map_len(map: &IndexMap<usize, LauncherEntry, RandomState>) -> (res: usize)
    ensures
        res == rows(*map).len(),
{
    map.len()
}

/// `IndexMap::get_index`: the pair at a place.
#[verifier::external_body]
fn map_at(map: &IndexMap<usize, LauncherEntry, RandomState>, index: usize) -> (res: Option<
    (&usize, &LauncherEntry),
>)
    ensures
        res is Some == (index < rows(*map).len()),
        res is Some ==> (*(res->0).0, *(res->0).1) == rows(*map)[index as int],
{
    map.get_index(index)
}

/// `IndexMap::get_index_of`: the place of a key, if the key is there.
#[verifier::external_body]
fn map_place(map: &IndexMap<usize, LauncherEntry, RandomState>, key: usize) -> (res: Option<usize>)
    ensures
        res is Some == place_of(rows(*map), key) is Some,
        res is Some ==> res->0 == place_of(rows(*map), key)->0,
{
    map.get_index_of(&key)
}

/// `IndexMap::insert`: a key that is there keeps its place and gets the value, a new one comes
/// last.
#[verifier::external_body]
fn map_insert(
    map: &mut IndexMap<usize, LauncherEntry, RandomState>,
    key: usize,
    value: LauncherEntry,
)
    ensures
        rows(*final(map)) == with_value(rows(*old(map)), key, value),
{
    map.insert(key, value);
}

/// Assignment to `map[index]`: the pair at the place keeps its key and gets the value.
#[verifier::external_body]
fn map_set(
    map: &mut IndexMap<usize, LauncherEntry, RandomState>,
    index: usize,
    value: LauncherEntry,
)
    requires
        index < rows(*old(map)).len(),
    ensures
        rows(*final(map)) == rows(*old(map)).update(
            index as int,
            (rows(*old(map))[index as int].0, value),
        ),
{
    map[index] = value;
}

/// What those who show the rows are told of a change.
#[derive(Debug, Clone, Copy, PartialEq, Eq, Structural)]
pub enum Notification {
    RowChanged(usize),
    Reset,
}

/// The entries of the launcher, in the order in which they came, and by their numbers.
pub struct IndexModel {
    map: IndexMap<usize, LauncherEntry, RandomState>,
}

impl View for IndexModel {
    type V = Seq<(usize, LauncherEntry)>;

    closed spec fn view(&self) -> Seq<(usize, LauncherEntry)> {
        rows(self.map)
    }
}

impl Default for IndexModel {
    fn default() -> (res: Self)
        ensures
            (res@ == Seq::<(usize, LauncherEntry)>::empty()),
    {
        IndexModel { map: new_map() }
    }
}

impl IndexModel {
    /// Replaces the value of a row by what `fun` makes of it.
    pub fn mutate_row<R>(
        &mut self,
        row: usize,
        fun: impl FnOnce(&usize, &LauncherEntry) -> (LauncherEntry, R),
    ) -> (res: Option<(R, Notification)>)
        requires
            row < old(self)@.len() ==> call_requires(
                fun,
                (&old(self)@[row as int].0, &old(self)@[row as int].1),
            ),
        ensures
            res is Some == (row < old(self)@.len()),
            res is Some ==> {
                let (key, value) = old(self)@[row as int];
                &&& call_ensures(fun, (&key, &value), (final(self)@[row as int].1, (res->0).0))
                &&& final(self)@ == old(self)@.update(
                    row as int,
                    (key, final(self)@[row as int].1),
                )
                &&& (res->0).1 == Notification::RowChanged(row)
            },
            res is None ==> final(self)@ == old(self)@,
    {
        let changed = match map_at(&self.map, row) {
            Some((key, value)) => Some(fun(key, value)),
            None => None,
        };
        match changed {
            Some((value, result)) => {
                map_set(&mut self.map, row, value);
                Some((result, Notification::RowChanged(row)))
            },
            None => None,
        }
    }

    /// Replaces the value of every row, in order, by what `fun` makes of it.
    pub fn mutate_all(
        &mut self,
        fun: impl Fn(usize, &usize, &LauncherEntry) -> LauncherEntry,
    ) -> (res: Notification)
        requires
            forall|i: usize, key: &usize, value: &LauncherEntry|
                call_requires(fun, (i, key, value)),
        ensures
            res == Notification::Reset,
            final(self)@.len() == old(self)@.len(),
            forall|i: int|
                0 <= i < old(self)@.len() ==> (#[trigger] final(self)@[i]).0 == old(self)@[i].0
                    && call_ensures(
                    fun,
                    (i as usize, &old(self)@[i].0, &old(self)@[i].1),
                    final(self)@[i].1,
                ),
    {
        let ghost before = self@;
        let len: usize = map_len(&self.map);
        let mut row: usize = 0;
        while row < len
            invariant
                len == before.len(),
                row <= len,
                self@.len() == before.len(),
                forall|i: usize, key: &usize, value: &LauncherEntry|
                    call_requires(fun, (i, key, value)),
                forall|i: int|
                    0 <= i < row ==> (#[trigger] self@[i]).0 == before[i].0 && call_ensures(
                        fun,
                        (i as usize, &before[i].0, &before[i].1),
                        self@[i].1,
                    ),
                forall|i: int| row <= i < before.len() ==> #[trigger] self@[i] == before[i],
            decreases len - row,
        {
            let changed = match map_at(&self.map, row) {
                Some((key, value)) => Some(fun(row, key, value)),
                None => None,
            };
            if let Some(value) = changed {
                map_set(&mut self.map, row, value);
            }
            row += 1;
        }
        Notification::Reset
    }

    /// Replaces the value of a key by what `fun` makes of it.
    pub fn mutate_by_key<R>(
        &mut self,
        key: &usize,
        fun: impl FnOnce(usize, &usize, &LauncherEntry) -> (LauncherEntry, R),
    ) -> (res: Option<(R, Notification)>)
        requires
            place_of(old(self)@, *key) matches Some(row) ==> call_requires(
                fun,
                (row as usize, &old(self)@[row].0, &old(self)@[row].1),
            ),
        ensures
            res is Some == place_of(old(self)@, *key) is Some,
            res is Some ==> {
                let row = place_of(old(self)@, *key)->0;
                let (k, value) = old(self)@[row];
                &&& call_ensures(
                    fun,
                    (row as usize, &k, &value),
                    (final(self)@[row].1, (res->0).0),
                )
                &&& final(self)@ == old(self)@.update(row, (k, final(self)@[row].1))
                &&& (res->0).1 == Notification::RowChanged(row as usize)
            },
            res is None ==> final(self)@ == old(self)@,
    {
        proof {
            crate::sequences::lemma_first(
                self@,
                crate::index_map::has_key::<usize, LauncherEntry>(*key),
            );
        }
        let row: usize = match map_place(&self.map, *key) {
            Some(row) => row,
            None => {
                return None;
            },
        };
        let changed = match map_at(&self.map, row) {
            Some((k, value)) => Some(fun(row, k, value)),
            None => None,
        };
        match changed {
            Some((value, result)) => {
                map_set(&mut self.map, row, value);
                Some((result, Notification::RowChanged(row)))
            },
            None => None,
        }
    }

    pub fn get_row_key(&self, row: usize) -> (res: Option<usize>)
        ensures
            res == if row < self@.len() {
                Some(self@[row as int].0)
            } else {
                None
            },
    {
        match map_at(&self.map, row) {
            Some((key, _)) => Some(*key),
            None => None,
        }
    }

    pub fn get_row_key_value(&self, row: usize) -> (res: Option<(usize, LauncherEntry)>)
        ensures
            res == if row < self@.len() {
                Some(self@[row as int])
            } else {
                None
            },
    {
        match map_at(&self.map, row) {
            Some((key, value)) => Some((*key, copy_entry(value))),
            None => None,
        }
    }

    /// Gives a value to a key: a key that is there keeps its row, a new one comes last.
    pub fn insert(&mut self, key: usize, value: LauncherEntry)
        ensures
            final(self)@ == with_value(old(self)@, key, value),
    {
        map_insert(&mut self.map, key, value);
    }

    pub fn get_row_of_key(&self, key: &usize) -> (res: Option<usize>)
        ensures
            res is Some == place_of(self@, *key) is Some,
            res is Some ==> res->0 == place_of(self@, *key)->0,
    {
        map_place(&self.map, *key)
    }

    pub fn get_value_of_key(&self, key: &usize) -> (res: Option<LauncherEntry>)
        ensures
            res == match place_of(self@, *key) {
                Some(row) => Some(self@[row].1),
                None => None,
            },
    {
        proof {
            crate::sequences::lemma_first(
                self@,
                crate::index_map::has_key::<usize, LauncherEntry>(*key),
            );
        }
        match map_place(&self.map, *key) {
            Some(row) => self.row_data(row),
            None => None,
        }
    }

    pub fn row_count(&self) -> (res: usize)
        ensures
            res == self@.len(),
    {
        map_len(&self.map)
    }

    pub fn row_data(&self, row: usize) -> (res: Option<LauncherEntry>)
        ensures
            res == if row < self@.len() {
                Some(self@[row as int].1)
            } else {
                None
            },
    {
        match map_at(&self.map, row) {
            Some((_, value)) => Some(copy_entry(value)),
            None => None,
        }
    }

    /// Replaces the value of a row.
    pub fn set_row_data(&mut self, row: usize, data: LauncherEntry)
        requires
            row < old(self)@.len(),
        ensures
            final(self)@ == old(self)@.update(row as int, (old(self)@[row as int].0, data)),
    {
        map_set(&mut self.map, row, data);
    }
}

} // verus!
