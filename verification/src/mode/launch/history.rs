//! What was launched, how often and how long ago.

use crate::binary32::{
    law_rounding_is_monotone, law_rounding_is_representable, law_rounding_keeps_representable,
    lemma_doubled_is_representable, lemma_halved, lemma_spacing_bounds, representable, rounded,
    spacing,
};
use crate::paths::{copy_path, path_key, same_key, PathKey};
use crate::single::{half, infinity, is_single, magnitude_of, nearest, one, product, Single};
use vstd::arithmetic::power2::{
    lemma2_to64, lemma_pow2_adds, lemma_pow2_pos, lemma_pow2_strictly_increases, pow2,
};
use vstd::prelude::*;

verus! {

/// The factor 0.95 in single precision, in units of 2^-24.
pub const DECAY_FACTOR: u32 = 15938355;

/// The factors 0.6 and 0.3 have this significand in single precision.
pub const BONUS_SIGNIFICAND: u32 = 10066330;

/// How far from the Unix epoch the clock is taken to be, in nanoseconds.
pub const TIME_LIMIT: i128 = 0x2000_0000_0000_0000_0000_0000_0000_0000;

pub const NANOS_PER_SECOND: i128 = 1_000_000_000;

pub const SECONDS_PER_DAY: i128 = 86_400;

/// How often an entry was launched, with older launches counting less; and the time of the last
/// launch, in nanoseconds since the Unix epoch.
#[derive(Debug, Clone, Copy, PartialEq, Eq, Structural)]
pub struct LaunchStatistic {
    pub launch_score: Single,
    pub last_launched: i128,
}

/// What a [`LaunchStatistic`] holds; the score is counted in units of 2^-149.
pub struct Statistic {
    pub score: int,
    pub last_launched: i128,
}

impl View for LaunchStatistic {
    type V = Statistic;

    open spec fn view(&self) -> Statistic {
        Statistic { score: self.launch_score@, last_launched: self.last_launched }
    }
}

/// The score after one more launch.
pub open spec fn incremented(score: int) -> int {
    nearest(score + one())
}

/// The score after everything else was launched once more. Where it is then no larger than one
/// half the entry is forgotten, and only that counts.
pub open spec fn decayed(score: int) -> int {
    if score >= infinity() {
        score
    } else if score > half() {
        product(score as nat, DECAY_FACTOR as nat) as int
    } else {
        score
    }
}

/// The extra score of an entry, by the whole days since it was launched last: four times 1, 0.6
/// or 0.3, in units of 2^-149.
pub open spec fn recency_bonus(days_since: int) -> nat {
    if days_since <= 1 {
        0x80_0000 * pow2(128)
    } else if days_since <= 4 {
        BONUS_SIGNIFICAND as nat * pow2(127)
    } else if days_since <= 12 {
        BONUS_SIGNIFICAND as nat * pow2(126)
    } else {
        0
    }
}

/// The score of an entry at the time `now`. A launch in the future earns no bonus.
pub open spec fn score_of(stat: Statistic, now: i128) -> int {
    if now < stat.last_launched {
        stat.score
    } else {
        let seconds = (now - stat.last_launched) / NANOS_PER_SECOND as int;
        nearest(stat.score + recency_bonus(seconds / SECONDS_PER_DAY as int))
    }
}

/// A number in single precision is nearest to itself.
proof fn lemma_nearest_is_single(n: int)
    requires
        is_single(n),
    ensures
        nearest(n) == n,
{
    law_rounding_keeps_representable(magnitude_of(n));
}

/// A launch leads from a score that is not below 0 to one that is at least 1.
pub proof fn lemma_incremented(score: int)
    requires
        score >= 0,
    ensures
        incremented(score) >= one(),
        representable(incremented(score) as nat),
{
    law_rounding_is_representable((score + one()) as nat);
    law_rounding_is_monotone(one(), (score + one()) as nat);
    assert(spacing(1) == 1);
    lemma_doubled_is_representable(1, 149);
    assert(1 * pow2(149) == pow2(149)) by (nonlinear_arith);
    law_rounding_keeps_representable(one());
}

/// Decay leads from a score that is kept to a smaller number with as many significant bits. The
/// score of an entry that was just launched stays large enough to be kept.
pub proof fn lemma_decayed(score: int)
    requires
        representable(score as nat),
        half() < score < infinity(),
    ensures
        0 < decayed(score) < score,
        representable(decayed(score) as nat),
        score >= one() ==> decayed(score) > half(),
{
    let n = score as nat;
    let c = DECAY_FACTOR as nat;
    let m = n * c;
    let r = rounded(m);
    let u = spacing(m);
    lemma2_to64();
    lemma_pow2_strictly_increases(64, 148);
    lemma_spacing_bounds(m);
    law_rounding_is_representable(m);
    assert(m == 15938355 * n) by (nonlinear_arith)
        requires
            m == n * c,
            c == 15938355,
    ;
    assert(r <= m + u && r + u >= m) by {
        vstd::arithmetic::div_mod::lemma_fundamental_div_mod(m as int, u as int);
        vstd::arithmetic::div_mod::lemma_mod_bound(m as int, u as int);
        let q = m / u;
        assert((q + 1) * u == q * u + u && u * q == q * u) by (nonlinear_arith);
    }
    assert(u * 0x80_0000 <= m);
    assert(u < 2 * n);
    assert(r < n * 0x100_0000);
    assert(decayed(score) < n) by (nonlinear_arith)
        requires
            decayed(score) == r / 0x100_0000,
            r < n * 0x100_0000,
    ;
    assert(r >= 0x80_0000 * 0x100_0000);
    lemma_halved(r, 24);
    assert(decayed(score) > 0) by (nonlinear_arith)
        requires
            decayed(score) == r / 0x100_0000,
            r >= 0x80_0000 * 0x100_0000,
    ;
    if score >= one() {
        let least = one() * c;
        assert(least <= m) by (nonlinear_arith)
            requires
                least == one() * c,
                m == n * c,
                n >= one(),
        ;
        law_rounding_is_monotone(least, m);
        assert(spacing(c) == 1);
        lemma_doubled_is_representable(c, 149);
        assert(least == c * pow2(149)) by (nonlinear_arith)
            requires
                least == one() * c,
                one() == pow2(149),
        ;
        law_rounding_keeps_representable(least);
        lemma_pow2_adds(24, 125);
        lemma_pow2_adds(23, 125);
        lemma_pow2_pos(125);
        let p = pow2(125);
        assert(decayed(score) > half()) by (nonlinear_arith)
            requires
                decayed(score) == r / 0x100_0000,
                r >= least,
                least == c * pow2(149),
                pow2(149) == 0x100_0000 * p,
                half() == 0x80_0000 * p,
                c == 15938355,
                p > 0,
        ;
    }
}

/// A time that the clock can show.
pub open spec fn is_time(t: i128) -> bool {
    -TIME_LIMIT <= t <= TIME_LIMIT
}

/// The history after one more launch of `path` at the time `now`.
pub open spec fn launched(
    history: Map<PathKey, Statistic>,
    path: PathKey,
    now: i128,
) -> Map<PathKey, Statistic> {
    let before: int = if history.dom().contains(path) {
        history[path].score
    } else {
        0
    };
    history.insert(path, Statistic { score: incremented(before), last_launched: now })
}

/// The history after all scores have decayed: entries with a score of no more than one half are
/// forgotten.
pub open spec fn all_decayed(history: Map<PathKey, Statistic>) -> Map<PathKey, Statistic> {
    Map::new(
        |p: PathKey| history.dom().contains(p) && decayed(history[p].score) > half(),
        |p: PathKey|
            Statistic {
                score: decayed(history[p].score),
                last_launched: history[p].last_launched,
            },
    )
}

/// The score of `path` in a history; 0 where it was never launched.
pub open spec fn score_in(history: Map<PathKey, Statistic>, path: PathKey, now: i128) -> int {
    if history.dom().contains(path) {
        score_of(history[path], now)
    } else {
        0
    }
}

/// The launches of entries, by the path of the entry.
pub struct LaunchHistory {
    inner: Vec<(Vec<u8>, LaunchStatistic)>,
}

/// `i` is the place of `path`.
pub open spec fn is_at(entries: Seq<(Vec<u8>, LaunchStatistic)>, path: PathKey, i: int) -> bool {
    0 <= i < entries.len() && path_key(entries[i].0@) == path
}

/// The entries as a map.
pub open spec fn as_map(entries: Seq<(Vec<u8>, LaunchStatistic)>) -> Map<PathKey, Statistic> {
    Map::new(
        |p: PathKey| exists|i: int| is_at(entries, p, i),
        |p: PathKey| entries[choose|i: int| is_at(entries, p, i)].1@,
    )
}

/// No path occurs twice, and the scores are well formed.
pub open spec fn is_history(entries: Seq<(Vec<u8>, LaunchStatistic)>) -> bool {
    &&& forall|i: int, j: int|
        0 <= i < j < entries.len() ==> path_key((#[trigger] entries[i]).0@) != path_key(
            (#[trigger] entries[j]).0@,
        )
    &&& forall|i: int|
        0 <= i < entries.len() ==> (#[trigger] entries[i]).1.launch_score.well_formed()
}

/// The history that is made of what a store holds: of two entries with one path the later one
/// counts.
pub open spec fn stored(entries: Seq<(Vec<u8>, LaunchStatistic)>) -> Map<PathKey, Statistic>
    decreases entries.len(),
{
    if entries.len() == 0 {
        Map::empty()
    } else {
        stored(entries.drop_last()).insert(path_key(entries.last().0@), entries.last().1@)
    }
}

/// In a history an entry is what the map holds for its path.
proof fn lemma_entry(entries: Seq<(Vec<u8>, LaunchStatistic)>, i: int)
    requires
        is_history(entries),
        0 <= i < entries.len(),
    ensures
        as_map(entries).dom().contains(path_key(entries[i].0@)),
        as_map(entries)[path_key(entries[i].0@)] == entries[i].1@,
{
    let p = path_key(entries[i].0@);
    assert(is_at(entries, p, i));
    let j = choose|j: int| is_at(entries, p, j);
    assert(is_at(entries, p, j));
    if i < j {
        assert(path_key(entries[i].0@) != path_key(entries[j].0@));
    } else if j < i {
        assert(path_key(entries[j].0@) != path_key(entries[i].0@));
    }
}

/// What the map holds for a path is an entry.
proof fn lemma_map_entry(entries: Seq<(Vec<u8>, LaunchStatistic)>, p: PathKey) -> (i: int)
    requires
        as_map(entries).dom().contains(p),
    ensures
        is_at(entries, p, i),
        as_map(entries)[p] == entries[i].1@,
{
    choose|i: int| is_at(entries, p, i)
}

impl View for LaunchHistory {
    type V = Map<PathKey, Statistic>;

    closed spec fn view(&self) -> Map<PathKey, Statistic> {
        as_map(self.inner@)
    }
}

impl Default for LaunchHistory {
    fn default() -> (res: Self)
        ensures
            res@ == Map::<PathKey, Statistic>::empty(),
            res.well_formed(),
    {
        let res = LaunchHistory { inner: Vec::new() };
        assert(res@ =~= Map::empty()) by {
            assert forall|p: PathKey| !res@.dom().contains(p) by {
                assert(forall|i: int| !is_at(res.inner@, p, i));
            }
        }
        res
    }
}

impl LaunchHistory {
    pub closed spec fn well_formed(&self) -> bool {
        is_history(self.inner@)
    }

    fn place_of(&self, path: &Vec<u8>) -> (res: Option<usize>)
        requires
            self.well_formed(),
        ensures
            match res {
                Some(i) => is_at(self.inner@, path_key(path@), i as int) && self@.dom().contains(
                    path_key(path@),
                ) && self@[path_key(path@)] == self.inner@[i as int].1@,
                None => !self@.dom().contains(path_key(path@)),
            },
    {
        let mut i: usize = 0;
        while i < self.inner.len()
            invariant
                i <= self.inner.len(),
                self.well_formed(),
                forall|j: int| 0 <= j < i ==> !is_at(self.inner@, path_key(path@), j),
            decreases self.inner.len() - i,
        {
            if same_key(&self.inner[i].0, path) {
                proof {
                    lemma_entry(self.inner@, i as int);
                }
                return Some(i);
            }
            assert(!is_at(self.inner@, path_key(path@), i as int));
            i += 1;
        }
        assert(forall|j: int| !is_at(self.inner@, path_key(path@), j));
        None
    }

    /// The score of an entry at a given time.
    pub fn score_at(&self, entry: &Vec<u8>, now: i128) -> (res: Single)
        requires
            self.well_formed(),
        ensures
            res.well_formed(),
            res@ == score_in(self@, path_key(entry@), now),
    {
        match self.place_of(entry) {
            None => Single::zero(),
            Some(i) => {
                let stat = self.inner[i].1;
                assert(self.inner@[i as int].1.launch_score.well_formed());
                if now < stat.last_launched {
                    return stat.launch_score;
                }
                let days_since: i128 = match now.checked_sub(stat.last_launched) {
                    Some(nanos) => nanos / NANOS_PER_SECOND / SECONDS_PER_DAY,
                    None => {
                        proof {
                            lemma_long_ago(now - stat.last_launched);
                        }
                        13
                    },
                };
                if days_since <= 1 {
                    stat.launch_score.plus(0x80_0000, 128)
                } else if days_since <= 4 {
                    stat.launch_score.plus(BONUS_SIGNIFICAND, 127)
                } else if days_since <= 12 {
                    stat.launch_score.plus(BONUS_SIGNIFICAND, 126)
                } else {
                    proof {
                        stat.launch_score.lemma_is_single();
                        lemma_nearest_is_single(stat@.score);
                    }
                    stat.launch_score
                }
            },
        }
    }

    /// Gives a statistic to an entry.
    fn put(&mut self, entry: Vec<u8>, stat: LaunchStatistic)
        requires
            old(self).well_formed(),
            stat.launch_score.well_formed(),
        ensures
            final(self).well_formed(),
            final(self)@ == old(self)@.insert(path_key(entry@), stat@),
    {
        let ghost before = self.inner@;
        let place = self.place_of(&entry);
        match place {
            Some(i) => {
                let path = copy_path(&self.inner[i].0);
                self.inner.set(i, (path, stat));
            },
            None => {
                assert forall|j: int| 0 <= j < before.len() implies path_key(
                    (#[trigger] before[j]).0@,
                ) != path_key(entry@) by {
                    lemma_entry(before, j);
                }
                self.inner.push((entry, stat));
            },
        }
        proof {
            let after = self.inner@;
            assert(is_history(after));
            let want = old(self)@.insert(path_key(entry@), stat@);
            assert forall|p: PathKey| as_map(after).dom().contains(p) == want.dom().contains(p) by {
                if as_map(after).dom().contains(p) {
                    let i = lemma_map_entry(after, p);
                    if p != path_key(entry@) {
                        lemma_entry(before, i);
                    }
                }
                if want.dom().contains(p) {
                    if p == path_key(entry@) {
                        match place {
                            Some(i) => lemma_entry(after, i as int),
                            None => lemma_entry(after, before.len() as int),
                        }
                    } else {
                        let i = lemma_map_entry(before, p);
                        lemma_entry(after, i);
                    }
                }
            }
            assert forall|p: PathKey| as_map(after).dom().contains(p) implies as_map(after)[p]
                == want[p] by {
                let i = lemma_map_entry(after, p);
                if p != path_key(entry@) {
                    lemma_entry(before, i);
                }
            }
            assert(as_map(after) =~= want);
        }
    }

    /// Counts a launch of an entry at a given time.
    pub fn increment_at(&mut self, entry: Vec<u8>, now: i128)
        requires
            old(self).well_formed(),
        ensures
            final(self).well_formed(),
            final(self)@ == launched(old(self)@, path_key(entry@), now),
    {
        let score = match self.place_of(&entry) {
            Some(i) => {
                assert(self.inner@[i as int].1.launch_score.well_formed());
                self.inner[i].1.launch_score
            },
            None => Single::zero(),
        };
        let launch_score = score.plus_one();
        self.put(entry, LaunchStatistic { launch_score, last_launched: now });
    }

    /// Lets all scores decay, and forgets the entries whose score has grown too small.
    pub fn decay_all(&mut self)
        requires
            old(self).well_formed(),
        ensures
            final(self).well_formed(),
            final(self)@ == all_decayed(old(self)@),
    {
        let ghost before = self.inner@;
        let mut kept: Vec<(Vec<u8>, LaunchStatistic)> = Vec::new();
        let mut i: usize = 0;
        while i < self.inner.len()
            invariant
                i <= self.inner.len(),
                self.inner@ == before,
                is_history(before),
                is_history(kept@),
                forall|n: int|
                    0 <= n < kept.len() ==> comes_from(before.take(i as int), #[trigger] kept@[n]),
                forall|j: int|
                    0 <= j < i && decayed((#[trigger] before[j]).1@.score) > half() ==> leads_to(before[j], kept@),
            decreases self.inner.len() - i,
        {
            let score = self.inner[i].1.launch_score;
            assert(before[i as int].1.launch_score.well_formed());
            let launch_score = if score.exceeds_half() {
                score.times(DECAY_FACTOR)
            } else {
                score
            };
            let ghost kept_before = kept@;
            if launch_score.exceeds_half() {
                let path = copy_path(&self.inner[i].0);
                let last_launched = self.inner[i].1.last_launched;
                proof {
                    assert forall|n: int| 0 <= n < kept.len() implies path_key(
                        (#[trigger] kept@[n]).0@,
                    ) != path_key(path@) by {
                        let j = lemma_comes_from(before.take(i as int), kept@[n]);
                        assert(path_key(before[j].0@) != path_key(before[i as int].0@));
                    }
                }
                kept.push((path, LaunchStatistic { launch_score, last_launched }));
                assert(decays_to(before[i as int], kept@[kept.len() - 1]));
            }
            i += 1;
            proof {
                assert forall|n: int| 0 <= n < kept.len() implies comes_from(
                    before.take(i as int),
                    #[trigger] kept@[n],
                ) by {
                    if n < kept_before.len() {
                        let j = lemma_comes_from(before.take(i - 1), kept_before[n]);
                        assert(decays_to(before.take(i as int)[j], kept@[n]));
                    } else {
                        assert(decays_to(before.take(i as int)[i - 1], kept@[n]));
                    }
                }
                assert forall|j: int|
                    0 <= j < i && decayed((#[trigger] before[j]).1@.score) > half() implies leads_to(before[j], kept@) by {
                    if j < i - 1 {
                        let n = lemma_leads_to(before[j], kept_before);
                        assert(decays_to(before[j], kept@[n]));
                    } else {
                        assert(decays_to(before[j], kept@[kept.len() - 1]));
                    }
                }
            }
        }
        assert(before.take(i as int) == before);
        self.inner = kept;
        proof {
            let after = self.inner@;
            let want = all_decayed(as_map(before));
            assert forall|p: PathKey| as_map(after).dom().contains(p) == want.dom().contains(p) by {
                if as_map(after).dom().contains(p) {
                    let n = lemma_map_entry(after, p);
                    let j = lemma_comes_from(before, after[n]);
                    lemma_entry(before, j);
                }
                if want.dom().contains(p) {
                    let j = lemma_map_entry(before, p);
                    let n = lemma_leads_to(before[j], after);
                    lemma_entry(after, n);
                }
            }
            assert forall|p: PathKey| as_map(after).dom().contains(p) implies as_map(after)[p]
                == want[p] by {
                let n = lemma_map_entry(after, p);
                let j = lemma_comes_from(before, after[n]);
                lemma_entry(before, j);
            }
            assert(as_map(after) =~= want);
        }
    }

    /// Counts a launch of an entry at a given time, and lets all scores decay.
    pub fn increment_and_decay_at(&mut self, entry: Vec<u8>, now: i128)
        requires
            old(self).well_formed(),
        ensures
            final(self).well_formed(),
            final(self)@ == all_decayed(launched(old(self)@, path_key(entry@), now)),
    {
        self.increment_at(entry, now);
        self.decay_all();
    }

    /// The score of an entry now.
    pub fn score(&self, entry: &Vec<u8>) -> (res: Single)
        requires
            self.well_formed(),
        ensures
            res.well_formed(),
            exists|now: i128| is_time(now) && res@ == #[trigger] score_in(self@, path_key(entry@), now),
    {
        let t = now();
        self.score_at(entry, t)
    }

    /// Counts a launch of an entry now.
    pub fn increment(&mut self, entry: Vec<u8>)
        requires
            old(self).well_formed(),
        ensures
            final(self).well_formed(),
            exists|now: i128|
                is_time(now) && final(self)@ == #[trigger] launched(old(self)@, path_key(entry@), now),
    {
        let t = now();
        self.increment_at(entry, t);
    }

    /// Counts a launch of an entry now, and lets all scores decay.
    pub fn increment_and_decay(&mut self, entry: Vec<u8>)
        requires
            old(self).well_formed(),
        ensures
            final(self).well_formed(),
            exists|now: i128|
                is_time(now) && final(self)@ == all_decayed(
                    #[trigger] launched(old(self)@, path_key(entry@), now),
                ),
    {
        let t = now();
        self.increment_and_decay_at(entry, t);
    }

    /// The history that was kept in a store. Of two entries with one path, the later one counts.
    pub fn from_entries(entries: Vec<(Vec<u8>, LaunchStatistic)>) -> (res: Self)
        requires
            forall|i: int|
                0 <= i < entries@.len() ==> (#[trigger] entries@[i]).1.launch_score.well_formed(),
        ensures
            res.well_formed(),
            res@ == stored(entries@),
    {
        let ghost all = entries@;
        let mut res = LaunchHistory::default();
        for entry in it: entries
            invariant
                it.seq() == all,
                forall|i: int|
                    0 <= i < all.len() ==> (#[trigger] all[i]).1.launch_score.well_formed(),
                res.well_formed(),
                res@ == stored(all.take(it.index() as int)),
        {
            let ghost n = it.index() as int;
            proof {
                assert(entry == all[n]);
                assert(all.take(n + 1).drop_last() == all.take(n));
            }
            let (path, stat) = entry;
            res.put(path, stat);
        }
        assert(all.take(all.len() as int) == all);
        res
    }

    /// The same history once more.
    pub fn copy(&self) -> (res: Self)
        requires
            self.well_formed(),
        ensures
            res.well_formed(),
            res@ == self@,
    {
        let mut inner: Vec<(Vec<u8>, LaunchStatistic)> = Vec::new();
        let mut i: usize = 0;
        while i < self.inner.len()
            invariant
                i <= self.inner.len(),
                inner.len() == i,
                forall|j: int|
                    0 <= j < i ==> (#[trigger] inner@[j]).0@ == self.inner@[j].0@ && inner@[j].1
                        == self.inner@[j].1,
            decreases self.inner.len() - i,
        {
            inner.push((copy_path(&self.inner[i].0), self.inner[i].1));
            i += 1;
        }
        proof {
            let a = self.inner@;
            let b = inner@;
            assert forall|j: int| 0 <= j < a.len() implies path_key(a[j].0@) == path_key(
                (#[trigger] b[j]).0@,
            ) by {}
            assert forall|m: int, n: int| 0 <= m < n < b.len() implies path_key(
                (#[trigger] b[m]).0@,
            ) != path_key((#[trigger] b[n]).0@) by {
                assert(path_key(a[m].0@) != path_key(a[n].0@));
            }
            assert forall|j: int| 0 <= j < b.len() implies (
            #[trigger] b[j]).1.launch_score.well_formed() by {
                assert(a[j].1.launch_score.well_formed());
            }
            assert forall|p: PathKey| as_map(a).dom().contains(p) == as_map(b).dom().contains(p) by {
                if as_map(a).dom().contains(p) {
                    let j = lemma_map_entry(a, p);
                    lemma_entry(b, j);
                }
                if as_map(b).dom().contains(p) {
                    let j = lemma_map_entry(b, p);
                    lemma_entry(a, j);
                }
            }
            assert forall|p: PathKey| as_map(b).dom().contains(p) implies as_map(b)[p] == as_map(
                a,
            )[p] by {
                let j = lemma_map_entry(b, p);
                lemma_entry(a, j);
            }
            assert(as_map(b) =~= as_map(a));
        }
        LaunchHistory { inner }
    }

    /// What is to be kept in a store.
    pub fn entries(&self) -> (res: &Vec<(Vec<u8>, LaunchStatistic)>)
        requires
            self.well_formed(),
        ensures
            is_history(res@),
            as_map(res@) == self@,
    {
        &self.inner
    }
}

/// The time, by `SystemTime::now`: whether it is after the Unix epoch, and how many nanoseconds
/// it is away from it. Nothing is claimed of the result.
#[verifier::external_body]
fn system_time() -> (res: (bool, u128)) {
    match std::time::SystemTime::now().duration_since(std::time::SystemTime::UNIX_EPOCH) {
        Ok(after) => (true, after.as_nanos()),
        Err(before) => (false, before.duration().as_nanos()),
    }
}

/// The time that lies so many nanoseconds after the Unix epoch, or before it. One that lies beyond
/// the limit counts as the limit.
pub open spec fn time_at(after: bool, nanos: u128) -> int {
    let distance = if nanos <= TIME_LIMIT {
        nanos as int
    } else {
        TIME_LIMIT as int
    };
    if after {
        distance
    } else {
        -distance
    }
}

/// The time at a distance from the Unix epoch.
pub fn time_from_epoch(after: bool, nanos: u128) -> (res: i128)
    ensures
        res == time_at(after, nanos),
        is_time(res),
{
    let distance: i128 = if nanos <= TIME_LIMIT as u128 {
        nanos as i128
    } else {
        TIME_LIMIT
    };
    if after {
        distance
    } else {
        -distance
    }
}

/// The time now, in nanoseconds since the Unix epoch, as the clock of the machine has it: any time
/// within the limit can come.
pub fn now() -> (res: i128)
    ensures
        is_time(res),
{
    let (after, nanos) = system_time();
    time_from_epoch(after, nanos)
}

/// What was just launched is known: its score stands above one half, and its last launch is now.
/// Its score up to then must not lie below 0, and no launch leads there.
pub proof fn law_launched_entry_is_kept(
    history: Map<PathKey, Statistic>,
    path: PathKey,
    now: i128,
)
    requires
        history.dom().contains(path) ==> history[path].score >= 0,
    ensures
        all_decayed(launched(history, path, now)).dom().contains(path),
        all_decayed(launched(history, path, now))[path].last_launched == now,
        all_decayed(launched(history, path, now))[path].score > half(),
{
    let before: int = if history.dom().contains(path) {
        history[path].score
    } else {
        0
    };
    lemma_incremented(before);
    lemma_pow2_strictly_increases(148, 149);
    lemma_pow2_strictly_increases(148, 277);
    if incremented(before) < infinity() {
        lemma_decayed(incremented(before));
    }
}

/// A launch brings in nothing but the entry that was launched, and every other entry loses: its
/// score falls, unless it is infinite, or it is forgotten.
pub proof fn law_launch_lets_others_fade(
    history: Map<PathKey, Statistic>,
    path: PathKey,
    other: PathKey,
    now: i128,
)
    requires
        forall|p: PathKey| history.dom().contains(p) ==> is_single((#[trigger] history[p]).score),
        other != path,
    ensures
        ({
            let after = all_decayed(launched(history, path, now));
            after.dom().contains(other) ==> {
                &&& history.dom().contains(other)
                &&& after[other].score < history[other].score || after[other].score
                    == history[other].score == infinity()
                &&& after[other].last_launched == history[other].last_launched
            }
        }),
{
    if history.dom().contains(other) {
        let score = history[other].score;
        assert(is_single(score));
        lemma_pow2_pos(148);
        if half() < score < infinity() {
            lemma_decayed(score);
        }
    }
}

/// A history that was stored comes back as it was.
pub proof fn law_stored_history_comes_back(entries: Seq<(Vec<u8>, LaunchStatistic)>)
    requires
        is_history(entries),
    ensures
        stored(entries) == as_map(entries),
    decreases entries.len(),
{
    if entries.len() > 0 {
        let front = entries.drop_last();
        assert forall|i: int, j: int| 0 <= i < j < front.len() implies path_key(
            (#[trigger] front[i]).0@,
        ) != path_key((#[trigger] front[j]).0@) by {
            assert(path_key(entries[i].0@) != path_key(entries[j].0@));
        }
        assert forall|i: int| 0 <= i < front.len() implies (
        #[trigger] front[i]).1.launch_score.well_formed() by {
            assert(entries[i].1.launch_score.well_formed());
        }
        law_stored_history_comes_back(front);
    }
    let a = stored(entries);
    let b = as_map(entries);
    assert forall|p: PathKey| a.dom().contains(p) == b.dom().contains(p) by {
        if entries.len() > 0 {
            let front = entries.drop_last();
            if b.dom().contains(p) {
                let i = lemma_map_entry(entries, p);
                if i < front.len() {
                    lemma_entry(front, i);
                }
            }
            if a.dom().contains(p) {
                lemma_entry(entries, entries.len() - 1);
                if p != path_key(entries.last().0@) {
                    let i = lemma_map_entry(front, p);
                    lemma_entry(entries, i);
                }
            }
        } else {
            assert(forall|i: int| !is_at(entries, p, i));
        }
    }
    assert forall|p: PathKey| b.dom().contains(p) implies a[p] == b[p] by {
        let i = lemma_map_entry(entries, p);
        let front = entries.drop_last();
        if i < front.len() {
            assert(path_key(entries[i].0@) != path_key(entries[entries.len() - 1].0@));
            lemma_entry(front, i);
        }
    }
    assert(a =~= b);
}

/// The history after some launches, each of a path at a time, where there was none before.
pub open spec fn after_launches(launches: Seq<(PathKey, i128)>) -> Map<PathKey, Statistic>
    decreases launches.len(),
{
    if launches.len() == 0 {
        Map::empty()
    } else {
        all_decayed(
            launched(after_launches(launches.drop_last()), launches.last().0, launches.last().1),
        )
    }
}

/// The path was launched.
pub open spec fn was_launched(launches: Seq<(PathKey, i128)>, path: PathKey) -> bool {
    exists|i: int| 0 <= i < launches.len() && (#[trigger] launches[i]).0 == path
}

/// A launch and the decay that comes with it do not lead beyond 19.
proof fn lemma_bounded(score: int)
    requires
        0 <= score <= 19 * one(),
    ensures
        incremented(score) < infinity(),
        decayed(incremented(score)) <= 19 * one(),
{
    lemma2_to64();
    lemma_pow2_adds(24, 149);
    lemma_pow2_adds(5, 149);
    lemma_pow2_strictly_increases(154, 277);
    assert(spacing(20) == 1 && spacing(19) == 1);
    lemma_doubled_is_representable(20, 149);
    lemma_doubled_is_representable(19, 173);
    law_rounding_is_monotone((score + one()) as nat, 20 * one());
    law_rounding_keeps_representable(20 * one());
    let n = incremented(score);
    let m = n as nat * DECAY_FACTOR as nat;
    let most = 19 * pow2(173);
    assert(m <= most) by (nonlinear_arith)
        requires
            m == n as nat * DECAY_FACTOR as nat,
            0 <= n <= 20 * one(),
            DECAY_FACTOR == 15938355,
            most == 19 * pow2(173),
            pow2(173) == 0x100_0000 * one(),
    ;
    law_rounding_is_monotone(m, most);
    law_rounding_keeps_representable(most);
    lemma_incremented(score);
    lemma_pow2_strictly_increases(148, 149);
}

/// However often entries are launched, the one that was launched last is known; what is known was
/// launched, and its score lies above one half and is no more than 19.
pub proof fn law_scores_stay_bounded(launches: Seq<(PathKey, i128)>, path: PathKey)
    ensures
        launches.len() > 0 ==> after_launches(launches).dom().contains(launches.last().0),
        after_launches(launches).dom().contains(path) ==> {
            let score = after_launches(launches)[path].score;
            &&& was_launched(launches, path)
            &&& half() < score <= 19 * one()
            &&& is_single(score)
        },
    decreases launches.len(),
{
    lemma2_to64();
    lemma_pow2_adds(5, 149);
    lemma_pow2_strictly_increases(154, 277);
    lemma_pow2_strictly_increases(148, 149);
    lemma_pow2_pos(148);
    if launches.len() > 0 {
        let front = launches.drop_last();
        let (last, now) = launches.last();
        law_scores_stay_bounded(front, path);
        law_scores_stay_bounded(front, last);
        let before = after_launches(front);
        let score: int = if before.dom().contains(last) {
            before[last].score
        } else {
            0
        };
        lemma_incremented(score);
        lemma_bounded(score);
        lemma_decayed(incremented(score));
        assert(launches[launches.len() - 1].0 == last);
        if path != last && before.dom().contains(path) {
            lemma_decayed(before[path].score);
            let i = choose|i: int| 0 <= i < front.len() && (#[trigger] front[i]).0 == path;
            assert(launches[i].0 == path);
        }
    }
}

/// However often entries are launched, what ranks them is 0 for one that is not known, and lies
/// above one half and is no more than 23 for one that is.
pub proof fn law_ranks_stay_bounded(launches: Seq<(PathKey, i128)>, path: PathKey, now: i128)
    ensures
        score_in(after_launches(launches), path, now) == 0 || half() < score_in(
            after_launches(launches),
            path,
            now,
        ) <= 23 * one(),
{
    law_scores_stay_bounded(launches, path);
    let history = after_launches(launches);
    if history.dom().contains(path) {
        let score = history[path].score;
        let seconds = (now - history[path].last_launched) / NANOS_PER_SECOND as int;
        let days = seconds / SECONDS_PER_DAY as int;
        let bonus = recency_bonus(days);
        lemma2_to64();
        lemma_pow2_pos(148);
        lemma_bonus_order(days, 0);
        assert(spacing(23) == 1);
        lemma_doubled_is_representable(23, 149);
        law_rounding_keeps_representable(score as nat);
        law_rounding_is_monotone(score as nat, score as nat + bonus);
        law_rounding_is_monotone(score as nat + bonus, 23 * one());
        law_rounding_keeps_representable(23 * one());
    }
}

/// More days never lead to a larger bonus, and none is larger than 4.
proof fn lemma_bonus_order(more: int, less: int)
    requires
        less <= more || less <= 1,
    ensures
        recency_bonus(more) <= recency_bonus(less),
        recency_bonus(less) <= 4 * one(),
{
    lemma2_to64();
    lemma_pow2_adds(1, 126);
    lemma_pow2_adds(2, 126);
    lemma_pow2_adds(23, 126);
    lemma_pow2_pos(126);
}

/// A time that no difference of two times can express lies more than 12 days ago.
proof fn lemma_long_ago(nanos: int)
    requires
        nanos > i128::MAX,
    ensures
        nanos / NANOS_PER_SECOND as int / SECONDS_PER_DAY as int > 12,
{
}

/// Of two entries with the same score, the one that was launched later never ranks lower.
pub proof fn law_recent_launch_ranks_higher(
    score: int,
    earlier: i128,
    later: i128,
    now: i128,
)
    requires
        earlier <= later <= now,
    ensures
        score_of(Statistic { score, last_launched: earlier }, now) <= score_of(
            Statistic { score, last_launched: later },
            now,
        ),
{
    let n = NANOS_PER_SECOND as int;
    let d = SECONDS_PER_DAY as int;
    let a = (now - earlier) / n;
    let b = (now - later) / n;
    assert(b <= a) by {
        vstd::arithmetic::div_mod::lemma_div_is_ordered(now - later, now - earlier, n);
    }
    vstd::arithmetic::div_mod::lemma_div_is_ordered(b, a, d);
    lemma_bonus_order(a / d, b / d);
    lemma_nearest_is_monotone(score + recency_bonus(a / d), score + recency_bonus(b / d));
}

proof fn lemma_nearest_is_monotone(a: int, b: int)
    requires
        a <= b,
    ensures
        nearest(a) <= nearest(b),
{
    if a >= 0 {
        law_rounding_is_monotone(a as nat, b as nat);
    } else if b < 0 {
        law_rounding_is_monotone((-b) as nat, (-a) as nat);
    }
}

/// An entry that decay turns into another, and keeps.
spec fn decays_to(a: (Vec<u8>, LaunchStatistic), b: (Vec<u8>, LaunchStatistic)) -> bool {
    &&& a.0@ == b.0@
    &&& b.1@.score == decayed(a.1@.score)
    &&& b.1@.score > half()
    &&& b.1.last_launched == a.1.last_launched
}

/// Some entry decays to `b`.
spec fn comes_from(entries: Seq<(Vec<u8>, LaunchStatistic)>, b: (Vec<u8>, LaunchStatistic)) -> bool {
    exists|j: int| 0 <= j < entries.len() && decays_to(#[trigger] entries[j], b)
}

/// `a` decays to some entry.
spec fn leads_to(a: (Vec<u8>, LaunchStatistic), entries: Seq<(Vec<u8>, LaunchStatistic)>) -> bool {
    exists|n: int| 0 <= n < entries.len() && decays_to(a, #[trigger] entries[n])
}

proof fn lemma_comes_from(
    entries: Seq<(Vec<u8>, LaunchStatistic)>,
    b: (Vec<u8>, LaunchStatistic),
) -> (j: int)
    requires
        comes_from(entries, b),
    ensures
        0 <= j < entries.len(),
        decays_to(entries[j], b),
{
    choose|j: int| 0 <= j < entries.len() && decays_to(#[trigger] entries[j], b)
}

proof fn lemma_leads_to(
    a: (Vec<u8>, LaunchStatistic),
    entries: Seq<(Vec<u8>, LaunchStatistic)>,
) -> (n: int)
    requires
        leads_to(a, entries),
    ensures
        0 <= n < entries.len(),
        decays_to(a, entries[n]),
{
    choose|n: int| 0 <= n < entries.len() && decays_to(a, #[trigger] entries[n])
}

} // verus!
