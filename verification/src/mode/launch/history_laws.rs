//! What holds of every history of launches.

use crate::binary32::{
    law_rounding_is_monotone, law_rounding_is_representable, law_rounding_keeps_representable,
    lemma_doubled_is_representable, lemma_halved, rounded, spacing,
};
use crate::mode::launch::history::{
    all_decayed, launched, lemma_decayed, score_in, score_of, stored, LaunchStatistic, Statistic,
};
use crate::paths::{path_key, PathKey};
use crate::single::{is_single, magnitude_of, nearest};
use vstd::arithmetic::power2::{
    lemma2_to64, lemma_pow2_adds, lemma_pow2_pos, lemma_pow2_strictly_increases, pow2,
};
use vstd::prelude::*;

verus! {

/// The days that have passed in whole are those that fit into the time.
proof fn lemma_days(nanos: int, days: int)
    requires
        nanos >= 0,
    ensures
        nanos / 1_000_000_000 / 86_400 >= days <==> nanos >= days * 86_400_000_000_000,
{
    vstd::arithmetic::div_mod::lemma_div_denominator(nanos, 1_000_000_000, 86_400);
    let d: int = 86_400_000_000_000;
    vstd::arithmetic::div_mod::lemma_fundamental_div_mod(nanos, d);
    vstd::arithmetic::div_mod::lemma_mod_bound(nanos, d);
    let q = nanos / d;
    if q >= days {
        assert(nanos >= days * d) by (nonlinear_arith)
            requires
                nanos >= d * q,
                q >= days,
                d > 0,
        ;
    } else {
        assert(nanos < days * d) by (nonlinear_arith)
            requires
                nanos < d * q + d,
                q + 1 <= days,
                d > 0,
        ;
    }
}

/// The score of an entry goes by the time since its last launch alone: 4 is added during the first
/// two days, 2.4 up to the end of the fifth day, 1.2 up to the end of the thirteenth, and nothing
/// after that, nor for a launch in the future. Sums are rounded to single precision; numbers are
/// counted in units of 2^-149.
pub proof fn law_bonus_falls_off_with_the_days(
    history: Map<PathKey, Statistic>,
    path: PathKey,
    now: i128,
)
    requires
        history.dom().contains(path),
        is_single(history[path].score),
    ensures
        ({
            let score = history[path].score;
            let nanos = now - history[path].last_launched;
            let day: int = 86_400_000_000_000;
            &&& nanos < 0 ==> score_in(history, path, now) == score
            &&& 0 <= nanos < 2 * day ==> score_in(history, path, now) == nearest(
                score + 4 * pow2(149),
            )
            &&& 2 * day <= nanos < 5 * day ==> score_in(history, path, now) == nearest(
                score + 10066330 * pow2(127),
            )
            &&& 5 * day <= nanos < 13 * day ==> score_in(history, path, now) == nearest(
                score + 10066330 * pow2(126),
            )
            &&& 13 * day <= nanos ==> score_in(history, path, now) == score
        }),
{
    let score = history[path].score;
    let nanos = now - history[path].last_launched;
    if nanos >= 0 {
        lemma_days(nanos, 2);
        lemma_days(nanos, 5);
        lemma_days(nanos, 13);
        lemma2_to64();
        lemma_pow2_adds(23, 128);
        lemma_pow2_adds(2, 149);
        law_rounding_keeps_representable(magnitude_of(score));
    }
}

/// An entry that was never launched has the score 0 at any time.
pub proof fn law_unknown_entry_has_no_score(
    history: Map<PathKey, Statistic>,
    path: PathKey,
    now: i128,
)
    requires
        !history.dom().contains(path),
    ensures
        score_in(history, path, now) == 0,
{
}

/// Where the time and the last launch are both moved, by the same distance, the score stays.
pub proof fn law_only_the_time_between_counts(
    score: int,
    last: i128,
    now: i128,
    other_last: i128,
    other_now: i128,
)
    requires
        now - last == other_now - other_last,
    ensures
        score_of(Statistic { score, last_launched: last }, now) == score_of(
            Statistic { score, last_launched: other_last },
            other_now,
        ),
{
}

/// A launch adds 1 to the score of its entry, which starts at 0, and notes the time. It touches no
/// other entry, and forgets none.
pub proof fn law_launch_adds_one(
    history: Map<PathKey, Statistic>,
    path: PathKey,
    now: i128,
    other: PathKey,
)
    ensures
        ({
            let after = launched(history, path, now);
            &&& after.dom().contains(path)
            &&& after[path].last_launched == now
            &&& history.dom().contains(path) ==> after[path].score == nearest(
                history[path].score + pow2(149),
            )
            &&& !history.dom().contains(path) ==> after[path].score == pow2(149)
            &&& other != path ==> (after.dom().contains(other) <==> history.dom().contains(other))
            &&& other != path && history.dom().contains(other) ==> after[other] == history[other]
        }),
{
    assert(spacing(1) == 1);
    lemma_doubled_is_representable(1, 149);
    assert(1 * pow2(149) == pow2(149)) by (nonlinear_arith);
    law_rounding_keeps_representable(pow2(149));
}

/// Decay multiplies every finite score with 15938355 / 2^24, which is 0.95 in single precision, and
/// rounds; an entry is kept exactly where more than one half is left. The time of the last launch
/// stays, and nothing comes in.
pub proof fn law_decay_takes_a_twentieth(history: Map<PathKey, Statistic>, path: PathKey)
    requires
        history.dom().contains(path) ==> is_single(history[path].score),
    ensures
        ({
            let after = all_decayed(history);
            let score = history[path].score;
            let left = rounded(score as nat * 15938355);
            &&& !history.dom().contains(path) ==> !after.dom().contains(path)
            &&& history.dom().contains(path) && score <= 0 ==> !after.dom().contains(path)
            &&& history.dom().contains(path) && 0 < score < pow2(277) ==> {
                &&& after.dom().contains(path) <==> left > pow2(148) * 0x100_0000
                &&& after.dom().contains(path) ==> after[path].score * 0x100_0000 == left
            }
            &&& history.dom().contains(path) && score == pow2(277) ==> after.dom().contains(path)
                && after[path].score == score
            &&& after.dom().contains(path) ==> after[path].last_launched
                == history[path].last_launched
        }),
{
    lemma2_to64();
    lemma_pow2_pos(148);
    lemma_pow2_strictly_increases(148, 277);
    if history.dom().contains(path) {
        let score = history[path].score;
        let m = score as nat * 15938355;
        let left = rounded(m);
        let h = pow2(148);
        if 0 < score <= h {
            lemma_pow2_adds(24, 148);
            assert(m <= h * 0x100_0000);
            assert(spacing(1) == 1);
            lemma_doubled_is_representable(1, 172);
            assert(1 * pow2(172) == pow2(172)) by (nonlinear_arith);
            law_rounding_keeps_representable(pow2(172));
            law_rounding_is_monotone(m, h * 0x100_0000);
        } else if h < score < pow2(277) {
            lemma_decayed(score);
            law_rounding_is_representable(m);
            lemma_pow2_strictly_increases(64, 148);
            assert(left >= 0x80_0000 * 0x100_0000) by {
                let least: nat = 0x80_0000 * 0x100_0000;
                lemma_doubled_is_representable(0x80_0000, 24);
                law_rounding_keeps_representable(least);
                law_rounding_is_monotone(least, m);
            }
            lemma_halved(left, 24);
            let q = left / 0x100_0000;
            assert(left == q * 0x100_0000);
        }
    }
}

/// Of the entries of a store with one path the last one counts, with all that it says; no path
/// comes in that the store does not hold.
pub proof fn law_last_stored_entry_counts(
    entries: Seq<(Vec<u8>, LaunchStatistic)>,
    i: int,
    path: PathKey,
)
    requires
        0 <= i,
        forall|j: int| i < j < entries.len() ==> path_key((#[trigger] entries[j]).0@) != path_key(
            entries[i].0@,
        ),
    ensures
        i < entries.len() ==> {
            let key = path_key(entries[i].0@);
            &&& stored(entries).dom().contains(key)
            &&& stored(entries)[key].score == entries[i].1.launch_score@
            &&& stored(entries)[key].last_launched == entries[i].1.last_launched
        },
        (forall|j: int| 0 <= j < entries.len() ==> path_key((#[trigger] entries[j]).0@) != path)
            ==> !stored(entries).dom().contains(path),
    decreases entries.len(),
{
    let front = entries.drop_last();
    let last = entries[entries.len() - 1];
    if i < entries.len() - 1 {
        assert(path_key(last.0@) != path_key(entries[i].0@));
        assert forall|j: int| i < j < front.len() implies path_key((#[trigger] front[j]).0@)
            != path_key(front[i].0@) by {
            assert(path_key(entries[j].0@) != path_key(entries[i].0@));
        }
        law_last_stored_entry_counts(front, i, path);
    }
    if forall|j: int| 0 <= j < entries.len() ==> path_key((#[trigger] entries[j]).0@) != path {
        lemma_not_stored(entries, path);
    }
}

proof fn lemma_not_stored(entries: Seq<(Vec<u8>, LaunchStatistic)>, path: PathKey)
    requires
        forall|j: int| 0 <= j < entries.len() ==> path_key((#[trigger] entries[j]).0@) != path,
    ensures
        !stored(entries).dom().contains(path),
    decreases entries.len(),
{
    if entries.len() > 0 {
        let front = entries.drop_last();
        assert(path_key(entries[entries.len() - 1].0@) != path);
        assert forall|j: int| 0 <= j < front.len() implies path_key((#[trigger] front[j]).0@)
            != path by {
            assert(path_key(entries[j].0@) != path);
        }
        lemma_not_stored(front, path);
    }
}

} // verus!
