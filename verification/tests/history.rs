use polymodo::binary32::{round, round_ratio, ONE};
use polymodo::mode::launch::history::{
    now, time_from_epoch, LaunchHistory, LaunchStatistic, BONUS_SIGNIFICAND, DECAY_FACTOR,
    NANOS_PER_SECOND, SECONDS_PER_DAY, TIME_LIMIT,
};
use polymodo::single::Single;

const DAY: i128 = NANOS_PER_SECOND * SECONDS_PER_DAY;

fn number(score: Single) -> f32 {
    f32::from_bits(score.to_bits())
}

fn single(number: f32) -> Single {
    Single::from_bits(number.to_bits()).unwrap()
}

fn statistic(score: f32) -> LaunchStatistic {
    LaunchStatistic { launch_score: single(score), last_launched: 0 }
}

fn path(text: &str) -> Vec<u8> {
    text.as_bytes().to_vec()
}

#[test]
fn history_starts_empty() {
    let history = LaunchHistory::default();
    assert_eq!(number(history.score(&path("/a"))), 0.0);
    assert_eq!(history.entries().len(), 0);
}

#[test]
fn constants_are_single_precision_numbers() {
    assert_eq!(DECAY_FACTOR as f32 / 16777216f32, 0.95f32);
    assert_eq!(BONUS_SIGNIFICAND as f32 / 16777216f32, 0.6f32);
    assert_eq!(BONUS_SIGNIFICAND as f32 / 33554432f32, 0.3f32);
}

#[test]
fn numbers_are_those_of_single_precision() {
    let mut numbers = vec![
        0.0f32,
        -0.0,
        1.0,
        -1.0,
        0.5,
        0.50000006,
        1.5,
        19.0,
        -0.99999994,
        -1.0000001,
        16777215.0,
        16777216.0,
        16777218.0,
        -16777217.0,
        1e-10,
        -1e-10,
        1e-44,
        -1e-44,
        1e9,
        -3e10,
        1e20,
        1e38,
        f32::MAX,
        f32::MIN,
        f32::MIN_POSITIVE,
        f32::EPSILON,
        f32::INFINITY,
        f32::NEG_INFINITY,
    ];
    let mut bits: u32 = 12345;
    for _ in 0..2000 {
        bits = bits.wrapping_mul(1664525).wrapping_add(1013904223);
        let any = f32::from_bits(bits);
        if !any.is_nan() {
            numbers.push(any);
        }
        numbers.push((bits as f32 / 4e9 - 0.5) * 60.0);
    }
    for &x in &numbers {
        let s = single(x);
        assert_eq!(s.to_bits(), x.to_bits());
        assert_eq!(number(s.plus_one()), x + 1.0, "{x}");
        assert_eq!(number(s.plus(0x80_0000, 128)), x + 4.0, "{x}");
        assert_eq!(number(s.plus(BONUS_SIGNIFICAND, 127)), x + 0.6f32 * 4.0, "{x}");
        assert_eq!(number(s.plus(BONUS_SIGNIFICAND, 126)), x + 0.3f32 * 4.0, "{x}");
        assert_eq!(s.exceeds_half(), x > 0.5, "{x}");
        if x > 0.5 {
            assert_eq!(number(s.times(DECAY_FACTOR)), x * 0.95, "{x}");
        }
        for &y in numbers.iter().take(60) {
            assert_eq!(s.exceeds(&single(y)), x > y, "{x} {y}");
        }
    }
    assert!(Single::from_bits(f32::NAN.to_bits()).is_none());
    assert_eq!(number(Single::zero()), 0.0);
}

#[test]
fn one_launch_counts_one() {
    let mut history = LaunchHistory::default();
    history.increment_at(path("/a"), 0);
    assert_eq!(number(history.score_at(&path("/a"), 13 * DAY)), 1.0);
    assert_eq!(number(history.score_at(&path("/b"), 13 * DAY)), 0.0);
}

#[test]
fn scores_follow_single_precision() {
    let mut history = LaunchHistory::default();
    let mut a = 0f32;
    let mut b = 0f32;
    for n in 0..200 {
        if n % 3 == 0 {
            history.increment_and_decay_at(path("/b"), 0);
            b += 1.0;
        } else {
            history.increment_and_decay_at(path("/a"), 0);
            a += 1.0;
        }
        a *= 0.95;
        b *= 0.95;
        assert_eq!(number(history.score_at(&path("/a"), 20 * DAY)), if a > 0.5 { a } else { 0.0 });
        assert_eq!(number(history.score_at(&path("/b"), 20 * DAY)), if b > 0.5 { b } else { 0.0 });
        assert_eq!(number(history.score_at(&path("/b"), DAY)), if b > 0.5 { b + 4.0 } else { 0.0 });
    }
}

#[test]
fn bonus_falls_off_with_the_days() {
    let mut history = LaunchHistory::default();
    history.increment_at(path("/a"), 0);
    let at = |t: i128| number(history.score_at(&path("/a"), t));
    assert_eq!(at(0), 5.0);
    assert_eq!(at(2 * DAY - 1), 5.0);
    assert_eq!(at(2 * DAY), 1.0 + 0.6f32 * 4.0);
    assert_eq!(at(5 * DAY - 1), 1.0 + 0.6f32 * 4.0);
    assert_eq!(at(5 * DAY), 1.0 + 0.3f32 * 4.0);
    assert_eq!(at(13 * DAY - 1), 1.0 + 0.3f32 * 4.0);
    assert_eq!(at(13 * DAY), 1.0);
    assert_eq!(at(1000 * DAY), 1.0);
}

#[test]
fn launch_in_the_future_earns_no_bonus() {
    let mut history = LaunchHistory::default();
    history.increment_at(path("/a"), 10 * DAY);
    assert_eq!(number(history.score_at(&path("/a"), 9 * DAY)), 1.0);
    history.increment_at(path("/a"), i128::MIN);
    assert_eq!(number(history.score_at(&path("/a"), i128::MAX)), 2.0);
}

#[test]
fn entry_is_forgotten_below_one_half() {
    let mut history = LaunchHistory::default();
    history.increment_at(path("/a"), 0);
    let mut score = 1f32;
    let mut rounds = 0;
    while score > 0.5 {
        assert_eq!(history.entries().len(), 1);
        history.decay_all();
        score *= 0.95;
        rounds += 1;
    }
    assert_eq!(rounds, 14);
    assert_eq!(history.entries().len(), 0);
    assert_eq!(number(history.score_at(&path("/a"), 0)), 0.0);
}

#[test]
fn launched_entry_is_kept_and_others_fade() {
    let mut history = LaunchHistory::default();
    history.increment_and_decay_at(path("/a"), 1);
    let before = history.score_at(&path("/a"), 20 * DAY);
    history.increment_and_decay_at(path("/b"), 2);
    assert!(before.exceeds(&history.score_at(&path("/a"), 20 * DAY)));
    assert_eq!(number(history.score_at(&path("/b"), 20 * DAY)), 0.95f32);
    assert_eq!(history.entries()[1].1.last_launched, 2);
}

#[test]
fn recent_launch_ranks_higher() {
    let mut history = LaunchHistory::default();
    history.increment_at(path("/old"), 0);
    history.increment_at(path("/new"), 3 * DAY);
    let new = history.score_at(&path("/new"), 4 * DAY);
    assert!(new.exceeds(&history.score_at(&path("/old"), 4 * DAY)));
}

#[test]
fn score_saturates_at_two_to_the_24() {
    for score in [16777216f32, 1e12, f32::INFINITY] {
        let mut history = LaunchHistory::from_entries(vec![(path("/a"), statistic(score))]);
        history.increment_at(path("/a"), 0);
        assert_eq!(number(history.score_at(&path("/a"), 20 * DAY)), score);
        assert_eq!(score + 1.0, score);
    }
}

#[test]
fn one_path_written_in_two_ways_is_one_entry() {
    let mut history = LaunchHistory::default();
    history.increment_at(path("/usr/share//applications/a.desktop"), 0);
    history.increment_at(path("/usr/share/applications/./a.desktop"), 0);
    assert_eq!(history.entries().len(), 1);
    let score = |p: &str| number(history.score_at(&path(p), 20 * DAY));
    assert_eq!(score("/usr/share/applications/a.desktop"), 2.0);
    assert_eq!(score("usr/share/applications/a.desktop"), 0.0);
}

#[test]
fn stored_history_comes_back() {
    let mut history = LaunchHistory::default();
    history.increment_at(path("/a"), 7);
    history.increment_at(path("/a"), 8);
    history.increment_at(path("/b"), 9);
    let stored = history.entries().clone();
    let back = LaunchHistory::from_entries(stored);
    for p in ["/a", "/b", "/c"] {
        assert_eq!(back.score_at(&path(p), DAY), history.score_at(&path(p), DAY));
    }
    let copy = history.copy();
    assert_eq!(copy.entries().len(), 2);
    assert_eq!(number(copy.score_at(&path("/a"), 20 * DAY)), 2.0);
}

#[test]
fn store_may_hold_what_no_launch_leads_to() {
    let scores = [0.5f32, 1e-40, -3.0, 1e12, f32::MAX, f32::INFINITY, f32::NEG_INFINITY];
    let mut entries: Vec<(Vec<u8>, LaunchStatistic)> = Vec::new();
    for (i, score) in scores.iter().enumerate() {
        entries.push((path(&format!("/{i}")), statistic(*score)));
    }
    entries.push((path("/twice"), statistic(1.0)));
    entries.push((path("/twice"), statistic(3.0)));
    let mut history = LaunchHistory::from_entries(entries);
    assert_eq!(history.entries().len(), scores.len() + 1);
    assert_eq!(number(history.score_at(&path("/twice"), 20 * DAY)), 3.0);
    for (i, score) in scores.iter().enumerate() {
        let p = path(&format!("/{i}"));
        assert_eq!(number(history.score_at(&p, 20 * DAY)), *score);
        assert_eq!(number(history.score_at(&p, 0)), *score + 4.0);
    }
    history.decay_all();
    for (i, score) in scores.iter().enumerate() {
        let kept = score * 0.95 > 0.5;
        let p = path(&format!("/{i}"));
        let after = number(history.score_at(&p, 20 * DAY));
        assert_eq!(after, if kept { score * 0.95 } else { 0.0 });
    }
}

#[test]
fn scores_stay_bounded() {
    let mut history = LaunchHistory::default();
    let mut expected = 0f32;
    for n in 0..600 {
        history.increment_and_decay_at(path("/a"), n);
        expected = (expected + 1.0) * 0.95f32;
        assert_eq!(number(history.score_at(&path("/a"), 20 * DAY)), expected);
    }
    assert!(expected > 18.9 && expected <= 19.0);
    assert!(number(history.score_at(&path("/a"), 600)) <= 23.0);
}

#[test]
fn time_is_that_of_the_system() {
    let since = |t: std::time::SystemTime| {
        t.duration_since(std::time::SystemTime::UNIX_EPOCH).unwrap().as_nanos() as i128
    };
    let before = since(std::time::SystemTime::now());
    let t = now();
    let after = since(std::time::SystemTime::now());
    assert!(before <= t && t <= after);
}

#[test]
fn times_lie_on_both_sides_of_the_epoch() {
    assert_eq!(time_from_epoch(true, 0), 0);
    assert_eq!(time_from_epoch(true, 5_000_000_001), 5_000_000_001);
    assert_eq!(time_from_epoch(false, 7), -7);
    assert_eq!(time_from_epoch(true, TIME_LIMIT as u128), TIME_LIMIT);
    assert_eq!(time_from_epoch(true, u128::MAX), TIME_LIMIT);
    assert_eq!(time_from_epoch(false, u128::MAX), -TIME_LIMIT);
}

#[test]
fn launch_now_is_recent() {
    let mut history = LaunchHistory::default();
    history.increment(path("/a"));
    assert_eq!(number(history.score(&path("/a"))), 5.0);
    history.increment_and_decay(path("/a"));
    assert_eq!(number(history.score(&path("/a"))), (2f32 * 0.95) + 4.0);
}

#[test]
fn rounding_is_that_of_single_precision() {
    for n in [
        0u128,
        1,
        0xff_ffff,
        0x100_0000,
        0x100_0001,
        0x100_0002,
        0x100_0003,
        0x1ff_ffff,
        123_456_789,
        987_654_321,
        0x1234_5678_9abc,
        0xffff_ffff_ffff_ffff,
        0x1_0000_0080_0000_0000,
        0x1_0000_0180_0000_0001,
    ] {
        assert_eq!(round(n), n as f32 as u128, "{n}");
    }
    for a in [1u128, 2, 3, 100, 119, 120, 121, 12345, 0xff_ffff] {
        assert_eq!(
            round_ratio(a * ONE, 120) as f64 / ONE as f64,
            (a as f32 / 120f32) as f64,
            "{a}"
        );
    }
}
