//! The playing-time deep dive: the average, the games in each length
//! bucket, all timed games by length, a histogram in quarter hours, and a
//! random pick per bucket.

use crate::model::{CacheFile, CollectionItem};
use crate::stats::common::{
    cache_values, owned_boardgames_from_cache, owned_of, playing_times, playing_times_of,
    random_index,
};
use crate::stats::owned::{
    average_minutes, average_minutes_of, count_time_between, count_times_between, entries_of,
    first_n, top_entries, TopEntry,
};
use crate::stats::rank::{rank, ranked_stably, Ranked};
use vstd::prelude::*;

verus! {

/// The playing time first listed for the game `id`, if any.
pub open spec fn first_time_of(s: Seq<(&CollectionItem, u32)>, id: u32) -> Option<u32>
    decreases s.len(),
{
    if s.len() == 0 {
        None
    } else if s[0].0.id == id {
        Some(s[0].1)
    } else {
        first_time_of(s.drop_first(), id)
    }
}

/// The time a bucket entry shows and is ordered by: the first time listed
/// for its game, or zero.
pub open spec fn listed_time(s: Seq<(&CollectionItem, u32)>, id: u32) -> u32 {
    match first_time_of(s, id) {
        Some(t) => t,
        None => 0,
    }
}

/// The timed games whose time lies in `lo..=hi`, in order.
pub open spec fn bucket_items<'a>(s: Seq<(&'a CollectionItem, u32)>, lo: u32, hi: u32) -> Seq<
    &'a CollectionItem,
>
    decreases s.len(),
{
    if s.len() == 0 {
        Seq::empty()
    } else {
        let prev = bucket_items(s.drop_last(), lo, hi);
        if lo <= s.last().1 <= hi {
            prev.push(s.last().0)
        } else {
            prev
        }
    }
}

/// The games of a bucket each ranked by their listed time.
pub open spec fn bucket_ranking<'a>(s: Seq<(&'a CollectionItem, u32)>, items: Seq<&'a CollectionItem>) -> Seq<
    Ranked<'a>,
> {
    Seq::new(
        items.len(),
        |k: int| Ranked { item: items[k], score: (listed_time(s, items[k].id) as i64, 0u32) },
    )
}

/// The listed time of the game `id`.
pub fn listed_time_exec(s: &Vec<(&CollectionItem, u32)>, id: u32) -> (t: u32)
    ensures
        t == listed_time(s@, id),
{
    let mut i: usize = 0;
    assert(s@.subrange(0, s@.len() as int) =~= s@);
    while i < s.len()
        invariant
            i <= s@.len(),
            first_time_of(s@, id) == first_time_of(s@.subrange(i as int, s@.len() as int), id),
        decreases s@.len() - i,
    {
        assert(s@.subrange(i as int, s@.len() as int).drop_first() =~= s@.subrange(
            i as int + 1,
            s@.len() as int,
        ));
        assert(s@.subrange(i as int, s@.len() as int)[0] == s@[i as int]);
        if s[i].0.id == id {
            return s[i].1;
        }
        i += 1;
    }
    0
}

/// The timed games whose time lies in `lo..=hi`, in order.
pub fn bucket<'a>(s: &Vec<(&'a CollectionItem, u32)>, lo: u32, hi: u32) -> (r: Vec<&'a CollectionItem>)
    ensures
        r@ == bucket_items(s@, lo, hi),
{
    let mut r: Vec<&'a CollectionItem> = Vec::new();
    let mut i: usize = 0;
    while i < s.len()
        invariant
            i <= s@.len(),
            r@ == bucket_items(s@.take(i as int), lo, hi),
        decreases s@.len() - i,
    {
        assert(s@.take(i as int + 1).drop_last() =~= s@.take(i as int));
        if lo <= s[i].1 && s[i].1 <= hi {
            r.push(s[i].0);
        }
        i += 1;
    }
    assert(s@.take(s@.len() as int) =~= s@);
    r
}

/// The games of a bucket, shortest first (ties by name), each with its listed time.
pub fn bucket_entries(s: &Vec<(&CollectionItem, u32)>, lo: u32, hi: u32) -> (e: Vec<TopEntry>)
    ensures
        exists|sorted: Seq<Ranked>, p: Seq<int>|
            ranked_stably(bucket_ranking(s@, bucket_items(s@, lo, hi)), sorted, p, false)
                && entries_of(e@, sorted),
{
    let items = bucket(s, lo, hi);
    let mut input: Vec<Ranked> = Vec::new();
    let mut i: usize = 0;
    while i < items.len()
        invariant
            i <= items@.len(),
            input@.len() == i,
            forall|k: int| 0 <= k < i ==> #[trigger] input@[k] == bucket_ranking(s@, items@)[k],
        decreases items@.len() - i,
    {
        let t = listed_time_exec(s, items[i].id);
        input.push(Ranked { item: items[i], score: (t as i64, 0) });
        i += 1;
    }
    assert(input@ =~= bucket_ranking(s@, items@));
    let ranked = rank(&input, false);
    let e = top_entries(&ranked, ranked.len());
    assert(first_n(ranked@, ranked@.len() as nat) == ranked@);
    e
}

/// The timed games each ranked by their own time.
pub open spec fn time_ranking<'a>(s: Seq<(&'a CollectionItem, u32)>) -> Seq<Ranked<'a>> {
    Seq::new(s.len(), |k: int| Ranked { item: s[k].0, score: (s[k].1 as i64, 0u32) })
}

/// All timed games, shortest first (ties by name).
pub fn sorted_by_time(s: &Vec<(&CollectionItem, u32)>) -> (e: Vec<TopEntry>)
    ensures
        exists|sorted: Seq<Ranked>, p: Seq<int>|
            ranked_stably(time_ranking(s@), sorted, p, false) && entries_of(e@, sorted),
{
    let mut input: Vec<Ranked> = Vec::new();
    let mut i: usize = 0;
    while i < s.len()
        invariant
            i <= s@.len(),
            input@.len() == i,
            forall|k: int| 0 <= k < i ==> #[trigger] input@[k] == time_ranking(s@)[k],
        decreases s@.len() - i,
    {
        input.push(Ranked { item: s[i].0, score: (s[i].1 as i64, 0) });
        i += 1;
    }
    assert(input@ =~= time_ranking(s@));
    let ranked = rank(&input, false);
    let e = top_entries(&ranked, ranked.len());
    assert(first_n(ranked@, ranked@.len() as nat) == ranked@);
    e
}

/// The bounds of the duration histogram's buckets.
pub open spec fn duration_bounds() -> Seq<(u32, u32)> {
    seq![
        (1u32, 15u32),
        (16, 30),
        (31, 45),
        (46, 60),
        (61, 90),
        (91, 120),
        (121, 180),
        (181, 240),
        (241, u32::MAX),
    ]
}

/// The labels of the duration histogram's buckets.
pub open spec fn duration_labels() -> Seq<Seq<char>> {
    seq![
        "1-15m"@,
        "16-30m"@,
        "31-45m"@,
        "46-60m"@,
        "61-90m"@,
        "91-120m"@,
        "121-180m"@,
        "181-240m"@,
        "240m+"@,
    ]
}

/// Duration bucket `k`: its bounds and its label.
pub fn duration_bucket(k: usize) -> (r: (u32, u32, &'static str))
    requires
        k < 9,
    ensures
        (r.0, r.1) == duration_bounds()[k as int],
        r.2@ == duration_labels()[k as int],
{
    match k {
        0 => (1, 15, "1-15m"),
        1 => (16, 30, "16-30m"),
        2 => (31, 45, "31-45m"),
        3 => (46, 60, "46-60m"),
        4 => (61, 90, "61-90m"),
        5 => (91, 120, "91-120m"),
        6 => (121, 180, "121-180m"),
        7 => (181, 240, "181-240m"),
        _ => (241, u32::MAX, "240m+"),
    }
}

/// One bar of the duration histogram.
#[derive(Debug)]
pub struct DurationBucket {
    pub label: String,
    pub count: usize,
}

/// The histogram counts the timed games in each bucket, under its label.
pub open spec fn is_duration_histogram(h: Seq<DurationBucket>, s: Seq<(&CollectionItem, u32)>) -> bool {
    &&& h.len() == 9
    &&& forall|k: int|
        0 <= k < 9 ==> (#[trigger] h[k]).label@ == duration_labels()[k] && h[k].count
            == count_time_between(s, duration_bounds()[k].0, duration_bounds()[k].1)
}

/// The duration histogram of the timed games.
pub fn duration_histogram(s: &Vec<(&CollectionItem, u32)>) -> (h: Vec<DurationBucket>)
    ensures
        is_duration_histogram(h@, s@),
{
    let mut h: Vec<DurationBucket> = Vec::new();
    let mut k: usize = 0;
    while k < 9
        invariant
            k <= 9,
            h@.len() == k,
            forall|j: int|
                0 <= j < k ==> (#[trigger] h@[j]).label@ == duration_labels()[j] && h@[j].count
                    == count_time_between(s@, duration_bounds()[j].0, duration_bounds()[j].1),
        decreases 9 - k,
    {
        let (lo, hi, label) = duration_bucket(k);
        h.push(DurationBucket { label: label.to_owned(), count: count_times_between(s, lo, hi) });
        k += 1;
    }
    h
}

/// The playing-time deep dive.
#[derive(Debug)]
pub struct TimeReport {
    pub avg_minutes: Option<u32>,
    pub quick_under_30: Vec<TopEntry>,
    pub medium_30_to_89: Vec<TopEntry>,
    pub long_90_to_180: Vec<TopEntry>,
    pub epic_over_180: Vec<TopEntry>,
    pub sorted: Vec<TopEntry>,
    pub histogram: Vec<DurationBucket>,
}

/// `e` lists the bucket `lo..=hi` of `s`, shortest first.
pub open spec fn is_bucket_list(e: Seq<TopEntry>, s: Seq<(&CollectionItem, u32)>, lo: u32, hi: u32) -> bool {
    exists|sorted: Seq<Ranked>, p: Seq<int>|
        ranked_stably(bucket_ranking(s, bucket_items(s, lo, hi)), sorted, p, false) && entries_of(
            e,
            sorted,
        )
}

/// What the playing-time deep dive states of the owned base games of the cache.
pub open spec fn time_report_of(cache: &CacheFile, r: TimeReport) -> bool {
    let ts = playing_times_of(owned_of(cache_values(cache)));
    &&& r.avg_minutes == average_minutes_of(ts)
    &&& is_bucket_list(r.quick_under_30@, ts, 0, 29)
    &&& is_bucket_list(r.medium_30_to_89@, ts, 30, 89)
    &&& is_bucket_list(r.long_90_to_180@, ts, 90, 180)
    &&& is_bucket_list(r.epic_over_180@, ts, 181, u32::MAX)
    &&& exists|sorted: Seq<Ranked>, p: Seq<int>|
        ranked_stably(time_ranking(ts), sorted, p, false) && entries_of(r.sorted@, sorted)
    &&& is_duration_histogram(r.histogram@, ts)
}

/// The playing-time deep dive of the cache's owned base games.
pub fn build(cache: &CacheFile) -> (r: TimeReport)
    ensures
        time_report_of(cache, r),
{
    let owned = owned_boardgames_from_cache(cache);
    let with_time = playing_times(&owned);
    TimeReport {
        avg_minutes: average_minutes(&with_time),
        quick_under_30: bucket_entries(&with_time, 0, 29),
        medium_30_to_89: bucket_entries(&with_time, 30, 89),
        long_90_to_180: bucket_entries(&with_time, 90, 180),
        epic_over_180: bucket_entries(&with_time, 181, u32::MAX),
        sorted: sorted_by_time(&with_time),
        histogram: duration_histogram(&with_time),
    }
}

/// The labels under which the length buckets get a random pick.
pub open spec fn bucket_pick_labels() -> Seq<Seq<char>> {
    seq!["Quick (<30m)"@, "Medium (30-89m)"@, "Long (90-180m)"@, "Epic (>180m)"@]
}

/// The length buckets of a report, in order.
pub open spec fn report_buckets(r: TimeReport) -> Seq<Seq<TopEntry>> {
    seq![r.quick_under_30@, r.medium_30_to_89@, r.long_90_to_180@, r.epic_over_180@]
}

/// The buckets, among the first `k`, that hold more than one game.
pub open spec fn pickable_buckets(r: TimeReport, k: nat) -> Seq<int>
    decreases k,
{
    if k == 0 {
        Seq::empty()
    } else {
        let prev = pickable_buckets(r, (k - 1) as nat);
        if report_buckets(r)[k - 1].len() > 1 {
            prev.push(k - 1)
        } else {
            prev
        }
    }
}

/// The picks name, in order, each bucket that holds more than one game,
/// with a position in that bucket.
pub open spec fn is_bucket_picks(picks: Seq<(usize, usize)>, r: TimeReport) -> bool {
    let bs = pickable_buckets(r, 4);
    &&& picks.len() == bs.len()
    &&& forall|j: int|
        0 <= j < picks.len() ==> (#[trigger] picks[j]).0 == bs[j] && picks[j].1
            < report_buckets(r)[bs[j]].len()
}

/// The bucket pick label `k`.
pub fn bucket_pick_label(k: usize) -> (l: &'static str)
    requires
        k < 4,
    ensures
        l@ == bucket_pick_labels()[k as int],
{
    match k {
        0 => "Quick (<30m)",
        1 => "Medium (30-89m)",
        2 => "Long (90-180m)",
        _ => "Epic (>180m)",
    }
}

/// A random pick of one game per length bucket that holds more than one,
/// drawn from `seed` and the bucket's label: each pick is a bucket number
/// (0 quick .. 3 epic) and a position in that bucket.
pub fn bucket_picks(r: &TimeReport, seed: u64) -> (picks: Vec<(usize, usize)>)
    ensures
        is_bucket_picks(picks@, *r),
{
    let mut picks: Vec<(usize, usize)> = Vec::new();
    let mut k: usize = 0;
    while k < 4
        invariant
            k <= 4,
            picks@.len() == pickable_buckets(*r, k as nat).len(),
            forall|j: int|
                0 <= j < picks@.len() ==> (#[trigger] picks@[j]).0 == pickable_buckets(
                    *r,
                    k as nat,
                )[j] && picks@[j].1 < report_buckets(*r)[pickable_buckets(*r, k as nat)[j]].len(),
        decreases 4 - k,
    {
        let len = if k == 0 {
            r.quick_under_30.len()
        } else if k == 1 {
            r.medium_30_to_89.len()
        } else if k == 2 {
            r.long_90_to_180.len()
        } else {
            r.epic_over_180.len()
        };
        assert(len == report_buckets(*r)[k as int].len());
        if len > 1 {
            match random_index(seed, bucket_pick_label(k), len) {
                Some(idx) => picks.push((k, idx)),
                None => {},
            }
        }
        k += 1;
    }
    picks
}

} // verus!
