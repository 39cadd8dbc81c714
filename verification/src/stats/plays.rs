//! The plays deep dive: totals, the H-index, play-count milestones, the
//! play-count histogram, the most played games and the recently played ones.

use crate::model::{CacheFile, CollectionItem, Timestamp};
use crate::stats::common::{cache_values, owned_boardgames_from_cache, owned_of};
use crate::stats::owned::{
    by_plays, entries_of, first_n, played, played_of, plays_total, plays_total_of, top_by_plays,
    TopEntry,
};
use crate::stats::rank::{rank, ranked_stably, Ranked};
use vstd::prelude::*;

verus! {

/// How many of the items were played at least `n` times.
pub open spec fn count_at_least(s: Seq<&CollectionItem>, n: nat) -> nat
    decreases s.len(),
{
    if s.len() == 0 {
        0
    } else {
        count_at_least(s.drop_last(), n) + if s.last().num_plays >= n {
            1nat
        } else {
            0nat
        }
    }
}

/// How many of the items were played between `lo` and `hi` times (inclusive).
pub open spec fn count_plays_between(s: Seq<&CollectionItem>, lo: u32, hi: u32) -> nat
    decreases s.len(),
{
    if s.len() == 0 {
        0
    } else {
        count_plays_between(s.drop_last(), lo, hi) + if lo <= s.last().num_plays <= hi {
            1nat
        } else {
            0nat
        }
    }
}

/// `h` is the H-index of the items: `h` of them were played at least `h`
/// times, and for no larger number does that hold.
pub open spec fn is_h_index(s: Seq<&CollectionItem>, h: nat) -> bool {
    &&& count_at_least(s, h) >= h
    &&& forall|h2: nat| h2 > h ==> #[trigger] count_at_least(s, h2) < h2
}

/// Raising the threshold never counts more items.
pub proof fn lemma_count_at_least_monotone(s: Seq<&CollectionItem>, a: nat, b: nat)
    requires
        a <= b,
    ensures
        count_at_least(s, b) <= count_at_least(s, a),
    decreases s.len(),
{
    if s.len() > 0 {
        lemma_count_at_least_monotone(s.drop_last(), a, b);
    }
}

proof fn lemma_count_at_least_bounded(s: Seq<&CollectionItem>, n: nat)
    ensures
        count_at_least(s, n) <= s.len(),
    decreases s.len(),
{
    if s.len() > 0 {
        lemma_count_at_least_bounded(s.drop_last(), n);
    }
}

proof fn lemma_count_between_bounded(s: Seq<&CollectionItem>, lo: u32, hi: u32)
    ensures
        count_plays_between(s, lo, hi) <= s.len(),
    decreases s.len(),
{
    if s.len() > 0 {
        lemma_count_between_bounded(s.drop_last(), lo, hi);
    }
}

/// The H-index of a collection is unique.
pub proof fn lemma_h_index_unique(s: Seq<&CollectionItem>, a: nat, b: nat)
    requires
        is_h_index(s, a),
        is_h_index(s, b),
    ensures
        a == b,
{
    if a < b {
        assert(count_at_least(s, b) < b);
    } else if b < a {
        assert(count_at_least(s, a) < a);
    }
}

/// How many of the items were played at least `n` times.
pub fn count_played_at_least(items: &Vec<&CollectionItem>, n: u64) -> (c: usize)
    ensures
        c == count_at_least(items@, n as nat),
{
    let mut c: usize = 0;
    let mut i: usize = 0;
    while i < items.len()
        invariant
            i <= items@.len(),
            c == count_at_least(items@.take(i as int), n as nat),
        decreases items@.len() - i,
    {
        assert(items@.take(i as int + 1).drop_last() =~= items@.take(i as int));
        proof {
            lemma_count_at_least_bounded(items@.take(i as int), n as nat);
        }
        if items[i].num_plays as u64 >= n {
            c += 1;
        }
        i += 1;
    }
    assert(items@.take(items@.len() as int) =~= items@);
    c
}

/// How many of the items were played between `lo` and `hi` times (inclusive).
pub fn count_played_between(items: &Vec<&CollectionItem>, lo: u32, hi: u32) -> (c: usize)
    ensures
        c == count_plays_between(items@, lo, hi),
{
    let mut c: usize = 0;
    let mut i: usize = 0;
    while i < items.len()
        invariant
            i <= items@.len(),
            c == count_plays_between(items@.take(i as int), lo, hi),
        decreases items@.len() - i,
    {
        assert(items@.take(i as int + 1).drop_last() =~= items@.take(i as int));
        proof {
            lemma_count_between_bounded(items@.take(i as int), lo, hi);
        }
        if lo <= items[i].num_plays && items[i].num_plays <= hi {
            c += 1;
        }
        i += 1;
    }
    assert(items@.take(items@.len() as int) =~= items@);
    c
}

/// The H-index: the largest `h` such that `h` of the items were played at
/// least `h` times.
pub fn h_index(items: &Vec<&CollectionItem>) -> (h: usize)
    ensures
        is_h_index(items@, h as nat),
{
    let mut h: usize = 0;
    let mut done = false;
    while !done && h < items.len()
        invariant
            h <= items@.len(),
            count_at_least(items@, h as nat) >= h,
            done ==> h < items@.len() && count_at_least(items@, h as nat + 1) < h + 1,
        decreases items@.len() - h + if done {
            0int
        } else {
            1int
        },
    {
        let c = count_played_at_least(items, (h + 1) as u64);
        if c >= h + 1 {
            h += 1;
        } else {
            done = true;
        }
    }
    proof {
        assert forall|h2: nat| h2 > h implies #[trigger] count_at_least(items@, h2) < h2 by {
            if done {
                lemma_count_at_least_monotone(items@, h as nat + 1, h2);
            } else {
                lemma_count_at_least_bounded(items@, h2);
            }
        }
    }
    h
}

/// The bounds of the play-count histogram's buckets.
pub open spec fn histogram_bounds() -> Seq<(u32, u32)> {
    seq![(1u32, 1u32), (2, 5), (6, 10), (11, 20), (21, 50), (51, 100), (101, u32::MAX)]
}

/// The labels of the play-count histogram's buckets.
pub open spec fn histogram_labels() -> Seq<Seq<char>> {
    seq!["1"@, "2-5"@, "6-10"@, "11-20"@, "21-50"@, "51-100"@, "100+"@]
}

/// One bar of the play-count histogram.
#[derive(Debug)]
pub struct HistogramBucket {
    pub label: String,
    pub count: usize,
}

/// The histogram counts the items in each bucket, under its label.
pub open spec fn is_histogram(h: Seq<HistogramBucket>, s: Seq<&CollectionItem>) -> bool {
    &&& h.len() == 7
    &&& forall|k: int|
        0 <= k < 7 ==> (#[trigger] h[k]).label@ == histogram_labels()[k] && h[k].count
            == count_plays_between(s, histogram_bounds()[k].0, histogram_bounds()[k].1)
}

/// The play-count histogram of the items.
pub fn histogram(items: &Vec<&CollectionItem>) -> (h: Vec<HistogramBucket>)
    ensures
        is_histogram(h@, items@),
{
    let mut h: Vec<HistogramBucket> = Vec::new();
    h.push(HistogramBucket { label: "1".to_owned(), count: count_played_between(items, 1, 1) });
    h.push(HistogramBucket { label: "2-5".to_owned(), count: count_played_between(items, 2, 5) });
    h.push(HistogramBucket { label: "6-10".to_owned(), count: count_played_between(items, 6, 10) });
    h.push(
        HistogramBucket { label: "11-20".to_owned(), count: count_played_between(items, 11, 20) },
    );
    h.push(
        HistogramBucket { label: "21-50".to_owned(), count: count_played_between(items, 21, 50) },
    );
    h.push(
        HistogramBucket { label: "51-100".to_owned(), count: count_played_between(items, 51, 100) },
    );
    h.push(
        HistogramBucket {
            label: "100+".to_owned(),
            count: count_played_between(items, 101, u32::MAX),
        },
    );
    h
}

/// A recently played game.
#[derive(Debug)]
pub struct RecentEntry {
    pub id: u32,
    pub name: String,
    pub plays: u32,
    pub last_modified: Timestamp,
}

/// The played items that carry a modification time, each ranked by it.
pub open spec fn recent_of<'a>(s: Seq<&'a CollectionItem>) -> Seq<Ranked<'a>>
    decreases s.len(),
{
    if s.len() == 0 {
        Seq::empty()
    } else {
        let prev = recent_of(s.drop_last());
        let i = s.last();
        match i.status.last_modified {
            Some(t) => if i.num_plays > 0 {
                prev.push(Ranked { item: i, score: (t.secs, t.nanos) })
            } else {
                prev
            },
            None => prev,
        }
    }
}

/// The entries name the ranked items, in order, with their plays and times.
pub open spec fn recent_entries_of(e: Seq<RecentEntry>, r: Seq<Ranked>) -> bool {
    &&& e.len() == r.len()
    &&& forall|k: int|
        0 <= k < e.len() ==> (#[trigger] e[k]).id == r[k].item.id && e[k].name@ == r[k].item.name@
            && e[k].plays == r[k].item.num_plays && e[k].last_modified == (Timestamp {
            secs: r[k].score.0,
            nanos: r[k].score.1,
        })
}

/// The played items with a modification time, ranked by it.
pub fn recent_ranking<'a>(items: &Vec<&'a CollectionItem>) -> (r: Vec<Ranked<'a>>)
    ensures
        r@ == recent_of(items@),
{
    let mut r: Vec<Ranked<'a>> = Vec::new();
    let mut i: usize = 0;
    while i < items.len()
        invariant
            i <= items@.len(),
            r@ == recent_of(items@.take(i as int)),
        decreases items@.len() - i,
    {
        assert(items@.take(i as int + 1).drop_last() =~= items@.take(i as int));
        let it = items[i];
        match it.status.last_modified {
            Some(t) => {
                if it.num_plays > 0 {
                    r.push(Ranked { item: it, score: (t.secs, t.nanos) });
                }
            },
            None => {},
        }
        i += 1;
    }
    assert(items@.take(items@.len() as int) =~= items@);
    r
}

/// Entries for the first `n` ranked items.
fn recent_entries(r: &Vec<Ranked>, n: usize) -> (e: Vec<RecentEntry>)
    ensures
        recent_entries_of(e@, first_n(r@, n as nat)),
{
    let m = if n < r.len() {
        n
    } else {
        r.len()
    };
    let mut e: Vec<RecentEntry> = Vec::new();
    let mut k: usize = 0;
    while k < m
        invariant
            m <= r@.len(),
            m == if n < r@.len() {
                n as int
            } else {
                r@.len() as int
            },
            k <= m,
            e@.len() == k,
            forall|q: int|
                0 <= q < k ==> (#[trigger] e@[q]).id == r@[q].item.id && e@[q].name@
                    == r@[q].item.name@ && e@[q].plays == r@[q].item.num_plays
                    && e@[q].last_modified == (Timestamp {
                    secs: r@[q].score.0,
                    nanos: r@[q].score.1,
                }),
        decreases m - k,
    {
        let x = &r[k];
        e.push(
            RecentEntry {
                id: x.item.id,
                name: x.item.name.clone(),
                plays: x.item.num_plays,
                last_modified: Timestamp { secs: x.score.0, nanos: x.score.1 },
            },
        );
        k += 1;
    }
    e
}

/// The most recently modified played games, newest first (ties by name), at most `n`.
pub fn recent_plays(items: &Vec<&CollectionItem>, n: usize) -> (e: Vec<RecentEntry>)
    ensures
        exists|sorted: Seq<Ranked>, p: Seq<int>|
            ranked_stably(recent_of(items@), sorted, p, true) && recent_entries_of(
                e@,
                first_n(sorted, n as nat),
            ),
{
    let ranked = rank(&recent_ranking(items), true);
    recent_entries(&ranked, n)
}

/// The plays deep dive (the average per owned game is floating point and
/// is computed from `total` and the counts).
#[derive(Debug)]
pub struct PlaysReport {
    pub total: u64,
    pub played_count: usize,
    pub unplayed_count: usize,
    pub h_index: usize,
    pub dimes: usize,
    pub nickels: usize,
    pub quarters: usize,
    pub histogram: Vec<HistogramBucket>,
    pub top_plays: Vec<TopEntry>,
    pub recent_plays: Vec<RecentEntry>,
}

/// What the plays deep dive states of the owned base games of the cache.
pub open spec fn plays_report_of(cache: &CacheFile, r: PlaysReport) -> bool {
    let o = owned_of(cache_values(cache));
    let pl = played_of(o);
    &&& r.total == plays_total_of(o)
    &&& r.played_count == pl.len()
    &&& r.unplayed_count == o.len() - pl.len()
    &&& is_h_index(pl, r.h_index as nat)
    &&& r.dimes == count_at_least(pl, 10)
    &&& r.nickels == count_at_least(pl, 5)
    &&& r.quarters == count_at_least(pl, 25)
    &&& is_histogram(r.histogram@, pl)
    &&& exists|sorted: Seq<Ranked>, p: Seq<int>|
        ranked_stably(by_plays(pl), sorted, p, true) && entries_of(r.top_plays@, first_n(sorted, 20))
    &&& exists|sorted: Seq<Ranked>, p: Seq<int>|
        ranked_stably(recent_of(o), sorted, p, true) && recent_entries_of(
            r.recent_plays@,
            first_n(sorted, 20),
        )
}

proof fn lemma_played_len(s: Seq<&CollectionItem>)
    ensures
        played_of(s).len() <= s.len(),
    decreases s.len(),
{
    if s.len() > 0 {
        lemma_played_len(s.drop_last());
    }
}

/// The plays deep dive of the cache's owned base games.
pub fn build(cache: &CacheFile) -> (r: PlaysReport)
    requires
        plays_total_of(owned_of(cache_values(cache))) <= u64::MAX,
    ensures
        plays_report_of(cache, r),
{
    let owned = owned_boardgames_from_cache(cache);
    let played_items = played(&owned);
    proof {
        lemma_played_len(owned@);
    }
    PlaysReport {
        total: plays_total(&owned),
        played_count: played_items.len(),
        unplayed_count: owned.len() - played_items.len(),
        h_index: h_index(&played_items),
        dimes: count_played_at_least(&played_items, 10),
        nickels: count_played_at_least(&played_items, 5),
        quarters: count_played_at_least(&played_items, 25),
        histogram: histogram(&played_items),
        top_plays: top_by_plays(&played_items, 20),
        recent_plays: recent_plays(&owned, 20),
    }
}

} // verus!
