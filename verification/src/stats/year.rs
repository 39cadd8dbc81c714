//! The year-published deep dive: the oldest and newest games, counts per
//! year and per decade, all dated games by year, the span the year chart
//! shows, and a random pick per decade.

use crate::model::{CacheFile, CollectionItem};
use crate::stats::common::{
    cache_values, owned_boardgames_from_cache, owned_of, published_years, published_years_of,
    random_index,
};
use crate::stats::owned::{
    count_by_year, dated_entry_matches, entries_of, first_n, is_year_count, newest_of, oldest_newest,
    oldest_of, top_entries, trim_outlier_years, trimmed_years, year_total, TopEntry,
};
use crate::stats::rank::{rank, ranked_stably, Ranked};
use vstd::prelude::*;

verus! {

/// The share of dated games, per mille, that the year chart may leave out
/// at its two ends together.
pub const CHART_DROP_PER_MILLE: u32 = 20;

/// The year spans of the decade buckets.
pub open spec fn decade_bounds() -> Seq<(i32, i32)> {
    seq![
        (0i32, 1969i32),
        (1970, 1979),
        (1980, 1989),
        (1990, 1999),
        (2000, 2009),
        (2010, 2019),
        (2020, i32::MAX),
    ]
}

/// The labels of the decade buckets.
pub open spec fn decade_labels() -> Seq<Seq<char>> {
    seq!["< 1970"@, "1970s"@, "1980s"@, "1990s"@, "2000s"@, "2010s"@, "2020s"@]
}

/// Decade bucket `k`: its span and its label.
pub fn decade_bucket(k: usize) -> (r: (i32, i32, &'static str))
    requires
        k < 7,
    ensures
        (r.0, r.1) == decade_bounds()[k as int],
        r.2@ == decade_labels()[k as int],
{
    match k {
        0 => (0, 1969, "< 1970"),
        1 => (1970, 1979, "1970s"),
        2 => (1980, 1989, "1980s"),
        3 => (1990, 1999, "1990s"),
        4 => (2000, 2009, "2000s"),
        5 => (2010, 2019, "2010s"),
        _ => (2020, i32::MAX, "2020s"),
    }
}

/// How many of the dated games were published between `lo` and `hi`.
pub open spec fn count_years_between(s: Seq<(&CollectionItem, i32)>, lo: i32, hi: i32) -> nat
    decreases s.len(),
{
    if s.len() == 0 {
        0
    } else {
        count_years_between(s.drop_last(), lo, hi) + if lo <= s.last().1 <= hi {
            1nat
        } else {
            0nat
        }
    }
}

proof fn lemma_count_years_bounded(s: Seq<(&CollectionItem, i32)>, lo: i32, hi: i32)
    ensures
        count_years_between(s, lo, hi) <= s.len(),
    decreases s.len(),
{
    if s.len() > 0 {
        lemma_count_years_bounded(s.drop_last(), lo, hi);
    }
}

/// How many of the dated games were published between `lo` and `hi`.
pub fn count_published_between(s: &Vec<(&CollectionItem, i32)>, lo: i32, hi: i32) -> (c: usize)
    ensures
        c == count_years_between(s@, lo, hi),
{
    let mut c: usize = 0;
    let mut i: usize = 0;
    while i < s.len()
        invariant
            i <= s@.len(),
            c == count_years_between(s@.take(i as int), lo, hi),
        decreases s@.len() - i,
    {
        assert(s@.take(i as int + 1).drop_last() =~= s@.take(i as int));
        proof {
            lemma_count_years_bounded(s@.take(i as int), lo, hi);
        }
        if lo <= s[i].1 && s[i].1 <= hi {
            c += 1;
        }
        i += 1;
    }
    assert(s@.take(s@.len() as int) =~= s@);
    c
}

/// The non-empty decades among the first `k`, in order, with their counts.
pub open spec fn decade_rows(s: Seq<(&CollectionItem, i32)>, k: nat) -> Seq<(Seq<char>, nat)>
    decreases k,
{
    if k == 0 {
        Seq::empty()
    } else {
        let prev = decade_rows(s, (k - 1) as nat);
        let (lo, hi) = decade_bounds()[k - 1];
        let c = count_years_between(s, lo, hi);
        if c > 0 {
            prev.push((decade_labels()[k - 1], c))
        } else {
            prev
        }
    }
}

/// One bar of the per-decade summary.
#[derive(Debug)]
pub struct DecadeBucket {
    pub label: String,
    pub count: usize,
}

/// The buckets are the non-empty decades, in order, with their counts.
pub open spec fn is_by_decade(b: Seq<DecadeBucket>, s: Seq<(&CollectionItem, i32)>) -> bool {
    let rows = decade_rows(s, 7);
    &&& b.len() == rows.len()
    &&& forall|j: int|
        0 <= j < b.len() ==> (#[trigger] b[j]).label@ == rows[j].0 && b[j].count == rows[j].1
}

/// The per-decade summary of the dated games: the decades that have any.
pub fn by_decade(s: &Vec<(&CollectionItem, i32)>) -> (b: Vec<DecadeBucket>)
    ensures
        is_by_decade(b@, s@),
{
    let mut b: Vec<DecadeBucket> = Vec::new();
    let mut k: usize = 0;
    while k < 7
        invariant
            k <= 7,
            b@.len() == decade_rows(s@, k as nat).len(),
            forall|j: int|
                0 <= j < b@.len() ==> (#[trigger] b@[j]).label@ == decade_rows(s@, k as nat)[j].0
                    && b@[j].count == decade_rows(s@, k as nat)[j].1,
        decreases 7 - k,
    {
        let (lo, hi, label) = decade_bucket(k);
        let c = count_published_between(s, lo, hi);
        if c > 0 {
            b.push(DecadeBucket { label: label.to_owned(), count: c });
        }
        k += 1;
    }
    b
}

/// The dated games each ranked by year.
pub open spec fn by_year_ranking<'a>(s: Seq<(&'a CollectionItem, i32)>) -> Seq<Ranked<'a>> {
    Seq::new(s.len(), |k: int| Ranked { item: s[k].0, score: (s[k].1 as i64, 0u32) })
}

fn year_ranking<'a>(s: &Vec<(&'a CollectionItem, i32)>) -> (r: Vec<Ranked<'a>>)
    ensures
        r@ == by_year_ranking(s@),
{
    let mut r: Vec<Ranked<'a>> = Vec::new();
    let mut i: usize = 0;
    while i < s.len()
        invariant
            i <= s@.len(),
            r@.len() == i,
            forall|k: int| 0 <= k < i ==> #[trigger] r@[k] == by_year_ranking(s@)[k],
        decreases s@.len() - i,
    {
        r.push(Ranked { item: s[i].0, score: (s[i].1 as i64, 0) });
        i += 1;
    }
    assert(r@ =~= by_year_ranking(s@));
    r
}

/// All dated games, oldest first (ties by name).
pub fn sorted_by_year(s: &Vec<(&CollectionItem, i32)>) -> (e: Vec<TopEntry>)
    ensures
        exists|sorted: Seq<Ranked>, p: Seq<int>|
            ranked_stably(by_year_ranking(s@), sorted, p, false) && entries_of(e@, sorted),
{
    let ranked = rank(&year_ranking(s), false);
    let e = top_entries(&ranked, ranked.len());
    assert(first_n(ranked@, ranked@.len() as nat) == ranked@);
    e
}

/// The year-published deep dive.
#[derive(Debug)]
pub struct YearReport {
    pub oldest: Option<TopEntry>,
    pub newest: Option<TopEntry>,
    pub by_year: Vec<(i32, usize)>,
    pub by_decade: Vec<DecadeBucket>,
    pub sorted: Vec<TopEntry>,
    /// The span of years the chart shows.
    pub chart_range: Option<(i32, i32)>,
}

/// What the year deep dive states of the owned base games of the cache.
pub open spec fn year_report_of(cache: &CacheFile, r: YearReport) -> bool {
    let ys = published_years_of(owned_of(cache_values(cache)));
    &&& dated_entry_matches(r.oldest, oldest_of(ys))
    &&& dated_entry_matches(r.newest, newest_of(ys))
    &&& is_year_count(r.by_year@, ys)
    &&& is_by_decade(r.by_decade@, ys)
    &&& exists|sorted: Seq<Ranked>, p: Seq<int>|
        ranked_stably(by_year_ranking(ys), sorted, p, false) && entries_of(r.sorted@, sorted)
    &&& r.chart_range == trimmed_years(r.by_year@, CHART_DROP_PER_MILLE as nat)
}

/// The year deep dive of the cache's owned base games.
pub fn build(cache: &CacheFile) -> (r: YearReport)
    ensures
        year_report_of(cache, r),
{
    let owned = owned_boardgames_from_cache(cache);
    let with_year = published_years(&owned);
    let (oldest, newest) = oldest_newest(&with_year);
    let by_year = count_by_year(&with_year);
    let dated = with_year.len();
    assert(year_total(by_year@) == dated);
    let chart_range = trim_outlier_years(&by_year, CHART_DROP_PER_MILLE);
    YearReport {
        oldest,
        newest,
        by_year,
        by_decade: by_decade(&with_year),
        sorted: sorted_by_year(&with_year),
        chart_range,
    }
}

/// The positions in `sorted` of the games published between `lo` and `hi`.
pub open spec fn entries_between(sorted: Seq<TopEntry>, lo: i32, hi: i32) -> Seq<int>
    decreases sorted.len(),
{
    if sorted.len() == 0 {
        Seq::empty()
    } else {
        let prev = entries_between(sorted.drop_last(), lo, hi);
        if lo <= sorted.last().value <= hi {
            prev.push(sorted.len() - 1)
        } else {
            prev
        }
    }
}

/// The decades, among the first `k`, that hold more than one game.
pub open spec fn pickable_decades(sorted: Seq<TopEntry>, k: nat) -> Seq<int>
    decreases k,
{
    if k == 0 {
        Seq::empty()
    } else {
        let prev = pickable_decades(sorted, (k - 1) as nat);
        let (lo, hi) = decade_bounds()[k - 1];
        if entries_between(sorted, lo, hi).len() > 1 {
            prev.push(k - 1)
        } else {
            prev
        }
    }
}

/// The picks name, in order, each decade that holds more than one game,
/// with the position of one game of that decade.
pub open spec fn is_decade_picks(picks: Seq<(String, usize)>, sorted: Seq<TopEntry>) -> bool {
    let ds = pickable_decades(sorted, 7);
    &&& picks.len() == ds.len()
    &&& forall|j: int|
        0 <= j < picks.len() ==> (#[trigger] picks[j]).0@ == decade_labels()[ds[j]] && picks[j].1
            < sorted.len() && decade_bounds()[ds[j]].0 <= sorted[picks[j].1 as int].value
            <= decade_bounds()[ds[j]].1
}

proof fn lemma_entries_between(sorted: Seq<TopEntry>, lo: i32, hi: i32)
    ensures
        entries_between(sorted, lo, hi).len() <= sorted.len(),
        forall|j: int|
            0 <= j < entries_between(sorted, lo, hi).len() ==> 0 <= #[trigger] entries_between(
                sorted,
                lo,
                hi,
            )[j] < sorted.len() && lo <= sorted[entries_between(sorted, lo, hi)[j]].value <= hi,
    decreases sorted.len(),
{
    if sorted.len() > 0 {
        lemma_entries_between(sorted.drop_last(), lo, hi);
        let prev = entries_between(sorted.drop_last(), lo, hi);
        assert forall|j: int| 0 <= j < prev.len() implies sorted[prev[j]]
            == sorted.drop_last()[prev[j]] by {}
    }
}

fn positions_between(sorted: &Vec<TopEntry>, lo: i32, hi: i32) -> (r: Vec<usize>)
    ensures
        r@.len() == entries_between(sorted@, lo, hi).len(),
        forall|j: int| 0 <= j < r@.len() ==> #[trigger] r@[j] as int == entries_between(sorted@, lo, hi)[j],
{
    let mut r: Vec<usize> = Vec::new();
    let mut i: usize = 0;
    while i < sorted.len()
        invariant
            i <= sorted@.len(),
            r@.len() == entries_between(sorted@.take(i as int), lo, hi).len(),
            forall|j: int|
                0 <= j < r@.len() ==> #[trigger] r@[j] as int == entries_between(
                    sorted@.take(i as int),
                    lo,
                    hi,
                )[j],
        decreases sorted@.len() - i,
    {
        assert(sorted@.take(i as int + 1).drop_last() =~= sorted@.take(i as int));
        if lo as i64 <= sorted[i].value && sorted[i].value <= hi as i64 {
            r.push(i);
        }
        i += 1;
    }
    assert(sorted@.take(sorted@.len() as int) =~= sorted@);
    r
}

/// A random pick of one game per decade that holds more than one, drawn
/// from `seed` and the decade's label.
pub fn decade_picks(sorted: &Vec<TopEntry>, seed: u64) -> (picks: Vec<(String, usize)>)
    ensures
        is_decade_picks(picks@, sorted@),
{
    let mut picks: Vec<(String, usize)> = Vec::new();
    let mut k: usize = 0;
    while k < 7
        invariant
            k <= 7,
            picks@.len() == pickable_decades(sorted@, k as nat).len(),
            forall|j: int|
                0 <= j < picks@.len() ==> (#[trigger] picks@[j]).0@ == decade_labels()[pickable_decades(
                    sorted@,
                    k as nat,
                )[j]] && picks@[j].1 < sorted@.len() && decade_bounds()[pickable_decades(
                    sorted@,
                    k as nat,
                )[j]].0 <= sorted@[picks@[j].1 as int].value <= decade_bounds()[pickable_decades(
                    sorted@,
                    k as nat,
                )[j]].1,
        decreases 7 - k,
    {
        let (lo, hi, label) = decade_bucket(k);
        let games = positions_between(sorted, lo, hi);
        proof {
            lemma_entries_between(sorted@, lo, hi);
        }
        if games.len() > 1 {
            match random_index(seed, label, games.len()) {
                Some(idx) => {
                    let g = games[idx];
                    proof {
                        assert(g as int == entries_between(sorted@, lo, hi)[idx as int]);
                    }
                    picks.push((label.to_owned(), g));
                },
                None => {},
            }
        }
        k += 1;
    }
    picks
}

/// The count kept for year `y`: the count of the first pair with that year,
/// or zero when there is none.
pub open spec fn count_for_year(by_year: Seq<(i32, usize)>, y: int) -> nat
    decreases by_year.len(),
{
    if by_year.len() == 0 {
        0
    } else if by_year[0].0 == y {
        by_year[0].1 as nat
    } else {
        count_for_year(by_year.drop_first(), y)
    }
}

fn count_for_year_exec(by_year: &Vec<(i32, usize)>, y: i32) -> (c: usize)
    ensures
        c == count_for_year(by_year@, y as int),
{
    let mut k: usize = 0;
    assert(by_year@.skip(0) =~= by_year@);
    while k < by_year.len()
        invariant
            k <= by_year@.len(),
            count_for_year(by_year@.skip(k as int), y as int) == count_for_year(by_year@, y as int),
        decreases by_year@.len() - k,
    {
        assert(by_year@.skip(k as int).drop_first() =~= by_year@.skip(k as int + 1));
        if by_year[k].0 == y {
            return by_year[k].1;
        }
        k += 1;
    }
    proof {
        assert(by_year@.skip(k as int).len() == 0);
    }
    0
}

/// The counts of every year from `lo` to `hi`, both included, zero for the
/// years without games: the columns of the year chart.
pub fn dense_years(by_year: &Vec<(i32, usize)>, lo: i32, hi: i32) -> (d: Vec<usize>)
    requires
        hi - lo < usize::MAX,
    ensures
        lo <= hi ==> d@.len() == hi - lo + 1,
        hi < lo ==> d@.len() == 0,
        forall|k: int| 0 <= k < d@.len() ==> d@[k] == count_for_year(by_year@, lo + k),
{
    let mut d: Vec<usize> = Vec::new();
    if hi < lo {
        return d;
    }
    let mut y: i64 = lo as i64;
    while y <= hi as i64
        invariant
            lo <= y <= hi as i64 + 1,
            lo <= hi,
            d@.len() == y - lo,
            forall|k: int| 0 <= k < d@.len() ==> d@[k] == count_for_year(by_year@, lo + k),
        decreases hi as i64 + 1 - y,
    {
        let c = count_for_year_exec(by_year, y as i32);
        d.push(c);
        y += 1;
    }
    d
}

} // verus!
