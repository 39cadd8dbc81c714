//! The deep dives agree with the overview: the headline figures that both
//! show are the same figures.

use crate::model::{CacheFile, CollectionItem};
use crate::stats::common::cache_values;
use crate::stats::owned::{count_time_between, is_year_count, overview_of, OwnedStats};
use crate::stats::players::{players_report_of, PlayersReport};
use crate::stats::plays::{plays_report_of, PlaysReport};
use crate::stats::ratings::{ratings_report_of, RatingsReport};
use crate::stats::tally::key_count;
use crate::stats::time::{bucket_items, is_bucket_list, time_report_of, TimeReport};
use crate::stats::year::{year_report_of, YearReport};
use crate::stats::owned::TopEntry;
use vstd::prelude::*;

verus! {

/// Two optional entries name the same game with the same value.
pub open spec fn same_entry(a: Option<TopEntry>, b: Option<TopEntry>) -> bool {
    match (a, b) {
        (None, None) => true,
        (Some(x), Some(y)) => x.id == y.id && x.name@ == y.name@ && x.value == y.value,
        _ => false,
    }
}

proof fn lemma_sorted_unique(a: Seq<i32>, b: Seq<i32>)
    requires
        forall|i: int, j: int| 0 <= i < j < a.len() ==> #[trigger] a[i] < #[trigger] a[j],
        forall|i: int, j: int| 0 <= i < j < b.len() ==> #[trigger] b[i] < #[trigger] b[j],
        forall|x: i32| #[trigger] a.contains(x) <==> b.contains(x),
    ensures
        a == b,
    decreases a.len(),
{
    if a.len() == 0 {
        if b.len() > 0 {
            assert(b.contains(b[0]));
            assert(a.contains(b[0]));
        }
        assert(a =~= b);
    } else {
        assert(a.contains(a[0]));
        assert(b.contains(a[0]));
        assert(b.len() > 0);
        assert(b.contains(b[0]));
        assert(a.contains(b[0]));
        let k = choose|k: int| 0 <= k < b.len() && b[k] == a[0];
        let m = choose|m: int| 0 <= m < a.len() && a[m] == b[0];
        assert(a[0] <= a[m]) by {
            if m > 0 {
                assert(a[0] < a[m]);
            }
        }
        assert(b[0] <= b[k]) by {
            if k > 0 {
                assert(b[0] < b[k]);
            }
        }
        assert(a[0] == b[0]);
        let (a2, b2) = (a.drop_first(), b.drop_first());
        assert forall|i: int, j: int| 0 <= i < j < a2.len() implies #[trigger] a2[i] < #[trigger] a2[j] by {
            assert(a[i + 1] < a[j + 1]);
        }
        assert forall|i: int, j: int| 0 <= i < j < b2.len() implies #[trigger] b2[i] < #[trigger] b2[j] by {
            assert(b[i + 1] < b[j + 1]);
        }
        assert forall|x: i32| #[trigger] a2.contains(x) <==> b2.contains(x) by {
            if a2.contains(x) {
                let i = choose|i: int| 0 <= i < a2.len() && a2[i] == x;
                assert(a[i + 1] == x);
                assert(a[0] < a[i + 1]);
                assert(a.contains(x));
                assert(b.contains(x));
                let j = choose|j: int| 0 <= j < b.len() && b[j] == x;
                assert(j != 0);
                assert(b2[j - 1] == x);
            }
            if b2.contains(x) {
                let i = choose|i: int| 0 <= i < b2.len() && b2[i] == x;
                assert(b[i + 1] == x);
                assert(b[0] < b[i + 1]);
                assert(b.contains(x));
                assert(a.contains(x));
                let j = choose|j: int| 0 <= j < a.len() && a[j] == x;
                assert(j != 0);
                assert(a2[j - 1] == x);
            }
        }
        lemma_sorted_unique(a2, b2);
        assert(a =~= b) by {
            assert forall|i: int| 0 <= i < a.len() implies a[i] == b[i] by {
                if i > 0 {
                    assert(a2[i - 1] == b2[i - 1]);
                }
            }
        }
    }
}

/// The per-year counts of a set of dated games are determined by them.
pub proof fn lemma_year_count_unique(
    a: Seq<(i32, usize)>,
    b: Seq<(i32, usize)>,
    ys: Seq<(&CollectionItem, i32)>,
)
    requires
        is_year_count(a, ys),
        is_year_count(b, ys),
    ensures
        a == b,
{
    let ka = a.map_values(|e: (i32, usize)| e.0);
    let kb = b.map_values(|e: (i32, usize)| e.0);
    assert forall|i: int, j: int| 0 <= i < j < ka.len() implies #[trigger] ka[i] < #[trigger] ka[j] by {
        assert(a[i].0 < a[j].0);
    }
    assert forall|i: int, j: int| 0 <= i < j < kb.len() implies #[trigger] kb[i] < #[trigger] kb[j] by {
        assert(b[i].0 < b[j].0);
    }
    let keys = crate::stats::owned::year_keys(ys);
    assert forall|x: i32| #[trigger] ka.contains(x) <==> kb.contains(x) by {
        if ka.contains(x) {
            let i = choose|i: int| 0 <= i < ka.len() && ka[i] == x;
            assert(a[i].1 == key_count(keys, (a[i].0 as i64, 0i64)) && a[i].1 > 0);
            assert(key_count(keys, (x as i64, 0i64)) > 0);
            let j = choose|j: int| 0 <= j < b.len() && b[j].0 == x;
            assert(kb[j] == x);
        }
        if kb.contains(x) {
            let i = choose|i: int| 0 <= i < kb.len() && kb[i] == x;
            assert(b[i].1 == key_count(keys, (b[i].0 as i64, 0i64)) && b[i].1 > 0);
            assert(key_count(keys, (x as i64, 0i64)) > 0);
            let j = choose|j: int| 0 <= j < a.len() && a[j].0 == x;
            assert(ka[j] == x);
        }
    }
    lemma_sorted_unique(ka, kb);
    assert forall|i: int| 0 <= i < a.len() implies a[i] == b[i] by {
        assert(ka[i] == kb[i]);
        assert(a[i].1 == key_count(keys, (a[i].0 as i64, 0i64)));
        assert(b[i].1 == key_count(keys, (b[i].0 as i64, 0i64)));
    }
    assert(a =~= b);
}

proof fn lemma_bucket_len(s: Seq<(&CollectionItem, u32)>, lo: u32, hi: u32)
    ensures
        bucket_items(s, lo, hi).len() == count_time_between(s, lo, hi),
    decreases s.len(),
{
    if s.len() > 0 {
        lemma_bucket_len(s.drop_last(), lo, hi);
    }
}

proof fn lemma_bucket_list_len(e: Seq<TopEntry>, s: Seq<(&CollectionItem, u32)>, lo: u32, hi: u32)
    requires
        is_bucket_list(e, s, lo, hi),
    ensures
        e.len() == count_time_between(s, lo, hi),
{
    lemma_bucket_len(s, lo, hi);
}

/// Each deep dive shows the same headline figures as the overview of the
/// same cache: the owned count, the play totals, the rated count and the
/// rating histograms, the oldest and newest games and the per-year counts, the average playing
/// time and the size of each length bucket, and the player-count figures.
pub proof fn lemma_deep_dives_match_overview(
    cache: &CacheFile,
    o: OwnedStats,
    p: PlaysReport,
    ra: RatingsReport,
    y: YearReport,
    t: TimeReport,
    pl: PlayersReport,
)
    requires
        overview_of(cache_values(cache), o),
        plays_report_of(cache, p),
        ratings_report_of(cache, ra),
        year_report_of(cache, y),
        time_report_of(cache, t),
        players_report_of(cache, pl),
    ensures
        o.count == p.played_count + p.unplayed_count,
        o.plays.total == p.total,
        o.plays.played_count == p.played_count,
        o.plays.unplayed_count == p.unplayed_count,
        o.count == ra.total_owned,
        o.ratings.rated_count == ra.rated_count,
        o.ratings.your_distribution@ == ra.your_distribution@,
        o.ratings.bgg_distribution@ == ra.bgg_distribution@,
        same_entry(o.year.oldest, y.oldest),
        same_entry(o.year.newest, y.newest),
        o.year.by_year@ == y.by_year@,
        o.time.avg_minutes == t.avg_minutes,
        o.time.quick_under_30 == t.quick_under_30@.len(),
        o.time.medium_30_to_89 == t.medium_30_to_89@.len(),
        o.time.long_90_to_180 == t.long_90_to_180@.len(),
        o.time.epic_over_180 == t.epic_over_180@.len(),
        o.players.solo_capable == pl.solo_capable,
        o.players.two_capable == pl.two_capable,
        o.players.common_range == pl.common_range,
{
    let owned = crate::stats::common::owned_of(cache_values(cache));
    let ys = crate::stats::common::published_years_of(owned);
    let ts = crate::stats::common::playing_times_of(owned);
    lemma_year_count_unique(o.year.by_year@, y.by_year@, ys);
    lemma_bucket_list_len(t.quick_under_30@, ts, 0, 29);
    lemma_bucket_list_len(t.medium_30_to_89@, ts, 30, 89);
    lemma_bucket_list_len(t.long_90_to_180@, ts, 90, 180);
    lemma_bucket_list_len(t.epic_over_180@, ts, 181, u32::MAX);
}

} // verus!
