//! The ratings deep dive: how many owned games are rated, the histograms of
//! the user's ratings and of the BGG averages, and all rated games ranked by
//! the user's rating. Averages and the you-versus-BGG differences are
//! floating point and are computed from the selections in `common`.

use crate::model::{CacheFile, CollectionItem};
use crate::stats::common::{
    bgg_averages, bgg_averages_of, cache_values, is_histogram, owned_boardgames_from_cache, owned_of,
    rating_histogram, user_ratings, user_ratings_of,
};
use crate::stats::owned::{by_rating, ranking_by_rating};
use crate::stats::rank::{rank, ranked_stably, Ranked};
use vstd::prelude::*;

verus! {

/// A rated game: the user's rating and the BGG average, as order keys.
#[derive(Debug)]
pub struct RatedEntry {
    pub id: u32,
    pub name: String,
    pub your_rating: u32,
    pub bgg_average: Option<u32>,
}

/// The BGG average of an item, if it has one.
pub open spec fn bgg_average_of(i: CollectionItem) -> Option<u32> {
    match i.stats {
        Some(s) => s.average,
        None => None,
    }
}

/// The entries name the ranked items, in order, with both ratings.
pub open spec fn rated_entries_of(e: Seq<RatedEntry>, r: Seq<Ranked>) -> bool {
    &&& e.len() == r.len()
    &&& forall|k: int|
        0 <= k < e.len() ==> (#[trigger] e[k]).id == r[k].item.id && e[k].name@ == r[k].item.name@
            && e[k].your_rating as i64 == r[k].score.0 && e[k].bgg_average == bgg_average_of(
            *r[k].item,
        )
}

fn rated_entries(r: &Vec<Ranked>) -> (e: Vec<RatedEntry>)
    requires
        forall|k: int| 0 <= k < r@.len() ==> 0 <= (#[trigger] r@[k]).score.0 <= u32::MAX,
    ensures
        rated_entries_of(e@, r@),
{
    let mut e: Vec<RatedEntry> = Vec::new();
    let mut k: usize = 0;
    while k < r.len()
        invariant
            k <= r@.len(),
            forall|q: int| 0 <= q < r@.len() ==> 0 <= (#[trigger] r@[q]).score.0 <= u32::MAX,
            e@.len() == k,
            forall|q: int|
                0 <= q < k ==> (#[trigger] e@[q]).id == r@[q].item.id && e@[q].name@
                    == r@[q].item.name@ && e@[q].your_rating as i64 == r@[q].score.0
                    && e@[q].bgg_average == bgg_average_of(*r@[q].item),
        decreases r@.len() - k,
    {
        let x = &r[k];
        assert(0 <= x.score.0 <= u32::MAX);
        let bgg = match &x.item.stats {
            Some(s) => s.average,
            None => None,
        };
        e.push(
            RatedEntry {
                id: x.item.id,
                name: x.item.name.clone(),
                your_rating: x.score.0 as u32,
                bgg_average: bgg,
            },
        );
        k += 1;
    }
    e
}

/// The ratings deep dive's counts, histograms and ranking.
#[derive(Debug)]
pub struct RatingsReport {
    pub rated_count: usize,
    pub total_owned: usize,
    pub your_distribution: Vec<usize>,
    pub bgg_distribution: Vec<usize>,
    pub ranked: Vec<RatedEntry>,
}

/// What the ratings deep dive states of the owned base games of the cache.
pub open spec fn ratings_report_of(cache: &CacheFile, r: RatingsReport) -> bool {
    let o = owned_of(cache_values(cache));
    let rated = user_ratings_of(o);
    &&& r.rated_count == rated.len()
    &&& r.total_owned == o.len()
    &&& is_histogram(r.your_distribution@, rated)
    &&& is_histogram(r.bgg_distribution@, bgg_averages_of(o))
    &&& exists|sorted: Seq<Ranked>, p: Seq<int>|
        ranked_stably(by_rating(rated), sorted, p, true) && rated_entries_of(r.ranked@, sorted)
}

/// The ratings deep dive of the cache's owned base games: the histograms,
/// and every rated game, best first (ties by name).
pub fn build(cache: &CacheFile) -> (r: RatingsReport)
    ensures
        ratings_report_of(cache, r),
{
    let owned = owned_boardgames_from_cache(cache);
    let rated = user_ratings(&owned);
    let input = ranking_by_rating(&rated);
    let ranked = rank(&input, true);
    proof {
        let p = choose|p: Seq<int>| ranked_stably(input@, ranked@, p, true);
        assert forall|k: int| 0 <= k < ranked@.len() implies 0 <= (#[trigger] ranked@[k]).score.0
            <= u32::MAX by {
            assert(ranked@[k] == input@[p[k]]);
        }
    }
    RatingsReport {
        rated_count: rated.len(),
        total_owned: owned.len(),
        your_distribution: rating_histogram(&rated),
        bgg_distribution: rating_histogram(&bgg_averages(&owned)),
        ranked: rated_entries(&ranked),
    }
}

/// The BGG average shown with a ranked game is that game's BGG average, the
/// value the BGG-average histogram counts for it; none where BGG has none.
pub open spec fn shows_bgg_average(shown: Option<u32>, i: &CollectionItem) -> bool {
    match shown {
        Some(v) => bgg_averages_of(seq![i]) == seq![(i, v)],
        None => bgg_averages_of(seq![i]).len() == 0,
    }
}

proof fn lemma_bgg_averages_single(i: &CollectionItem)
    ensures
        shows_bgg_average(bgg_average_of(*i), i),
{
    let s = seq![i];
    assert(s.drop_last() =~= Seq::<&CollectionItem>::empty());
    assert(s.last() == i);
    assert(bgg_averages_of(Seq::<&CollectionItem>::empty()).len() == 0);
    match bgg_average_of(*i) {
        Some(v) => {
            assert(bgg_averages_of(s) =~= seq![(i, v)]);
        },
        None => {},
    }
}

/// Every entry of the ratings ranking shows the ranked game's BGG average.
pub proof fn lemma_ranked_bgg_average(e: Seq<RatedEntry>, r: Seq<Ranked>)
    requires
        rated_entries_of(e, r),
    ensures
        forall|k: int| 0 <= k < e.len() ==> shows_bgg_average(#[trigger] e[k].bgg_average, r[k].item),
{
    assert forall|k: int| 0 <= k < e.len() implies shows_bgg_average(#[trigger] e[k].bgg_average, r[k].item) by {
        lemma_bgg_averages_single(r[k].item);
    }
}

/// Whether entry `e` names an owned base game of the cache, by id and
/// name, and shows that game's BGG average.
pub open spec fn names_owned_game_with_average(cache: &CacheFile, e: RatedEntry) -> bool {
    exists|i: &CollectionItem|
        #[trigger] owned_of(cache_values(cache)).contains(i) && i.id == e.id && i.name@ == e.name@
            && shows_bgg_average(e.bgg_average, i)
}

/// In the ratings deep dive, each ranked entry is an owned base game of the
/// cache, named by its id and name, shown with its BGG average.
pub proof fn lemma_report_bgg_averages(cache: &CacheFile, rep: RatingsReport)
    requires
        ratings_report_of(cache, rep),
    ensures
        forall|k: int| 0 <= k < rep.ranked@.len() ==> names_owned_game_with_average(
            cache,
            #[trigger] rep.ranked@[k],
        ),
{
    let o = owned_of(cache_values(cache));
    let rated = user_ratings_of(o);
    let (sorted, p) = choose|sorted: Seq<Ranked>, p: Seq<int>|
        ranked_stably(by_rating(rated), sorted, p, true) && rated_entries_of(rep.ranked@, sorted);
    lemma_ranked_bgg_average(rep.ranked@, sorted);
    assert forall|k: int| 0 <= k < rep.ranked@.len() implies names_owned_game_with_average(
        cache,
        #[trigger] rep.ranked@[k],
    ) by {
        let i = sorted[k].item;
        lemma_ranked_items_owned(o, sorted, p, k);
        assert(o.contains(i));
        assert(i.id == rep.ranked@[k].id && i.name@ == rep.ranked@[k].name@);
        assert(shows_bgg_average(rep.ranked@[k].bgg_average, i));
    }
}

proof fn lemma_user_ratings_from(s: Seq<&CollectionItem>)
    ensures
        forall|j: int| 0 <= j < user_ratings_of(s).len() ==> s.contains(#[trigger] user_ratings_of(s)[j].0),
    decreases s.len(),
{
    if s.len() > 0 {
        let pre = s.drop_last();
        lemma_user_ratings_from(pre);
        assert forall|j: int| 0 <= j < user_ratings_of(s).len() implies s.contains(
            #[trigger] user_ratings_of(s)[j].0,
        ) by {
            if j < user_ratings_of(pre).len() {
                assert(user_ratings_of(s)[j] == user_ratings_of(pre)[j]);
                let q = choose|q: int| 0 <= q < pre.len() && pre[q] == user_ratings_of(pre)[j].0;
                assert(s[q] == pre[q]);
            } else {
                assert(user_ratings_of(s)[j].0 == s.last());
                assert(s[s.len() - 1] == s.last());
            }
        }
    }
}

proof fn lemma_ranked_items_owned(o: Seq<&CollectionItem>, sorted: Seq<Ranked>, p: Seq<int>, k: int)
    requires
        ranked_stably(by_rating(user_ratings_of(o)), sorted, p, true),
        0 <= k < sorted.len(),
    ensures
        o.contains(sorted[k].item),
{
    let rated = user_ratings_of(o);
    lemma_user_ratings_from(o);
    assert(sorted[k] == by_rating(rated)[p[k]]);
    assert(0 <= p[k] < rated.len());
    assert(by_rating(rated)[p[k]].item == rated[p[k]].0);
}

} // verus!
