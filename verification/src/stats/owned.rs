//! The owned-boardgame overview: plays, ratings, years, playing times and
//! player counts of the owned base games. The floating-point figures
//! (averages of ratings and plays, rating histograms) are computed where
//! floating point lives, from the selections in `common`.

use crate::model::{supports, CollectionItem};
use crate::stats::common::{
    bgg_averages, bgg_averages_of, is_histogram, owned_boardgames, owned_of, player_ranges,
    player_ranges_of, playing_times, playing_times_of, published_years, published_years_of,
    rating_histogram, user_ratings, user_ratings_of,
};
use crate::stats::rank::{rank, ranked_stably, Ranked};
use crate::stats::tally::{
    is_tally, key_count, key_lt, lemma_key_count_pos, lemma_tally_total, most_common,
    most_common_key, tally, tally_sum,
};
use vstd::prelude::*;

verus! {

/// A named item with a whole-number value (plays, a year, minutes).
#[derive(Debug)]
pub struct TopEntry {
    pub id: u32,
    pub name: String,
    pub value: i64,
}

/// A named item with a rating (as an order key).
#[derive(Debug)]
pub struct RatingEntry {
    pub id: u32,
    pub name: String,
    pub rating: u32,
}

/// The entries name the ranked items, in order, with their first score component.
pub open spec fn entries_of(e: Seq<TopEntry>, r: Seq<Ranked>) -> bool {
    &&& e.len() == r.len()
    &&& forall|k: int|
        0 <= k < e.len() ==> (#[trigger] e[k]).id == r[k].item.id && e[k].name@ == r[k].item.name@
            && e[k].value == r[k].score.0
}

/// The rating entries name the ranked items, in order, with their rating keys.
pub open spec fn rating_entries_of(e: Seq<RatingEntry>, r: Seq<Ranked>) -> bool {
    &&& e.len() == r.len()
    &&& forall|k: int|
        0 <= k < e.len() ==> (#[trigger] e[k]).id == r[k].item.id && e[k].name@ == r[k].item.name@
            && e[k].rating as i64 == r[k].score.0
}

/// The first `n` ranked items, or all when there are fewer.
pub open spec fn first_n(r: Seq<Ranked>, n: nat) -> Seq<Ranked> {
    if n < r.len() {
        r.take(n as int)
    } else {
        r
    }
}

/// The entry for a ranked item.
pub fn entry_of(r: &Ranked) -> (e: TopEntry)
    ensures
        e.id == r.item.id,
        e.name@ == r.item.name@,
        e.value == r.score.0,
{
    TopEntry { id: r.item.id, name: r.item.name.clone(), value: r.score.0 }
}

/// Entries for the first `n` ranked items.
pub fn top_entries(r: &Vec<Ranked>, n: usize) -> (e: Vec<TopEntry>)
    ensures
        entries_of(e@, first_n(r@, n as nat)),
{
    let m = if n < r.len() {
        n
    } else {
        r.len()
    };
    let mut e: Vec<TopEntry> = Vec::new();
    let mut k: usize = 0;
    while k < m
        invariant
            m <= r@.len(),
            m == if n < r@.len() {
                n as int
            } else {
                r@.len() as int
            },
            k <= m,
            e@.len() == k,
            forall|q: int|
                0 <= q < k ==> (#[trigger] e@[q]).id == r@[q].item.id && e@[q].name@
                    == r@[q].item.name@ && e@[q].value == r@[q].score.0,
        decreases m - k,
    {
        e.push(entry_of(&r[k]));
        k += 1;
    }
    e
}

/// Rating entries for the first `n` ranked items (scores are rating keys).
pub fn top_rating_entries(r: &Vec<Ranked>, n: usize) -> (e: Vec<RatingEntry>)
    requires
        forall|k: int| 0 <= k < r@.len() ==> 0 <= (#[trigger] r@[k]).score.0 <= u32::MAX,
    ensures
        rating_entries_of(e@, first_n(r@, n as nat)),
{
    let m = if n < r.len() {
        n
    } else {
        r.len()
    };
    let mut e: Vec<RatingEntry> = Vec::new();
    let mut k: usize = 0;
    while k < m
        invariant
            m <= r@.len(),
            m == if n < r@.len() {
                n as int
            } else {
                r@.len() as int
            },
            forall|q: int| 0 <= q < r@.len() ==> 0 <= (#[trigger] r@[q]).score.0 <= u32::MAX,
            k <= m,
            e@.len() == k,
            forall|q: int|
                0 <= q < k ==> (#[trigger] e@[q]).id == r@[q].item.id && e@[q].name@
                    == r@[q].item.name@ && e@[q].rating as i64 == r@[q].score.0,
        decreases m - k,
    {
        let x = &r[k];
        assert(0 <= x.score.0 <= u32::MAX);
        e.push(RatingEntry { id: x.item.id, name: x.item.name.clone(), rating: x.score.0 as u32 });
        k += 1;
    }
    e
}

// ---------- plays ----------

/// The total plays of `s`.
pub open spec fn plays_total_of(s: Seq<&CollectionItem>) -> nat
    decreases s.len(),
{
    if s.len() == 0 {
        0
    } else {
        plays_total_of(s.drop_last()) + s.last().num_plays as nat
    }
}

/// The items of `s` played at least once, in order.
pub open spec fn played_of<'a>(s: Seq<&'a CollectionItem>) -> Seq<&'a CollectionItem>
    decreases s.len(),
{
    if s.len() == 0 {
        Seq::empty()
    } else if s.last().num_plays > 0 {
        played_of(s.drop_last()).push(s.last())
    } else {
        played_of(s.drop_last())
    }
}

/// The items of `s` each ranked by its play count.
pub open spec fn by_plays<'a>(s: Seq<&'a CollectionItem>) -> Seq<Ranked<'a>> {
    Seq::new(s.len(), |k: int| Ranked { item: s[k], score: (s[k].num_plays as i64, 0u32) })
}

proof fn lemma_plays_total_bounded(s: Seq<&CollectionItem>)
    ensures
        plays_total_of(s) <= s.len() * 0xFFFF_FFFF,
    decreases s.len(),
{
    if s.len() > 0 {
        lemma_plays_total_bounded(s.drop_last());
        assert((s.len() - 1) * 0xFFFF_FFFF + 0xFFFF_FFFF == s.len() * 0xFFFF_FFFF)
            by (nonlinear_arith);
    }
}

/// The total plays of the items (which the caller keeps within `u64`).
pub fn plays_total(items: &Vec<&CollectionItem>) -> (t: u64)
    requires
        plays_total_of(items@) <= u64::MAX,
    ensures
        t == plays_total_of(items@),
{
    let mut t: u128 = 0;
    let mut i: usize = 0;
    while i < items.len()
        invariant
            i <= items@.len(),
            t == plays_total_of(items@.take(i as int)),
        decreases items@.len() - i,
    {
        assert(items@.take(i as int + 1).drop_last() =~= items@.take(i as int));
        proof {
            lemma_plays_total_bounded(items@.take(i as int + 1));
            assert((i + 1) * 0xFFFF_FFFF < 0x1_0000_0000_0000_0000_0000_0000u128) by (nonlinear_arith)
                requires
                    i < 0x1_0000_0000_0000_0000u128,
            ;
        }
        t = t + items[i].num_plays as u128;
        i += 1;
    }
    assert(items@.take(items@.len() as int) =~= items@);
    t as u64
}

/// The items played at least once, in order.
pub fn played<'a>(items: &Vec<&'a CollectionItem>) -> (r: Vec<&'a CollectionItem>)
    ensures
        r@ == played_of(items@),
{
    let mut r: Vec<&'a CollectionItem> = Vec::new();
    let mut i: usize = 0;
    while i < items.len()
        invariant
            i <= items@.len(),
            r@ == played_of(items@.take(i as int)),
        decreases items@.len() - i,
    {
        assert(items@.take(i as int + 1).drop_last() =~= items@.take(i as int));
        if items[i].num_plays > 0 {
            r.push(items[i]);
        }
        i += 1;
    }
    assert(items@.take(items@.len() as int) =~= items@);
    r
}

/// The items ranked by play count.
pub fn ranking_by_plays<'a>(items: &Vec<&'a CollectionItem>) -> (r: Vec<Ranked<'a>>)
    ensures
        r@ == by_plays(items@),
{
    let mut r: Vec<Ranked<'a>> = Vec::new();
    let mut i: usize = 0;
    while i < items.len()
        invariant
            i <= items@.len(),
            r@.len() == i,
            forall|k: int| 0 <= k < i ==> #[trigger] r@[k] == by_plays(items@)[k],
        decreases items@.len() - i,
    {
        r.push(Ranked { item: items[i], score: (items[i].num_plays as i64, 0) });
        i += 1;
    }
    assert(r@ =~= by_plays(items@));
    r
}

/// The most played items, most plays first (ties by name), at most `n`.
pub fn top_by_plays(played: &Vec<&CollectionItem>, n: usize) -> (e: Vec<TopEntry>)
    ensures
        exists|sorted: Seq<Ranked>, p: Seq<int>|
            ranked_stably(by_plays(played@), sorted, p, true) && entries_of(
                e@,
                first_n(sorted, n as nat),
            ),
{
    let ranked = rank(&ranking_by_plays(played), true);
    top_entries(&ranked, n)
}

/// The play counts of the owned base games.
#[derive(Debug)]
pub struct PlaysStats {
    pub total: u64,
    pub played_count: usize,
    pub unplayed_count: usize,
    pub top: Vec<TopEntry>,
}

// ---------- ratings ----------

/// The rated items each ranked by its rating key.
pub open spec fn by_rating<'a>(s: Seq<(&'a CollectionItem, u32)>) -> Seq<Ranked<'a>> {
    Seq::new(s.len(), |k: int| Ranked { item: s[k].0, score: (s[k].1 as i64, 0u32) })
}

/// The rated items ranked by rating key.
pub fn ranking_by_rating<'a>(rated: &Vec<(&'a CollectionItem, u32)>) -> (r: Vec<Ranked<'a>>)
    ensures
        r@ == by_rating(rated@),
{
    let mut r: Vec<Ranked<'a>> = Vec::new();
    let mut i: usize = 0;
    while i < rated.len()
        invariant
            i <= rated@.len(),
            r@.len() == i,
            forall|k: int| 0 <= k < i ==> #[trigger] r@[k] == by_rating(rated@)[k],
        decreases rated@.len() - i,
    {
        r.push(Ranked { item: rated[i].0, score: (rated[i].1 as i64, 0) });
        i += 1;
    }
    assert(r@ =~= by_rating(rated@));
    r
}

/// The highest rated items, best first (ties by name), at most `n`.
pub fn top_by_rating(rated: &Vec<(&CollectionItem, u32)>, n: usize) -> (e: Vec<RatingEntry>)
    ensures
        exists|sorted: Seq<Ranked>, p: Seq<int>|
            ranked_stably(by_rating(rated@), sorted, p, true) && rating_entries_of(
                e@,
                first_n(sorted, n as nat),
            ),
{
    let input = ranking_by_rating(rated);
    let ranked = rank(&input, true);
    proof {
        let p = choose|p: Seq<int>| ranked_stably(input@, ranked@, p, true);
        assert forall|k: int| 0 <= k < ranked@.len() implies 0 <= (#[trigger] ranked@[k]).score.0
            <= u32::MAX by {
            assert(ranked@[k] == input@[p[k]]);
        }
    }
    top_rating_entries(&ranked, n)
}

/// The rating counts of the owned base games: how many are rated, the
/// ten-bucket histograms of the user's ratings and of the BGG averages, and
/// the best rated (the averages are floating point and are computed from
/// `common::user_ratings` and `common::bgg_averages`).
#[derive(Debug)]
pub struct RatingsStats {
    pub rated_count: usize,
    pub your_distribution: Vec<usize>,
    pub bgg_distribution: Vec<usize>,
    pub top: Vec<RatingEntry>,
}

// ---------- years ----------

/// The first item with the smallest year, as `Iterator::min_by_key` picks it.
pub open spec fn oldest_of<'a>(s: Seq<(&'a CollectionItem, i32)>) -> Option<(&'a CollectionItem, i32)>
    decreases s.len(),
{
    if s.len() == 0 {
        None
    } else {
        match oldest_of(s.drop_last()) {
            None => Some(s.last()),
            Some(prev) => if s.last().1 < prev.1 {
                Some(s.last())
            } else {
                Some(prev)
            },
        }
    }
}

/// The last item with the largest year, as `Iterator::max_by_key` picks it.
pub open spec fn newest_of<'a>(s: Seq<(&'a CollectionItem, i32)>) -> Option<(&'a CollectionItem, i32)>
    decreases s.len(),
{
    if s.len() == 0 {
        None
    } else {
        match newest_of(s.drop_last()) {
            None => Some(s.last()),
            Some(prev) => if s.last().1 >= prev.1 {
                Some(s.last())
            } else {
                Some(prev)
            },
        }
    }
}

/// The entry naming a dated item, or none.
pub open spec fn dated_entry_matches(e: Option<TopEntry>, d: Option<(&CollectionItem, i32)>) -> bool {
    match (e, d) {
        (None, None) => true,
        (Some(e), Some((i, y))) => e.id == i.id && e.name@ == i.name@ && e.value == y as i64,
        _ => false,
    }
}

/// The oldest and the newest of the dated items.
pub fn oldest_newest(with_year: &Vec<(&CollectionItem, i32)>) -> (r: (Option<TopEntry>, Option<TopEntry>))
    ensures
        dated_entry_matches(r.0, oldest_of(with_year@)),
        dated_entry_matches(r.1, newest_of(with_year@)),
{
    let mut old: Option<usize> = None;
    let mut new: Option<usize> = None;
    let mut i: usize = 0;
    while i < with_year.len()
        invariant
            i <= with_year@.len(),
            match old {
                None => oldest_of(with_year@.take(i as int)) is None,
                Some(k) => k < i && oldest_of(with_year@.take(i as int)) == Some(with_year@[k as int]),
            },
            match new {
                None => newest_of(with_year@.take(i as int)) is None,
                Some(k) => k < i && newest_of(with_year@.take(i as int)) == Some(with_year@[k as int]),
            },
        decreases with_year@.len() - i,
    {
        assert(with_year@.take(i as int + 1).drop_last() =~= with_year@.take(i as int));
        let y = with_year[i].1;
        match old {
            None => {
                old = Some(i);
            },
            Some(k) => {
                if y < with_year[k].1 {
                    old = Some(i);
                }
            },
        }
        match new {
            None => {
                new = Some(i);
            },
            Some(k) => {
                if y >= with_year[k].1 {
                    new = Some(i);
                }
            },
        }
        i += 1;
    }
    assert(with_year@.take(with_year@.len() as int) =~= with_year@);
    let o = match old {
        None => None,
        Some(k) => Some(
            TopEntry {
                id: with_year[k].0.id,
                name: with_year[k].0.name.clone(),
                value: with_year[k].1 as i64,
            },
        ),
    };
    let n = match new {
        None => None,
        Some(k) => Some(
            TopEntry {
                id: with_year[k].0.id,
                name: with_year[k].0.name.clone(),
                value: with_year[k].1 as i64,
            },
        ),
    };
    (o, n)
}

/// The years as tally keys.
pub open spec fn year_keys(s: Seq<(&CollectionItem, i32)>) -> Seq<(i64, i64)> {
    Seq::new(s.len(), |k: int| (s[k].1 as i64, 0i64))
}

/// `by_year` lists, in ascending order, each year of `s` with how many items have it.
pub open spec fn is_year_count(by_year: Seq<(i32, usize)>, s: Seq<(&CollectionItem, i32)>) -> bool {
    &&& forall|a: int, b: int| 0 <= a < b < by_year.len() ==> #[trigger] by_year[a].0 < #[trigger] by_year[b].0
    &&& forall|j: int|
        0 <= j < by_year.len() ==> (#[trigger] by_year[j]).1 == key_count(year_keys(s), (by_year[j].0 as i64, 0i64))
            && by_year[j].1 > 0
    &&& forall|y: i32|
        #[trigger] key_count(year_keys(s), (y as i64, 0i64)) > 0 ==> exists|j: int|
            0 <= j < by_year.len() && by_year[j].0 == y
}

/// How many items have each year, by ascending year.
pub fn count_by_year(with_year: &Vec<(&CollectionItem, i32)>) -> (r: Vec<(i32, usize)>)
    ensures
        is_year_count(r@, with_year@),
        year_total(r@) == with_year@.len(),
{
    let mut keys: Vec<(i64, i64)> = Vec::new();
    let mut i: usize = 0;
    while i < with_year.len()
        invariant
            i <= with_year@.len(),
            keys@.len() == i,
            forall|k: int| 0 <= k < i ==> #[trigger] keys@[k] == year_keys(with_year@)[k],
        decreases with_year@.len() - i,
    {
        keys.push((with_year[i].1 as i64, 0));
        i += 1;
    }
    assert(keys@ =~= year_keys(with_year@));
    let t = tally(&keys);
    proof {
        assert forall|q: int| 0 <= q < t@.len() implies (#[trigger] t@[q]).0.1 == 0 && i32::MIN
            <= t@[q].0.0 <= i32::MAX by {
            assert(t@[q].1 > 0);
            lemma_key_count_pos(keys@, t@[q].0);
            let i = choose|i: int| 0 <= i < keys@.len() && keys@[i] == t@[q].0;
            assert(keys@[i] == year_keys(with_year@)[i]);
        }
    }
    let mut r: Vec<(i32, usize)> = Vec::new();
    let mut j: usize = 0;
    while j < t.len()
        invariant
            is_tally(t@, keys@),
            keys@ == year_keys(with_year@),
            j <= t@.len(),
            r@.len() == j,
            forall|q: int|
                0 <= q < j ==> (#[trigger] r@[q]).0 as i64 == t@[q].0.0 && r@[q].1 == t@[q].1,
            forall|q: int| 0 <= q < t@.len() ==> (#[trigger] t@[q]).0.1 == 0 && i32::MIN <= t@[q].0.0
                <= i32::MAX,
        decreases t@.len() - j,
    {
        r.push((t[j].0.0 as i32, t[j].1));
        j += 1;
    }
    proof {
        assert forall|q: int| 0 <= q < r@.len() implies (#[trigger] r@[q]).1 == key_count(
            year_keys(with_year@),
            (r@[q].0 as i64, 0i64),
        ) && r@[q].1 > 0 by {
            assert(t@[q].0 == (r@[q].0 as i64, 0i64));
        }
        assert forall|a: int, b: int| 0 <= a < b < r@.len() implies #[trigger] r@[a].0
            < #[trigger] r@[b].0 by {
            assert(key_lt(t@[a].0, t@[b].0));
        }
        assert forall|y: i32| #[trigger] key_count(year_keys(with_year@), (y as i64, 0i64))
            > 0 implies exists|j: int| 0 <= j < r@.len() && r@[j].0 == y by {
            let j = choose|j: int| 0 <= j < t@.len() && t@[j].0 == (y as i64, 0i64);
            assert(r@[j].0 as i64 == y as i64);
        }
        lemma_tally_total(t@, keys@);
        lemma_year_total_tally(r@, t@);
    }
    r
}

proof fn lemma_year_total_tally(r: Seq<(i32, usize)>, t: Seq<((i64, i64), usize)>)
    requires
        r.len() == t.len(),
        forall|q: int| 0 <= q < r.len() ==> (#[trigger] r[q]).1 == t[q].1,
    ensures
        year_total(r) == tally_sum(t),
    decreases r.len(),
{
    if r.len() > 0 {
        let (a, b) = (r.drop_last(), t.drop_last());
        assert forall|q: int| 0 <= q < a.len() implies (#[trigger] a[q]).1 == b[q].1 by {
            assert(a[q] == r[q] && b[q] == t[q]);
        }
        lemma_year_total_tally(a, b);
        assert(r.last().1 == t.last().1);
    }
}

/// The span of years that keeps all but the thinnest tails: the first year
/// from the start, and the first from the end, at which the running count
/// reaches the cutoff.
pub open spec fn first_reaching(s: Seq<(i32, usize)>, need: int) -> Option<i32>
    decreases s.len(),
{
    if s.len() == 0 {
        None
    } else if s[0].1 >= need {
        Some(s[0].0)
    } else {
        first_reaching(s.drop_first(), need - s[0].1)
    }
}

/// The total count of a year table.
pub open spec fn year_total(s: Seq<(i32, usize)>) -> nat
    decreases s.len(),
{
    if s.len() == 0 {
        0
    } else {
        (year_total(s.drop_last()) + s.last().1) as nat
    }
}

/// The number of items in each tail that the chart may drop:
/// `max(1, ceil(total * per_mille / 2000))`, i.e. half the fraction per tail.
pub open spec fn tail_cutoff(total: nat, per_mille: nat) -> int {
    let c = (total * per_mille + 1999) / 2000;
    if c >= 1 {
        c as int
    } else {
        1
    }
}

/// The range of years the chart shows, or none when nothing is dated.
pub open spec fn trimmed_years(by_year: Seq<(i32, usize)>, per_mille: nat) -> Option<(i32, i32)> {
    let total = year_total(by_year);
    if total == 0 {
        None
    } else {
        let cutoff = tail_cutoff(total, per_mille);
        match (first_reaching(by_year, cutoff), first_reaching(by_year.reverse(), cutoff)) {
            (Some(lead), Some(trail)) => Some((lead, trail)),
            _ => None,
        }
    }
}

proof fn lemma_first_reaching_step(s: Seq<(i32, usize)>, i: int, need: int)
    requires
        0 <= i < s.len(),
    ensures
        s.subrange(i, s.len() as int).drop_first() =~= s.subrange(i + 1, s.len() as int),
        s.subrange(i, s.len() as int)[0] == s[i],
{
}

fn first_reaching_exec(s: &Vec<(i32, usize)>, need: u128) -> (r: Option<i32>)
    ensures
        r == first_reaching(s@, need as int),
{
    let mut i: usize = 0;
    let mut remaining: u128 = need;
    assert(s@.subrange(0, s@.len() as int) =~= s@);
    while i < s.len()
        invariant
            i <= s@.len(),
            first_reaching(s@, need as int) == first_reaching(s@.subrange(i as int, s@.len() as int), remaining as int),
        decreases s@.len() - i,
    {
        proof {
            lemma_first_reaching_step(s@, i as int, remaining as int);
        }
        if s[i].1 as u128 >= remaining {
            return Some(s[i].0);
        }
        remaining = remaining - s[i].1 as u128;
        i += 1;
    }
    None
}

/// The year table read from the last year back.
fn reversed_years(s: &Vec<(i32, usize)>) -> (r: Vec<(i32, usize)>)
    ensures
        r@ == s@.reverse(),
{
    let mut r: Vec<(i32, usize)> = Vec::new();
    let mut i: usize = s.len();
    while i > 0
        invariant
            i <= s@.len(),
            r@.len() == s@.len() - i,
            forall|k: int| 0 <= k < r@.len() ==> #[trigger] r@[k] == s@[s@.len() - 1 - k],
        decreases i,
    {
        i -= 1;
        r.push(s[i]);
    }
    assert(r@ =~= s@.reverse());
    r
}

/// The range of years a chart of `by_year` shows: drops the thinnest tails,
/// up to `drop_per_mille` per mille of the items in all (half from each
/// end), keeping at least one item per tail. `None` when nothing is dated.
pub fn trim_outlier_years(by_year: &Vec<(i32, usize)>, drop_per_mille: u32) -> (r: Option<(i32, i32)>)
    requires
        year_total(by_year@) <= usize::MAX,
    ensures
        r == trimmed_years(by_year@, drop_per_mille as nat),
{
    let mut total: u128 = 0;
    let mut i: usize = 0;
    while i < by_year.len()
        invariant
            i <= by_year@.len(),
            total == year_total(by_year@.take(i as int)),
            total <= i * 0xFFFF_FFFF_FFFF_FFFFu128,
        decreases by_year@.len() - i,
    {
        assert(by_year@.take(i as int + 1).drop_last() =~= by_year@.take(i as int));
        assert(by_year@.len() <= usize::MAX);
        assert(total + by_year[i as int].1 <= (i + 1) * 0xFFFF_FFFF_FFFF_FFFFu128) by (nonlinear_arith)
            requires
                total <= i * 0xFFFF_FFFF_FFFF_FFFFu128,
                by_year[i as int].1 <= 0xFFFF_FFFF_FFFF_FFFFu128,
        ;
        assert((i + 1) * 0xFFFF_FFFF_FFFF_FFFFu128 < 0x1_0000_0000_0000_0000u128 * 0x1_0000_0000_0000_0000u128) by (nonlinear_arith)
            requires
                i < 0x1_0000_0000_0000_0000u128,
        ;
        total = total + by_year[i].1 as u128;
        i += 1;
    }
    assert(by_year@.take(by_year@.len() as int) =~= by_year@);
    if total == 0 {
        return None;
    }
    assert(total * (drop_per_mille as u128) + 1999 < 0x1_0000_0000_0000_0000u128 * 0x1_0000_0000_0000_0000u128) by (nonlinear_arith)
        requires
            total <= 0xFFFF_FFFF_FFFF_FFFFu128,
            drop_per_mille <= 0xFFFF_FFFFu128,
    ;
    let c = (total * drop_per_mille as u128 + 1999) / 2000;
    let cutoff = if c >= 1 {
        c
    } else {
        1
    };
    let lead = first_reaching_exec(by_year, cutoff);
    let rev = reversed_years(by_year);
    let trail = first_reaching_exec(&rev, cutoff);
    match (lead, trail) {
        (Some(a), Some(b)) => Some((a, b)),
        _ => None,
    }
}

/// The publication years of the owned base games.
#[derive(Debug)]
pub struct YearStats {
    pub oldest: Option<TopEntry>,
    pub newest: Option<TopEntry>,
    pub by_year: Vec<(i32, usize)>,
}

// ---------- playing time ----------

/// The total of the playing times.
pub open spec fn time_total(s: Seq<(&CollectionItem, u32)>) -> nat
    decreases s.len(),
{
    if s.len() == 0 {
        0
    } else {
        (time_total(s.drop_last()) + s.last().1) as nat
    }
}

/// The mean rounded half up (what `f64::round` does on the exact mean of
/// non-negative values), capped to `u32` as the float-to-`u32` cast saturates.
pub open spec fn rounded_mean(total: nat, n: nat) -> u32 {
    let q = total / n;
    let r = total % n;
    let m = if 2 * r >= n {
        q + 1
    } else {
        q
    };
    if m > u32::MAX {
        u32::MAX
    } else {
        m as u32
    }
}

/// The average playing time in minutes, if any game has one.
pub open spec fn average_minutes_of(s: Seq<(&CollectionItem, u32)>) -> Option<u32> {
    if s.len() == 0 {
        None
    } else {
        Some(rounded_mean(time_total(s), s.len()))
    }
}

/// How many playing times lie in `lo..=hi`.
pub open spec fn count_time_between(s: Seq<(&CollectionItem, u32)>, lo: u32, hi: u32) -> nat
    decreases s.len(),
{
    if s.len() == 0 {
        0
    } else {
        count_time_between(s.drop_last(), lo, hi) + if lo <= s.last().1 <= hi {
            1nat
        } else {
            0nat
        }
    }
}

proof fn lemma_count_time_bounded(s: Seq<(&CollectionItem, u32)>, lo: u32, hi: u32)
    ensures
        count_time_between(s, lo, hi) <= s.len(),
    decreases s.len(),
{
    if s.len() > 0 {
        lemma_count_time_bounded(s.drop_last(), lo, hi);
    }
}

/// The four length buckets split the timed games: each game falls in
/// exactly one of under 30, 30 to 89, 90 to 180 and over 180 minutes.
pub proof fn lemma_time_buckets_partition(s: Seq<(&CollectionItem, u32)>)
    ensures
        count_time_between(s, 0, 29) + count_time_between(s, 30, 89) + count_time_between(s, 90, 180)
            + count_time_between(s, 181, u32::MAX) == s.len(),
    decreases s.len(),
{
    if s.len() > 0 {
        lemma_time_buckets_partition(s.drop_last());
    }
}

/// How many playing times lie in `lo..=hi`.
pub fn count_times_between(times: &Vec<(&CollectionItem, u32)>, lo: u32, hi: u32) -> (n: usize)
    ensures
        n == count_time_between(times@, lo, hi),
{
    let mut n: usize = 0;
    let mut i: usize = 0;
    while i < times.len()
        invariant
            i <= times@.len(),
            n == count_time_between(times@.take(i as int), lo, hi),
        decreases times@.len() - i,
    {
        assert(times@.take(i as int + 1).drop_last() =~= times@.take(i as int));
        proof {
            lemma_count_time_bounded(times@.take(i as int), lo, hi);
        }
        if lo <= times[i].1 && times[i].1 <= hi {
            n += 1;
        }
        i += 1;
    }
    assert(times@.take(times@.len() as int) =~= times@);
    n
}

/// The average playing time in minutes, if any game has one.
pub fn average_minutes(times: &Vec<(&CollectionItem, u32)>) -> (a: Option<u32>)
    ensures
        a == average_minutes_of(times@),
{
    if times.len() == 0 {
        return None;
    }
    let mut total: u128 = 0;
    let mut i: usize = 0;
    while i < times.len()
        invariant
            i <= times@.len(),
            total == time_total(times@.take(i as int)),
            total <= i * 0xFFFF_FFFFu128,
        decreases times@.len() - i,
    {
        assert(times@.take(i as int + 1).drop_last() =~= times@.take(i as int));
        assert(total + times[i as int].1 <= (i + 1) * 0xFFFF_FFFFu128) by (nonlinear_arith)
            requires
                total <= i * 0xFFFF_FFFFu128,
                times[i as int].1 <= 0xFFFF_FFFFu128,
        ;
        assert((i + 1) * 0xFFFF_FFFFu128 < 0x1_0000_0000_0000_0000u128 * 0x1_0000_0000u128) by (nonlinear_arith)
            requires
                i < 0x1_0000_0000_0000_0000u128,
        ;
        total = total + times[i].1 as u128;
        i += 1;
    }
    assert(times@.take(times@.len() as int) =~= times@);
    let n = times.len() as u128;
    let q = total / n;
    let r = total % n;
    let m = if 2 * r >= n {
        q + 1
    } else {
        q
    };
    if m > 0xFFFF_FFFF {
        Some(u32::MAX)
    } else {
        Some(m as u32)
    }
}

/// The playing times of the owned base games: the average and the bucket sizes.
#[derive(Debug)]
pub struct TimeStats {
    pub avg_minutes: Option<u32>,
    pub quick_under_30: usize,
    pub medium_30_to_89: usize,
    pub long_90_to_180: usize,
    pub epic_over_180: usize,
}

// ---------- players ----------

/// How many of the items with a player range support `players` players.
pub open spec fn count_supporting(s: Seq<(&CollectionItem, (u32, u32))>, players: u32) -> nat
    decreases s.len(),
{
    if s.len() == 0 {
        0
    } else {
        count_supporting(s.drop_last(), players) + if (match s.last().0.stats {
            Some(st) => supports(st, players),
            None => false,
        }) {
            1nat
        } else {
            0nat
        }
    }
}

proof fn lemma_count_supporting_bounded(s: Seq<(&CollectionItem, (u32, u32))>, players: u32)
    ensures
        count_supporting(s, players) <= s.len(),
    decreases s.len(),
{
    if s.len() > 0 {
        lemma_count_supporting_bounded(s.drop_last(), players);
    }
}

/// How many of the items with a player range support `players` players.
pub fn count_supporting_exec(ranges: &Vec<(&CollectionItem, (u32, u32))>, players: u32) -> (n: usize)
    ensures
        n == count_supporting(ranges@, players),
{
    let mut n: usize = 0;
    let mut i: usize = 0;
    while i < ranges.len()
        invariant
            i <= ranges@.len(),
            n == count_supporting(ranges@.take(i as int), players),
        decreases ranges@.len() - i,
    {
        assert(ranges@.take(i as int + 1).drop_last() =~= ranges@.take(i as int));
        proof {
            lemma_count_supporting_bounded(ranges@.take(i as int), players);
        }
        let ok = match &ranges[i].0.stats {
            Some(st) => st.supports_player_count(players),
            None => false,
        };
        if ok {
            n += 1;
        }
        i += 1;
    }
    assert(ranges@.take(ranges@.len() as int) =~= ranges@);
    n
}

/// The player ranges as tally keys.
pub open spec fn range_keys(s: Seq<(&CollectionItem, (u32, u32))>) -> Seq<(i64, i64)> {
    Seq::new(s.len(), |k: int| (s[k].1.0 as i64, s[k].1.1 as i64))
}

/// The most common player range (the largest among equally common ones).
pub open spec fn common_range_of(s: Seq<(&CollectionItem, (u32, u32))>) -> Option<(u32, u32)> {
    if s.len() == 0 {
        None
    } else {
        let k = most_common(range_keys(s));
        Some((k.0 as u32, k.1 as u32))
    }
}

/// The most common player range, ties going to the largest range.
pub fn common_range(ranges: &Vec<(&CollectionItem, (u32, u32))>) -> (r: Option<(u32, u32)>)
    ensures
        r == common_range_of(ranges@),
{
    let mut keys: Vec<(i64, i64)> = Vec::new();
    let mut i: usize = 0;
    while i < ranges.len()
        invariant
            i <= ranges@.len(),
            keys@.len() == i,
            forall|k: int| 0 <= k < i ==> #[trigger] keys@[k] == range_keys(ranges@)[k],
        decreases ranges@.len() - i,
    {
        keys.push((ranges[i].1.0 as i64, ranges[i].1.1 as i64));
        i += 1;
    }
    assert(keys@ =~= range_keys(ranges@));
    let t = tally(&keys);
    match most_common_key(&t, Ghost(keys@)) {
        None => {
            proof {
                if ranges@.len() > 0 {
                    assert(crate::stats::tally::key_count(keys@, keys@[0]) > 0) by {
                        lemma_key_in_count(keys@, 0);
                    }
                }
            }
            None
        },
        Some(k) => {
            proof {
                crate::stats::tally::lemma_key_count_pos(keys@, k);
                if ranges@.len() == 0 {
                    assert(false);
                }
            }
            let idx = find_key(&keys, k);
            Some((ranges[idx].1.0, ranges[idx].1.1))
        },
    }
}

proof fn lemma_key_in_count(keys: Seq<(i64, i64)>, i: int)
    requires
        0 <= i < keys.len(),
    ensures
        key_count(keys, keys[i]) > 0,
    decreases keys.len(),
{
    if i < keys.len() - 1 {
        lemma_key_in_count(keys.drop_last(), i);
    }
}

fn find_key(keys: &Vec<(i64, i64)>, k: (i64, i64)) -> (idx: usize)
    requires
        exists|i: int| 0 <= i < keys@.len() && keys@[i] == k,
    ensures
        idx < keys@.len(),
        keys@[idx as int] == k,
{
    let mut i: usize = 0;
    while i < keys.len()
        invariant
            i <= keys@.len(),
            forall|j: int| 0 <= j < i ==> keys@[j] != k,
            exists|j: int| 0 <= j < keys@.len() && keys@[j] == k,
        decreases keys@.len() - i,
    {
        if keys[i].0 == k.0 && keys[i].1 == k.1 {
            return i;
        }
        i += 1;
    }
    assert(false);
    0
}

/// The player counts of the owned base games.
#[derive(Debug)]
pub struct PlayersStats {
    pub solo_capable: usize,
    pub two_capable: usize,
    pub common_range: Option<(u32, u32)>,
}

// ---------- the overview ----------

/// The owned-boardgame overview.
#[derive(Debug)]
pub struct OwnedStats {
    pub count: usize,
    pub plays: PlaysStats,
    pub ratings: RatingsStats,
    pub year: YearStats,
    pub time: TimeStats,
    pub players: PlayersStats,
}

/// What the overview states of the owned base games `o`.
pub open spec fn overview_of(all: Seq<&CollectionItem>, r: OwnedStats) -> bool {
    let o = owned_of(all);
    let pl = played_of(o);
    let rated = user_ratings_of(o);
    let ys = published_years_of(o);
    let ts = playing_times_of(o);
    let rs = player_ranges_of(o);
    &&& r.count == o.len()
    &&& r.plays.total == plays_total_of(o)
    &&& r.plays.played_count == pl.len()
    &&& r.plays.unplayed_count == o.len() - pl.len()
    &&& exists|sorted: Seq<Ranked>, p: Seq<int>|
        ranked_stably(by_plays(pl), sorted, p, true) && entries_of(r.plays.top@, first_n(sorted, 5))
    &&& r.ratings.rated_count == rated.len()
    &&& is_histogram(r.ratings.your_distribution@, rated)
    &&& is_histogram(r.ratings.bgg_distribution@, bgg_averages_of(o))
    &&& exists|sorted: Seq<Ranked>, p: Seq<int>|
        ranked_stably(by_rating(rated), sorted, p, true) && rating_entries_of(
            r.ratings.top@,
            first_n(sorted, 5),
        )
    &&& dated_entry_matches(r.year.oldest, oldest_of(ys))
    &&& dated_entry_matches(r.year.newest, newest_of(ys))
    &&& is_year_count(r.year.by_year@, ys)
    &&& r.time.avg_minutes == average_minutes_of(ts)
    &&& r.time.quick_under_30 == count_time_between(ts, 0, 29)
    &&& r.time.medium_30_to_89 == count_time_between(ts, 30, 89)
    &&& r.time.long_90_to_180 == count_time_between(ts, 90, 180)
    &&& r.time.epic_over_180 == count_time_between(ts, 181, u32::MAX)
    &&& r.players.solo_capable == count_supporting(rs, 1)
    &&& r.players.two_capable == count_supporting(rs, 2)
    &&& r.players.common_range == common_range_of(rs)
}

proof fn lemma_played_len(s: Seq<&CollectionItem>)
    ensures
        played_of(s).len() <= s.len(),
    decreases s.len(),
{
    if s.len() > 0 {
        lemma_played_len(s.drop_last());
    }
}

/// The overview of the owned base games among `all`.
pub fn build(all: &Vec<&CollectionItem>) -> (r: OwnedStats)
    requires
        plays_total_of(owned_of(all@)) <= u64::MAX,
    ensures
        overview_of(all@, r),
{
    let owned = owned_boardgames(all);
    proof {
        lemma_played_len(owned@);
    }
    let played_items = played(&owned);
    let plays = PlaysStats {
        total: plays_total(&owned),
        played_count: played_items.len(),
        unplayed_count: owned.len() - played_items.len(),
        top: top_by_plays(&played_items, 5),
    };
    let rated = user_ratings(&owned);
    let ratings = RatingsStats {
        rated_count: rated.len(),
        your_distribution: rating_histogram(&rated),
        bgg_distribution: rating_histogram(&bgg_averages(&owned)),
        top: top_by_rating(&rated, 5),
    };
    let with_year = published_years(&owned);
    let (oldest, newest) = oldest_newest(&with_year);
    let year = YearStats { oldest, newest, by_year: count_by_year(&with_year) };
    let times = playing_times(&owned);
    let time = TimeStats {
        avg_minutes: average_minutes(&times),
        quick_under_30: count_times_between(&times, 0, 29),
        medium_30_to_89: count_times_between(&times, 30, 89),
        long_90_to_180: count_times_between(&times, 90, 180),
        epic_over_180: count_times_between(&times, 181, u32::MAX),
    };
    let ranges = player_ranges(&owned);
    let players = PlayersStats {
        solo_capable: count_supporting_exec(&ranges, 1),
        two_capable: count_supporting_exec(&ranges, 2),
        common_range: common_range(&ranges),
    };
    OwnedStats { count: owned.len(), plays, ratings, year, time, players }
}

} // verus!
