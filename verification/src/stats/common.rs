//! The selections every statistic starts from: owned base games, and the
//! ratings, years, playing times and player ranges they carry.

use crate::model::{CacheFile, CollectionItem, Stats};
use crate::text::{chars_of, eq_lit};
use std::collections::hash_map::DefaultHasher;
use std::hash::{BuildHasher, BuildHasherDefault};
use vstd::prelude::*;

verus! {

/// Whether an item is an owned base game (subtype `boardgame`).
pub open spec fn is_owned_boardgame(i: CollectionItem) -> bool {
    i.status.own && i.subtype@ == "boardgame"@
}

/// The owned base games among `s`, in order.
pub open spec fn owned_of<'a>(s: Seq<&'a CollectionItem>) -> Seq<&'a CollectionItem>
    decreases s.len(),
{
    if s.len() == 0 {
        Seq::empty()
    } else if is_owned_boardgame(*s.last()) {
        owned_of(s.drop_last()).push(s.last())
    } else {
        owned_of(s.drop_last())
    }
}

/// The cached items in key order.
pub open spec fn cache_values<'a>(cache: &'a CacheFile) -> Seq<&'a CollectionItem> {
    Seq::new(cache.items@.len(), |k: int| &cache.items@[k].item)
}

/// Whether `i` is an owned base game.
pub fn is_owned_boardgame_exec(i: &CollectionItem) -> (r: bool)
    ensures
        r == is_owned_boardgame(*i),
{
    i.status.own && eq_lit(&chars_of(i.subtype.as_str()), "boardgame")
}

/// References to the cached items, in key order.
pub fn values<'a>(cache: &'a CacheFile) -> (r: Vec<&'a CollectionItem>)
    ensures
        r@ == cache_values(cache),
{
    let mut r: Vec<&'a CollectionItem> = Vec::new();
    let mut i: usize = 0;
    while i < cache.items.len()
        invariant
            i <= cache.items@.len(),
            r@.len() == i,
            forall|k: int| 0 <= k < i ==> #[trigger] r@[k] == &cache.items@[k].item,
        decreases cache.items@.len() - i,
    {
        r.push(&cache.items[i].item);
        i += 1;
    }
    assert(r@ =~= cache_values(cache));
    r
}

/// The owned base games among `items`, in order.
pub fn owned_boardgames<'a>(items: &Vec<&'a CollectionItem>) -> (r: Vec<&'a CollectionItem>)
    ensures
        r@ == owned_of(items@),
{
    let mut r: Vec<&'a CollectionItem> = Vec::new();
    let mut i: usize = 0;
    while i < items.len()
        invariant
            i <= items@.len(),
            r@ == owned_of(items@.take(i as int)),
        decreases items@.len() - i,
    {
        assert(items@.take(i as int + 1).drop_last() =~= items@.take(i as int));
        if is_owned_boardgame_exec(items[i]) {
            r.push(items[i]);
        }
        i += 1;
    }
    assert(items@.take(items@.len() as int) =~= items@);
    r
}

/// The owned base games of the cache, in key order.
pub fn owned_boardgames_from_cache<'a>(cache: &'a CacheFile) -> (r: Vec<&'a CollectionItem>)
    ensures
        r@ == owned_of(cache_values(cache)),
{
    owned_boardgames(&values(cache))
}

/// The user's ratings (as order keys) of the rated items among `s`, in order.
pub open spec fn user_ratings_of<'a>(s: Seq<&'a CollectionItem>) -> Seq<(&'a CollectionItem, u32)>
    decreases s.len(),
{
    if s.len() == 0 {
        Seq::empty()
    } else {
        let prev = user_ratings_of(s.drop_last());
        match s.last().stats {
            Some(st) => match st.user_rating {
                Some(r) => prev.push((s.last(), r)),
                None => prev,
            },
            None => prev,
        }
    }
}

/// The user's ratings (as order keys) of the rated items, in order.
pub fn user_ratings<'a>(items: &Vec<&'a CollectionItem>) -> (r: Vec<(&'a CollectionItem, u32)>)
    ensures
        r@ == user_ratings_of(items@),
{
    let mut r: Vec<(&'a CollectionItem, u32)> = Vec::new();
    let mut i: usize = 0;
    while i < items.len()
        invariant
            i <= items@.len(),
            r@ == user_ratings_of(items@.take(i as int)),
        decreases items@.len() - i,
    {
        assert(items@.take(i as int + 1).drop_last() =~= items@.take(i as int));
        let it = items[i];
        match &it.stats {
            Some(st) => match st.user_rating {
                Some(k) => r.push((it, k)),
                None => {},
            },
            None => {},
        }
        i += 1;
    }
    assert(items@.take(items@.len() as int) =~= items@);
    r
}

/// The BGG averages (as order keys) of the items that have one, in order.
pub open spec fn bgg_averages_of<'a>(s: Seq<&'a CollectionItem>) -> Seq<(&'a CollectionItem, u32)>
    decreases s.len(),
{
    if s.len() == 0 {
        Seq::empty()
    } else {
        let prev = bgg_averages_of(s.drop_last());
        match s.last().stats {
            Some(st) => match st.average {
                Some(r) => prev.push((s.last(), r)),
                None => prev,
            },
            None => prev,
        }
    }
}

/// The BGG averages (as order keys) of the items that have one, in order.
pub fn bgg_averages<'a>(items: &Vec<&'a CollectionItem>) -> (r: Vec<(&'a CollectionItem, u32)>)
    ensures
        r@ == bgg_averages_of(items@),
{
    let mut r: Vec<(&'a CollectionItem, u32)> = Vec::new();
    let mut i: usize = 0;
    while i < items.len()
        invariant
            i <= items@.len(),
            r@ == bgg_averages_of(items@.take(i as int)),
        decreases items@.len() - i,
    {
        assert(items@.take(i as int + 1).drop_last() =~= items@.take(i as int));
        let it = items[i];
        match &it.stats {
            Some(st) => match st.average {
                Some(k) => r.push((it, k)),
                None => {},
            },
            None => {},
        }
        i += 1;
    }
    assert(items@.take(items@.len() as int) =~= items@);
    r
}

/// The items with both a user rating and a BGG average (as order keys), in order.
pub open spec fn user_and_bgg_ratings_of<'a>(s: Seq<&'a CollectionItem>) -> Seq<
    (&'a CollectionItem, u32, u32),
>
    decreases s.len(),
{
    if s.len() == 0 {
        Seq::empty()
    } else {
        let prev = user_and_bgg_ratings_of(s.drop_last());
        match s.last().stats {
            Some(st) => match (st.user_rating, st.average) {
                (Some(u), Some(a)) => prev.push((s.last(), u, a)),
                _ => prev,
            },
            None => prev,
        }
    }
}

/// The items with both a user rating and a BGG average (as order keys), in order.
pub fn user_and_bgg_ratings<'a>(items: &Vec<&'a CollectionItem>) -> (r: Vec<
    (&'a CollectionItem, u32, u32),
>)
    ensures
        r@ == user_and_bgg_ratings_of(items@),
{
    let mut r: Vec<(&'a CollectionItem, u32, u32)> = Vec::new();
    let mut i: usize = 0;
    while i < items.len()
        invariant
            i <= items@.len(),
            r@ == user_and_bgg_ratings_of(items@.take(i as int)),
        decreases items@.len() - i,
    {
        assert(items@.take(i as int + 1).drop_last() =~= items@.take(i as int));
        let it = items[i];
        match &it.stats {
            Some(st) => match (st.user_rating, st.average) {
                (Some(u), Some(a)) => r.push((it, u, a)),
                _ => {},
            },
            None => {},
        }
        i += 1;
    }
    assert(items@.take(items@.len() as int) =~= items@);
    r
}

/// The positive publication years of the items that have one, in order.
pub open spec fn published_years_of<'a>(s: Seq<&'a CollectionItem>) -> Seq<(&'a CollectionItem, i32)>
    decreases s.len(),
{
    if s.len() == 0 {
        Seq::empty()
    } else {
        let prev = published_years_of(s.drop_last());
        match s.last().year_published {
            Some(y) => if y > 0 {
                prev.push((s.last(), y))
            } else {
                prev
            },
            None => prev,
        }
    }
}

/// The positive publication years of the items that have one, in order.
pub fn published_years<'a>(items: &Vec<&'a CollectionItem>) -> (r: Vec<(&'a CollectionItem, i32)>)
    ensures
        r@ == published_years_of(items@),
{
    let mut r: Vec<(&'a CollectionItem, i32)> = Vec::new();
    let mut i: usize = 0;
    while i < items.len()
        invariant
            i <= items@.len(),
            r@ == published_years_of(items@.take(i as int)),
        decreases items@.len() - i,
    {
        assert(items@.take(i as int + 1).drop_last() =~= items@.take(i as int));
        let it = items[i];
        match it.year_published {
            Some(y) => {
                if y > 0 {
                    r.push((it, y));
                }
            },
            None => {},
        }
        i += 1;
    }
    assert(items@.take(items@.len() as int) =~= items@);
    r
}

/// The positive playing times of the items that have one, in order.
pub open spec fn playing_times_of<'a>(s: Seq<&'a CollectionItem>) -> Seq<(&'a CollectionItem, u32)>
    decreases s.len(),
{
    if s.len() == 0 {
        Seq::empty()
    } else {
        let prev = playing_times_of(s.drop_last());
        match s.last().stats {
            Some(st) => match st.playing_time {
                Some(t) => if t > 0 {
                    prev.push((s.last(), t))
                } else {
                    prev
                },
                None => prev,
            },
            None => prev,
        }
    }
}

/// The positive playing times of the items that have one, in order.
pub fn playing_times<'a>(items: &Vec<&'a CollectionItem>) -> (r: Vec<(&'a CollectionItem, u32)>)
    ensures
        r@ == playing_times_of(items@),
{
    let mut r: Vec<(&'a CollectionItem, u32)> = Vec::new();
    let mut i: usize = 0;
    while i < items.len()
        invariant
            i <= items@.len(),
            r@ == playing_times_of(items@.take(i as int)),
        decreases items@.len() - i,
    {
        assert(items@.take(i as int + 1).drop_last() =~= items@.take(i as int));
        let it = items[i];
        match &it.stats {
            Some(st) => match st.playing_time {
                Some(t) => {
                    if t > 0 {
                        r.push((it, t));
                    }
                },
                None => {},
            },
            None => {},
        }
        i += 1;
    }
    assert(items@.take(items@.len() as int) =~= items@);
    r
}

/// The player range of stats with both bounds known and positive.
pub open spec fn player_range_of(stats: Stats) -> Option<(u32, u32)> {
    match (stats.min_players, stats.max_players) {
        (Some(min), Some(max)) => if min > 0 && max > 0 {
            Some((min, max))
        } else {
            None
        },
        _ => None,
    }
}

/// The player range of these stats, when both bounds are known and positive.
pub fn player_range(stats: &Stats) -> (r: Option<(u32, u32)>)
    ensures
        r == player_range_of(*stats),
{
    match (stats.min_players, stats.max_players) {
        (Some(min), Some(max)) => if min > 0 && max > 0 {
            Some((min, max))
        } else {
            None
        },
        _ => None,
    }
}

/// The player ranges of the items that have one, in order.
pub open spec fn player_ranges_of<'a>(s: Seq<&'a CollectionItem>) -> Seq<
    (&'a CollectionItem, (u32, u32)),
>
    decreases s.len(),
{
    if s.len() == 0 {
        Seq::empty()
    } else {
        let prev = player_ranges_of(s.drop_last());
        match s.last().stats {
            Some(st) => match player_range_of(st) {
                Some(r) => prev.push((s.last(), r)),
                None => prev,
            },
            None => prev,
        }
    }
}

/// The player ranges of the items that have one, in order.
pub fn player_ranges<'a>(items: &Vec<&'a CollectionItem>) -> (r: Vec<
    (&'a CollectionItem, (u32, u32)),
>)
    ensures
        r@ == player_ranges_of(items@),
{
    let mut r: Vec<(&'a CollectionItem, (u32, u32))> = Vec::new();
    let mut i: usize = 0;
    while i < items.len()
        invariant
            i <= items@.len(),
            r@ == player_ranges_of(items@.take(i as int)),
        decreases items@.len() - i,
    {
        assert(items@.take(i as int + 1).drop_last() =~= items@.take(i as int));
        let it = items[i];
        match &it.stats {
            Some(st) => match player_range(st) {
                Some(pr) => r.push((it, pr)),
                None => {},
            },
            None => {},
        }
        i += 1;
    }
    assert(items@.take(items@.len() as int) =~= items@);
    r
}

/// The edges between the ten rating buckets: the order keys of the ratings
/// 0.5, 1.5, ..., 10.5 (each the `f32`'s bits with the sign bit set).
pub open spec fn bucket_edges() -> Seq<u32> {
    seq![
        0xBF00_0000u32,
        0xBFC0_0000u32,
        0xC020_0000u32,
        0xC060_0000u32,
        0xC090_0000u32,
        0xC0B0_0000u32,
        0xC0D0_0000u32,
        0xC0F0_0000u32,
        0xC108_0000u32,
        0xC118_0000u32,
        0xC128_0000u32,
    ]
}

/// Whether the rating with order key `key` falls in bucket `b` (0 to 9):
/// it lies from edge `b` up to, not including, edge `b + 1`, which is to say
/// that it rounds (half away from zero) to `b + 1`. Ratings that round
/// below 1 or above 10, and NaN, fall in no bucket.
pub open spec fn in_bucket(key: u32, b: int) -> bool {
    0 <= b < 10 && bucket_edges()[b] <= key && key < bucket_edges()[b + 1]
}

/// The bucket of the rating with order key `key`, if any.
pub fn rating_bucket(key: u32) -> (r: Option<usize>)
    ensures
        match r {
            Some(b) => in_bucket(key, b as int),
            None => forall|b: int| !in_bucket(key, b),
        },
{
    let edges: Vec<u32> = vec![
        0xBF00_0000u32,
        0xBFC0_0000u32,
        0xC020_0000u32,
        0xC060_0000u32,
        0xC090_0000u32,
        0xC0B0_0000u32,
        0xC0D0_0000u32,
        0xC0F0_0000u32,
        0xC108_0000u32,
        0xC118_0000u32,
        0xC128_0000u32,
    ];
    assert(edges@ =~= bucket_edges());
    assert forall|i: int, j: int| 0 <= i <= j < 11 implies bucket_edges()[i] <= bucket_edges()[j] by {}
    let mut b: usize = 0;
    while b < 10
        invariant
            b <= 10,
            edges@ == bucket_edges(),
            forall|i: int, j: int| 0 <= i <= j < 11 ==> bucket_edges()[i] <= bucket_edges()[j],
            forall|c: int| 0 <= c < b ==> !in_bucket(key, c),
        decreases 10 - b,
    {
        if edges[b] <= key && key < edges[b + 1] {
            return Some(b);
        }
        b += 1;
    }
    None
}

/// How many of the rated entries fall in bucket `b`.
pub open spec fn bucket_count(s: Seq<(&CollectionItem, u32)>, b: int) -> nat
    decreases s.len(),
{
    if s.len() == 0 {
        0
    } else {
        bucket_count(s.drop_last(), b) + if in_bucket(s.last().1, b) {
            1nat
        } else {
            0nat
        }
    }
}

/// Whether `h` counts, for each of the ten buckets, the entries of `s` in it.
pub open spec fn is_histogram(h: Seq<usize>, s: Seq<(&CollectionItem, u32)>) -> bool {
    &&& h.len() == 10
    &&& forall|b: int| 0 <= b < 10 ==> h[b] == bucket_count(s, b)
}

proof fn lemma_bucket_count_len(s: Seq<(&CollectionItem, u32)>, b: int)
    ensures
        bucket_count(s, b) <= s.len(),
    decreases s.len(),
{
    if s.len() > 0 {
        lemma_bucket_count_len(s.drop_last(), b);
    }
}

/// The ten-bucket histogram of the ratings: bucket `b` counts the ratings
/// that round to `b + 1`.
pub fn rating_histogram(rated: &Vec<(&CollectionItem, u32)>) -> (h: Vec<usize>)
    ensures
        is_histogram(h@, rated@),
{
    let mut h: Vec<usize> = vec![0usize, 0, 0, 0, 0, 0, 0, 0, 0, 0];
    let mut i: usize = 0;
    while i < rated.len()
        invariant
            i <= rated@.len(),
            is_histogram(h@, rated@.take(i as int)),
        decreases rated@.len() - i,
    {
        let ghost pre = rated@.take(i as int);
        let ghost next = rated@.take(i as int + 1);
        assert(next.drop_last() =~= pre);
        assert(next.last() == rated@[i as int]);
        match rating_bucket(rated[i].1) {
            Some(b) => {
                proof {
                    lemma_bucket_count_len(pre, b as int);
                    assert(pre.len() == i);
                }
                let n = h[b] + 1;
                h.set(b, n);
                proof {
                    assert forall|c: int| 0 <= c < 10 implies h@[c] == bucket_count(next, c) by {
                        if c != b as int {
                            assert(!in_bucket(rated@[i as int].1, c));
                        }
                    }
                }
            },
            None => {},
        }
        i += 1;
    }
    assert(rated@.take(rated@.len() as int) =~= rated@);
    h
}

/// Calls `std::hash::BuildHasher::hash_one` with the default-built
/// `DefaultHasher` on the triple (seed, label, length): the hash of the three
/// values in that order. Nothing is claimed of the hash.
#[verifier::external_body]
fn pick_hash(seed: u64, label: &str, len: usize) -> u64 {
    BuildHasher::hash_one(&BuildHasherDefault::<DefaultHasher>::default(), (seed, label, len))
}

/// The index below `len` that a drawn hash `h` picks: `h` read as a
/// `usize` (its low bits where `usize` is narrower), modulo `len`.
pub fn index_of_hash(h: u64, len: usize) -> (r: usize)
    requires
        len > 0,
    ensures
        r == (h as usize) % len,
        r < len,
{
    (#[verifier::truncate] (h as usize)) % len
}

/// A pseudo-random index below `len` drawn from the seed and the label,
/// or none when `len` is zero. The hash of (seed, label, len) is drawn by
/// the standard hasher, whose algorithm is not specified, and the index is
/// what `index_of_hash` picks from it.
pub fn random_index(seed: u64, label: &str, len: usize) -> (r: Option<usize>)
    ensures
        match r {
            None => len == 0,
            Some(i) => i < len,
        },
{
    if len == 0 {
        return None;
    }
    let h = pick_hash(seed, label, len);
    Some(index_of_hash(h, len))
}

} // verus!
