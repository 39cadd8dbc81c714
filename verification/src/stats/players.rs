//! The player-count deep dive: solo and two-player games, the most common
//! range, and for each count from 1 to 12 how many games support it, the
//! best of them, and the games made for exactly that count.

use crate::model::{supports, CacheFile, CollectionItem};
use crate::stats::common::{cache_values, owned_boardgames_from_cache, owned_of, player_ranges, player_ranges_of};
use crate::stats::owned::{common_range, common_range_of, count_supporting, count_supporting_exec};
use vstd::prelude::*;

verus! {

/// Whether the ranged item supports `players` players.
pub open spec fn ranged_supports(e: (&CollectionItem, (u32, u32)), players: u32) -> bool {
    match e.0.stats {
        Some(st) => supports(st, players),
        None => false,
    }
}

/// The ranged items that support `players`, in order.
pub open spec fn supporting_of<'a>(s: Seq<(&'a CollectionItem, (u32, u32))>, players: u32) -> Seq<
    &'a CollectionItem,
>
    decreases s.len(),
{
    if s.len() == 0 {
        Seq::empty()
    } else {
        let prev = supporting_of(s.drop_last(), players);
        if ranged_supports(s.last(), players) {
            prev.push(s.last().0)
        } else {
            prev
        }
    }
}

/// The ranged items made for exactly `players`, in order.
pub open spec fn only_at_of<'a>(s: Seq<(&'a CollectionItem, (u32, u32))>, players: u32) -> Seq<
    &'a CollectionItem,
>
    decreases s.len(),
{
    if s.len() == 0 {
        Seq::empty()
    } else {
        let prev = only_at_of(s.drop_last(), players);
        if ranged_supports(s.last(), players) && s.last().1 == (players, players) {
            prev.push(s.last().0)
        } else {
            prev
        }
    }
}

/// The score a game is judged best by: the BGG Bayes average, else the
/// BGG average, else the user's rating (order keys).
pub open spec fn best_score_of(i: CollectionItem) -> Option<u32> {
    match i.stats {
        Some(s) => match s.bayes_average {
            Some(b) => Some(b),
            None => match s.average {
                Some(a) => Some(a),
                None => s.user_rating,
            },
        },
        None => None,
    }
}

/// The last game with the highest score, as `Iterator::max_by` picks it.
pub open spec fn best_of<'a>(s: Seq<&'a CollectionItem>) -> Option<(&'a CollectionItem, u32)>
    decreases s.len(),
{
    if s.len() == 0 {
        None
    } else {
        let prev = best_of(s.drop_last());
        match best_score_of(*s.last()) {
            None => prev,
            Some(sc) => match prev {
                None => Some((s.last(), sc)),
                Some(p) => if sc >= p.1 {
                    Some((s.last(), sc))
                } else {
                    prev
                },
            },
        }
    }
}

/// The best game at a player count, with its score key.
#[derive(Debug)]
pub struct BestEntry {
    pub id: u32,
    pub name: String,
    pub score: u32,
}

/// The entry names the best game, or there is none.
pub open spec fn best_matches(e: Option<BestEntry>, b: Option<(&CollectionItem, u32)>) -> bool {
    match (e, b) {
        (None, None) => true,
        (Some(e), Some((i, sc))) => e.id == i.id && e.name@ == i.name@ && e.score == sc,
        _ => false,
    }
}

/// One row of the per-count table.
#[derive(Debug)]
pub struct PlayerCountRow {
    pub players: u32,
    pub count: usize,
    pub best: Option<BestEntry>,
    pub only_at_count: Vec<String>,
}

/// The row describes the player count `players` among the ranged games.
pub open spec fn is_count_row(row: PlayerCountRow, s: Seq<(&CollectionItem, (u32, u32))>, players: u32) -> bool {
    let sup = supporting_of(s, players);
    let only = only_at_of(s, players);
    &&& row.players == players
    &&& row.count == sup.len()
    &&& best_matches(row.best, best_of(sup))
    &&& row.only_at_count@.len() == only.len()
    &&& forall|k: int| 0 <= k < only.len() ==> (#[trigger] row.only_at_count@[k])@ == only[k].name@
}

/// The score a game is judged best by.
pub fn best_score(i: &CollectionItem) -> (r: Option<u32>)
    ensures
        r == best_score_of(*i),
{
    match &i.stats {
        Some(s) => match s.bayes_average {
            Some(b) => Some(b),
            None => match s.average {
                Some(a) => Some(a),
                None => s.user_rating,
            },
        },
        None => None,
    }
}

/// The row for `players`.
pub fn count_row(ranges: &Vec<(&CollectionItem, (u32, u32))>, players: u32) -> (row: PlayerCountRow)
    ensures
        is_count_row(row, ranges@, players),
{
    let mut sup: Vec<&CollectionItem> = Vec::new();
    let mut only: Vec<String> = Vec::new();
    let ghost mut only_items: Seq<&CollectionItem> = Seq::empty();
    let mut best: Option<(usize, u32)> = None;
    let mut i: usize = 0;
    while i < ranges.len()
        invariant
            i <= ranges@.len(),
            sup@ == supporting_of(ranges@.take(i as int), players),
            only_items == only_at_of(ranges@.take(i as int), players),
            only@.len() == only_items.len(),
            forall|k: int| 0 <= k < only@.len() ==> (#[trigger] only@[k])@ == only_items[k].name@,
            match best {
                None => best_of(sup@) is None,
                Some((k, sc)) => k < sup@.len() && best_of(sup@) == Some((sup@[k as int], sc)),
            },
        decreases ranges@.len() - i,
    {
        assert(ranges@.take(i as int + 1).drop_last() =~= ranges@.take(i as int));
        let (it, pr) = ranges[i];
        let ok = match &it.stats {
            Some(st) => st.supports_player_count(players),
            None => false,
        };
        if ok {
            let ghost before = sup@;
            sup.push(it);
            assert(sup@.drop_last() =~= before);
            match best_score(it) {
                None => {},
                Some(sc) => {
                    match best {
                        None => {
                            best = Some((sup.len() - 1, sc));
                        },
                        Some((_, b)) => {
                            if sc >= b {
                                best = Some((sup.len() - 1, sc));
                            }
                        },
                    }
                },
            }
            if pr.0 == players && pr.1 == players {
                only.push(it.name.clone());
                proof {
                    only_items = only_items.push(it);
                }
            }
        }
        i += 1;
    }
    assert(ranges@.take(ranges@.len() as int) =~= ranges@);
    let best_entry = match best {
        None => None,
        Some((k, sc)) => Some(BestEntry { id: sup[k].id, name: sup[k].name.clone(), score: sc }),
    };
    PlayerCountRow { players, count: sup.len(), best: best_entry, only_at_count: only }
}

/// The player-count deep dive.
#[derive(Debug)]
pub struct PlayersReport {
    pub solo_capable: usize,
    pub two_capable: usize,
    pub common_range: Option<(u32, u32)>,
    pub by_count: Vec<PlayerCountRow>,
}

/// What the player-count deep dive states of the owned base games of the cache.
pub open spec fn players_report_of(cache: &CacheFile, r: PlayersReport) -> bool {
    let rs = player_ranges_of(owned_of(cache_values(cache)));
    &&& r.solo_capable == count_supporting(rs, 1)
    &&& r.two_capable == count_supporting(rs, 2)
    &&& r.common_range == common_range_of(rs)
    &&& r.by_count@.len() == 12
    &&& forall|k: int| 0 <= k < 12 ==> is_count_row(#[trigger] r.by_count@[k], rs, (k + 1) as u32)
}

/// The player-count deep dive of the cache's owned base games.
pub fn build(cache: &CacheFile) -> (r: PlayersReport)
    ensures
        players_report_of(cache, r),
{
    let owned = owned_boardgames_from_cache(cache);
    let ranges = player_ranges(&owned);
    let mut by_count: Vec<PlayerCountRow> = Vec::new();
    let mut players: u32 = 1;
    while players <= 12
        invariant
            1 <= players <= 13,
            by_count@.len() == players - 1,
            forall|k: int| 0 <= k < by_count@.len() ==> is_count_row(
                #[trigger] by_count@[k],
                ranges@,
                (k + 1) as u32,
            ),
        decreases 13 - players,
    {
        by_count.push(count_row(&ranges, players));
        players += 1;
    }
    PlayersReport {
        solo_capable: count_supporting_exec(&ranges, 1),
        two_capable: count_supporting_exec(&ranges, 2),
        common_range: common_range(&ranges),
        by_count,
    }
}

} // verus!
