//! The collection overview: item counts by subtype, status flags over the
//! whole collection, the wishlist by priority, and the owned-boardgame
//! overview.

use crate::model::{CacheFile, CollectionItem, Timestamp};
use crate::stats::common::{cache_values, owned_of, values};
use crate::stats::owned::{self, overview_of, plays_total_of, OwnedStats};
use crate::stats::tally::{is_tally, key_count, key_lt, lemma_key_count_pos, tally};
use crate::text::{chars_of, eq_lit};
use vstd::prelude::*;

verus! {

/// The facts the overview counts items by.
#[derive(Debug, Clone, Copy, PartialEq, Eq)]
pub enum Flag {
    Boardgame,
    Expansion,
    Own,
    OwnBoardgame,
    OwnExpansion,
    PrevOwned,
    ForTrade,
    Want,
    WantToPlay,
    WantToBuy,
    Wishlist,
    Preordered,
}

/// Whether the item is a base game.
pub open spec fn is_boardgame(i: CollectionItem) -> bool {
    i.subtype@ == "boardgame"@
}

/// Whether the item is an expansion.
pub open spec fn is_expansion(i: CollectionItem) -> bool {
    i.subtype@ == "boardgameexpansion"@
}

/// Whether the item has the fact.
pub open spec fn has_flag(i: CollectionItem, f: Flag) -> bool {
    match f {
        Flag::Boardgame => is_boardgame(i),
        Flag::Expansion => is_expansion(i),
        Flag::Own => i.status.own,
        Flag::OwnBoardgame => i.status.own && is_boardgame(i),
        Flag::OwnExpansion => i.status.own && is_expansion(i),
        Flag::PrevOwned => i.status.prev_owned,
        Flag::ForTrade => i.status.for_trade,
        Flag::Want => i.status.want,
        Flag::WantToPlay => i.status.want_to_play,
        Flag::WantToBuy => i.status.want_to_buy,
        Flag::Wishlist => i.status.wishlist,
        Flag::Preordered => i.status.preordered,
    }
}

/// How many of the items have the fact.
pub open spec fn count_flag(s: Seq<&CollectionItem>, f: Flag) -> nat
    decreases s.len(),
{
    if s.len() == 0 {
        0
    } else {
        count_flag(s.drop_last(), f) + if has_flag(*s.last(), f) {
            1nat
        } else {
            0nat
        }
    }
}

proof fn lemma_count_flag_bounded(s: Seq<&CollectionItem>, f: Flag)
    ensures
        count_flag(s, f) <= s.len(),
    decreases s.len(),
{
    if s.len() > 0 {
        lemma_count_flag_bounded(s.drop_last(), f);
    }
}

/// Whether the item has the fact.
pub fn flag_of(i: &CollectionItem, f: Flag) -> (r: bool)
    ensures
        r == has_flag(*i, f),
{
    let st = &i.status;
    match f {
        Flag::Boardgame => eq_lit(&chars_of(i.subtype.as_str()), "boardgame"),
        Flag::Expansion => eq_lit(&chars_of(i.subtype.as_str()), "boardgameexpansion"),
        Flag::Own => st.own,
        Flag::OwnBoardgame => st.own && eq_lit(&chars_of(i.subtype.as_str()), "boardgame"),
        Flag::OwnExpansion => st.own && eq_lit(&chars_of(i.subtype.as_str()), "boardgameexpansion"),
        Flag::PrevOwned => st.prev_owned,
        Flag::ForTrade => st.for_trade,
        Flag::Want => st.want,
        Flag::WantToPlay => st.want_to_play,
        Flag::WantToBuy => st.want_to_buy,
        Flag::Wishlist => st.wishlist,
        Flag::Preordered => st.preordered,
    }
}

/// How many of the items have the fact.
pub fn count_items(items: &Vec<&CollectionItem>, f: Flag) -> (n: usize)
    ensures
        n == count_flag(items@, f),
{
    let mut n: usize = 0;
    let mut i: usize = 0;
    while i < items.len()
        invariant
            i <= items@.len(),
            n == count_flag(items@.take(i as int), f),
        decreases items@.len() - i,
    {
        assert(items@.take(i as int + 1).drop_last() =~= items@.take(i as int));
        proof {
            lemma_count_flag_bounded(items@.take(i as int), f);
        }
        if flag_of(items[i], f) {
            n += 1;
        }
        i += 1;
    }
    assert(items@.take(items@.len() as int) =~= items@);
    n
}

/// Item counts by subtype.
#[derive(Debug)]
pub struct ItemsBlock {
    pub total: usize,
    pub boardgames: usize,
    pub expansions: usize,
    pub other: usize,
}

/// Status counts over the whole collection.
#[derive(Debug)]
pub struct Statuses {
    pub own: usize,
    pub own_boardgames: usize,
    pub own_expansions: usize,
    pub prev_owned: usize,
    pub for_trade: usize,
    pub want: usize,
    pub want_to_play: usize,
    pub want_to_buy: usize,
    pub wishlist: usize,
    pub preordered: usize,
    /// Each wishlist priority that occurs, ascending, with its count.
    pub wishlist_by_priority: Vec<(u8, usize)>,
}

/// The wishlist priorities of the wishlisted items that have one, as tally keys.
pub open spec fn priority_keys(s: Seq<&CollectionItem>) -> Seq<(i64, i64)>
    decreases s.len(),
{
    if s.len() == 0 {
        Seq::empty()
    } else {
        let prev = priority_keys(s.drop_last());
        let st = s.last().status;
        if st.wishlist {
            match st.wishlist_priority {
                Some(p) => prev.push((p as i64, 0i64)),
                None => prev,
            }
        } else {
            prev
        }
    }
}

/// `v` lists, ascending, each wishlist priority of `s` with how many
/// wishlisted items have it.
pub open spec fn is_priority_count(v: Seq<(u8, usize)>, s: Seq<&CollectionItem>) -> bool {
    &&& forall|a: int, b: int| 0 <= a < b < v.len() ==> #[trigger] v[a].0 < #[trigger] v[b].0
    &&& forall|j: int|
        0 <= j < v.len() ==> (#[trigger] v[j]).1 == key_count(priority_keys(s), (v[j].0 as i64, 0i64))
            && v[j].1 > 0
    &&& forall|p: u8|
        #[trigger] key_count(priority_keys(s), (p as i64, 0i64)) > 0 ==> exists|j: int|
            0 <= j < v.len() && v[j].0 == p
}

/// The wishlist priority keys of the items.
fn priorities(items: &Vec<&CollectionItem>) -> (k: Vec<(i64, i64)>)
    ensures
        k@ == priority_keys(items@),
{
    let mut k: Vec<(i64, i64)> = Vec::new();
    let mut i: usize = 0;
    while i < items.len()
        invariant
            i <= items@.len(),
            k@ == priority_keys(items@.take(i as int)),
        decreases items@.len() - i,
    {
        assert(items@.take(i as int + 1).drop_last() =~= items@.take(i as int));
        let st = &items[i].status;
        if st.wishlist {
            match st.wishlist_priority {
                Some(p) => k.push((p as i64, 0)),
                None => {},
            }
        }
        i += 1;
    }
    assert(items@.take(items@.len() as int) =~= items@);
    k
}

proof fn lemma_priority_keys_range(s: Seq<&CollectionItem>, j: int)
    requires
        0 <= j < priority_keys(s).len(),
    ensures
        priority_keys(s)[j].1 == 0,
        0 <= priority_keys(s)[j].0 <= 255,
    decreases s.len(),
{
    if s.len() > 0 {
        let prev = priority_keys(s.drop_last());
        if j < prev.len() {
            lemma_priority_keys_range(s.drop_last(), j);
        }
    }
}

/// How many wishlisted items have each priority, ascending.
pub fn wishlist_by_priority(items: &Vec<&CollectionItem>) -> (v: Vec<(u8, usize)>)
    ensures
        is_priority_count(v@, items@),
{
    let keys = priorities(items);
    let t = tally(&keys);
    proof {
        assert forall|q: int| 0 <= q < t@.len() implies (#[trigger] t@[q]).0.1 == 0 && 0
            <= t@[q].0.0 <= 255 by {
            assert(t@[q].1 > 0);
            lemma_key_count_pos(keys@, t@[q].0);
            let i = choose|i: int| 0 <= i < keys@.len() && keys@[i] == t@[q].0;
            lemma_priority_keys_range(items@, i);
        }
    }
    let mut v: Vec<(u8, usize)> = Vec::new();
    let mut j: usize = 0;
    while j < t.len()
        invariant
            is_tally(t@, keys@),
            keys@ == priority_keys(items@),
            j <= t@.len(),
            v@.len() == j,
            forall|q: int|
                0 <= q < j ==> (#[trigger] v@[q]).0 as i64 == t@[q].0.0 && v@[q].1 == t@[q].1,
            forall|q: int| 0 <= q < t@.len() ==> (#[trigger] t@[q]).0.1 == 0 && 0 <= t@[q].0.0 <= 255,
        decreases t@.len() - j,
    {
        v.push((t[j].0.0 as u8, t[j].1));
        j += 1;
    }
    proof {
        assert forall|q: int| 0 <= q < v@.len() implies (#[trigger] v@[q]).1 == key_count(
            priority_keys(items@),
            (v@[q].0 as i64, 0i64),
        ) && v@[q].1 > 0 by {
            assert(t@[q].0 == (v@[q].0 as i64, 0i64));
        }
        assert forall|a: int, b: int| 0 <= a < b < v@.len() implies #[trigger] v@[a].0
            < #[trigger] v@[b].0 by {
            assert(key_lt(t@[a].0, t@[b].0));
        }
        assert forall|p: u8| #[trigger] key_count(priority_keys(items@), (p as i64, 0i64))
            > 0 implies exists|j: int| 0 <= j < v@.len() && v@[j].0 == p by {
            let j = choose|j: int| 0 <= j < t@.len() && t@[j].0 == (p as i64, 0i64);
            assert(v@[j].0 as i64 == p as i64);
        }
    }
    v
}

/// The collection overview.
#[derive(Debug)]
pub struct Report {
    pub username: String,
    pub last_sync: Option<Timestamp>,
    pub items: ItemsBlock,
    pub statuses: Statuses,
    pub owned: OwnedStats,
}

/// What the overview states of the cache.
pub open spec fn report_of(cache: &CacheFile, r: Report) -> bool {
    let all = cache_values(cache);
    &&& r.username@ == cache.username@
    &&& r.last_sync == cache.last_sync
    &&& r.items.total == all.len()
    &&& r.items.boardgames == count_flag(all, Flag::Boardgame)
    &&& r.items.expansions == count_flag(all, Flag::Expansion)
    &&& r.items.other == all.len() - count_flag(all, Flag::Boardgame) - count_flag(all, Flag::Expansion)
    &&& r.statuses.own == count_flag(all, Flag::Own)
    &&& r.statuses.own_boardgames == count_flag(all, Flag::OwnBoardgame)
    &&& r.statuses.own_expansions == count_flag(all, Flag::OwnExpansion)
    &&& r.statuses.prev_owned == count_flag(all, Flag::PrevOwned)
    &&& r.statuses.for_trade == count_flag(all, Flag::ForTrade)
    &&& r.statuses.want == count_flag(all, Flag::Want)
    &&& r.statuses.want_to_play == count_flag(all, Flag::WantToPlay)
    &&& r.statuses.want_to_buy == count_flag(all, Flag::WantToBuy)
    &&& r.statuses.wishlist == count_flag(all, Flag::Wishlist)
    &&& r.statuses.preordered == count_flag(all, Flag::Preordered)
    &&& is_priority_count(r.statuses.wishlist_by_priority@, all)
    &&& overview_of(all, r.owned)
}

/// No item is both a base game and an expansion.
proof fn lemma_subtypes_disjoint(s: Seq<&CollectionItem>)
    ensures
        count_flag(s, Flag::Boardgame) + count_flag(s, Flag::Expansion) <= s.len(),
    decreases s.len(),
{
    if s.len() > 0 {
        lemma_subtypes_disjoint(s.drop_last());
        reveal_strlit("boardgame");
        reveal_strlit("boardgameexpansion");
        assert("boardgame"@.len() != "boardgameexpansion"@.len());
    }
}

/// The collection overview of the cache.
pub fn build(cache: &CacheFile) -> (r: Report)
    requires
        plays_total_of(owned_of(cache_values(cache))) <= u64::MAX,
    ensures
        report_of(cache, r),
{
    let all = values(cache);
    let boardgames = count_items(&all, Flag::Boardgame);
    let expansions = count_items(&all, Flag::Expansion);
    proof {
        lemma_subtypes_disjoint(all@);
    }
    let items = ItemsBlock {
        total: all.len(),
        boardgames,
        expansions,
        other: all.len() - boardgames - expansions,
    };
    let statuses = Statuses {
        own: count_items(&all, Flag::Own),
        own_boardgames: count_items(&all, Flag::OwnBoardgame),
        own_expansions: count_items(&all, Flag::OwnExpansion),
        prev_owned: count_items(&all, Flag::PrevOwned),
        for_trade: count_items(&all, Flag::ForTrade),
        want: count_items(&all, Flag::Want),
        want_to_play: count_items(&all, Flag::WantToPlay),
        want_to_buy: count_items(&all, Flag::WantToBuy),
        wishlist: count_items(&all, Flag::Wishlist),
        preordered: count_items(&all, Flag::Preordered),
        wishlist_by_priority: wishlist_by_priority(&all),
    };
    Report {
        username: cache.username.clone(),
        last_sync: cache.last_sync,
        items,
        statuses,
        owned: owned::build(&all),
    }
}

/// The owned-game figures cover exactly the owned base games: as many as
/// the status counts report as owned base games.
pub proof fn lemma_owned_count_matches_status(s: Seq<&CollectionItem>)
    ensures
        owned_of(s).len() == count_flag(s, Flag::OwnBoardgame),
    decreases s.len(),
{
    if s.len() > 0 {
        lemma_owned_count_matches_status(s.drop_last());
    }
}

/// In a collection overview, the owned-game count equals the count of owned
/// base games among the status figures.
pub proof fn lemma_report_owned_count(cache: &CacheFile, r: Report)
    requires
        report_of(cache, r),
    ensures
        r.owned.count == r.statuses.own_boardgames,
{
    lemma_owned_count_matches_status(cache_values(cache));
}

} // verus!
