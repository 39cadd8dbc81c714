//! The collection model: items, their status flags and statistics, the
//! cache file that holds them keyed by BGG id, and the login cookies.
//!
//! Ratings are held as order keys: the `u32` that orders like the `f32`
//! rating under `f32::total_cmp` (the bits with the sign bit set for
//! non-negative values, all bits inverted for negative ones). The mapping is
//! a bijection, so the rating is recovered exactly at the edges of the
//! program, where floating point lives. Where the program compares ratings
//! for equality it does so as `f32`s do (NaN equals nothing, -0.0 equals
//! 0.0); orderings follow the keys, but the table sort counts -0.0 as 0.0.

use crate::text::{
    chars_eq, chars_less, chars_of, lemma_seq_lt_irreflexive, lemma_seq_lt_total,
    lemma_seq_lt_transitive, push_str, seq_lt, string_of,
};
use vstd::prelude::*;

verus! {

/// A point in time: seconds since the Unix epoch and the sub-second
/// nanoseconds (up to 1_999_999_999 inside a leap second).
#[derive(Debug, Clone, Copy, PartialEq, Eq, Structural)]
pub struct Timestamp {
    pub secs: i64,
    pub nanos: u32,
}

/// Whether `a` is strictly earlier than `b`.
pub open spec fn ts_before(a: Timestamp, b: Timestamp) -> bool {
    a.secs < b.secs || (a.secs == b.secs && a.nanos < b.nanos)
}

/// The collection status flags of one item.
#[derive(Debug, Clone, Copy, PartialEq, Eq, Structural)]
pub struct Status {
    pub own: bool,
    pub prev_owned: bool,
    pub for_trade: bool,
    pub want: bool,
    pub want_to_play: bool,
    pub want_to_buy: bool,
    pub wishlist: bool,
    pub wishlist_priority: Option<u8>,
    pub preordered: bool,
    pub last_modified: Option<Timestamp>,
}

impl Default for Status {
    /// No flag set, no priority, no modification time.
    fn default() -> (s: Self)
        ensures
            s == (Status {
                own: false,
                prev_owned: false,
                for_trade: false,
                want: false,
                want_to_play: false,
                want_to_buy: false,
                wishlist: false,
                wishlist_priority: None,
                preordered: false,
                last_modified: None,
            }),
    {
        Status {
            own: false,
            prev_owned: false,
            for_trade: false,
            want: false,
            want_to_play: false,
            want_to_buy: false,
            wishlist: false,
            wishlist_priority: None,
            preordered: false,
            last_modified: None,
        }
    }
}

/// Game statistics of one item; the three ratings are order keys (see the
/// module documentation).
#[derive(Debug, Clone, Copy, PartialEq, Eq, Structural)]
pub struct Stats {
    pub min_players: Option<u32>,
    pub max_players: Option<u32>,
    pub playing_time: Option<u32>,
    pub user_rating: Option<u32>,
    pub average: Option<u32>,
    pub bayes_average: Option<u32>,
    pub users_rated: Option<u32>,
}

/// Whether stats with these bounds support `players` players: both bounds
/// known, all positive, and `players` within them.
pub open spec fn supports(stats: Stats, players: u32) -> bool {
    match (stats.min_players, stats.max_players) {
        (Some(min), Some(max)) => players > 0 && min > 0 && max > 0 && min <= players && max
            >= players,
        _ => false,
    }
}

impl Stats {
    /// Whether the game plays with exactly `players` players.
    pub fn supports_player_count(&self, players: u32) -> (r: bool)
        ensures
            r == supports(*self, players),
    {
        match (self.min_players, self.max_players) {
            (Some(min), Some(max)) => players > 0 && min > 0 && max > 0 && min <= players && max
                >= players,
            _ => false,
        }
    }
}

/// One item of a user's BGG collection.
#[derive(Debug)]
pub struct CollectionItem {
    pub id: u32,
    pub collid: Option<u64>,
    pub subtype: String,
    pub name: String,
    pub year_published: Option<i32>,
    pub image: Option<String>,
    pub thumbnail: Option<String>,
    pub status: Status,
    pub num_plays: u32,
    pub stats: Option<Stats>,
}

/// The text of an optional string.
pub open spec fn opt_text(o: Option<String>) -> Option<Seq<char>> {
    match o {
        Some(s) => Some(s@),
        None => None,
    }
}

/// Whether the order key stands for a NaN (either sign).
pub open spec fn key_is_nan(k: u32) -> bool {
    k > 0xFF80_0000 || k < 0x007F_FFFF
}

/// Whether the order key stands for 0.0 or -0.0.
pub open spec fn key_is_zero(k: u32) -> bool {
    k == 0x8000_0000 || k == 0x7FFF_FFFF
}

/// Whether two order keys stand for ratings that `f32`'s `==` calls equal:
/// neither is NaN, and they are the same value, 0.0 and -0.0 being equal.
pub open spec fn rating_eq(a: u32, b: u32) -> bool {
    !key_is_nan(a) && !key_is_nan(b) && (a == b || (key_is_zero(a) && key_is_zero(b)))
}

/// `==` on optional ratings: both absent, or both present and equal.
pub open spec fn opt_rating_eq(a: Option<u32>, b: Option<u32>) -> bool {
    match (a, b) {
        (None, None) => true,
        (Some(x), Some(y)) => rating_eq(x, y),
        _ => false,
    }
}

/// Whether two game statistics are equal as the derived `==` on them
/// compares them: the integers exactly, the ratings as `f32`s.
pub open spec fn same_stats(a: Stats, b: Stats) -> bool {
    &&& a.min_players == b.min_players
    &&& a.max_players == b.max_players
    &&& a.playing_time == b.playing_time
    &&& opt_rating_eq(a.user_rating, b.user_rating)
    &&& opt_rating_eq(a.average, b.average)
    &&& opt_rating_eq(a.bayes_average, b.bayes_average)
    &&& a.users_rated == b.users_rated
}

/// Whether two items hold the same values, field by field (ratings compared
/// as `f32`s: a NaN rating is equal to nothing, -0.0 equals 0.0).
pub open spec fn same_item(a: CollectionItem, b: CollectionItem) -> bool {
    &&& a.id == b.id
    &&& a.collid == b.collid
    &&& a.subtype@ == b.subtype@
    &&& a.name@ == b.name@
    &&& a.year_published == b.year_published
    &&& opt_text(a.image) == opt_text(b.image)
    &&& opt_text(a.thumbnail) == opt_text(b.thumbnail)
    &&& a.status == b.status
    &&& a.num_plays == b.num_plays
    &&& match (a.stats, b.stats) {
        (None, None) => true,
        (Some(x), Some(y)) => same_stats(x, y),
        _ => false,
    }
}

/// Whether an item's ratings are all numbers (no NaN).
pub open spec fn ratings_are_numbers(i: CollectionItem) -> bool {
    match i.stats {
        None => true,
        Some(s) => {
            &&& (s.user_rating matches Some(k) ==> !key_is_nan(k))
            &&& (s.average matches Some(k) ==> !key_is_nan(k))
            &&& (s.bayes_average matches Some(k) ==> !key_is_nan(k))
        },
    }
}

/// An item whose ratings are numbers holds the same values as itself.
pub proof fn lemma_same_item_reflexive(i: CollectionItem)
    requires
        ratings_are_numbers(i),
    ensures
        same_item(i, i),
{
}

fn opt_string_eq(a: &Option<String>, b: &Option<String>) -> (r: bool)
    ensures
        r == (opt_text(*a) == opt_text(*b)),
{
    match (a, b) {
        (Some(x), Some(y)) => *x == *y,
        (None, None) => true,
        _ => false,
    }
}

fn opt_rating_equal(a: Option<u32>, b: Option<u32>) -> (r: bool)
    ensures
        r == opt_rating_eq(a, b),
{
    match (a, b) {
        (None, None) => true,
        (Some(x), Some(y)) => {
            let nan_x = x > 0xFF80_0000 || x < 0x007F_FFFF;
            let nan_y = y > 0xFF80_0000 || y < 0x007F_FFFF;
            let zero_x = x == 0x8000_0000 || x == 0x7FFF_FFFF;
            let zero_y = y == 0x8000_0000 || y == 0x7FFF_FFFF;
            !nan_x && !nan_y && (x == y || (zero_x && zero_y))
        },
        _ => false,
    }
}

fn stats_equal(a: &Option<Stats>, b: &Option<Stats>) -> (r: bool)
    ensures
        r == match (*a, *b) {
            (None, None) => true,
            (Some(x), Some(y)) => same_stats(x, y),
            _ => false,
        },
{
    match (a, b) {
        (None, None) => true,
        (Some(x), Some(y)) => x.min_players == y.min_players && x.max_players == y.max_players
            && x.playing_time == y.playing_time && opt_rating_equal(x.user_rating, y.user_rating)
            && opt_rating_equal(x.average, y.average) && opt_rating_equal(
            x.bayes_average,
            y.bayes_average,
        ) && x.users_rated == y.users_rated,
        _ => false,
    }
}

/// Whether two items hold the same values, as `==` on them compares them.
pub fn items_equal(a: &CollectionItem, b: &CollectionItem) -> (r: bool)
    ensures
        r == same_item(*a, *b),
{
    a.id == b.id && a.collid == b.collid && a.subtype == b.subtype && a.name == b.name
        && a.year_published == b.year_published && opt_string_eq(&a.image, &b.image)
        && opt_string_eq(&a.thumbnail, &b.thumbnail) && a.status == b.status && a.num_plays
        == b.num_plays && stats_equal(&a.stats, &b.stats)
}

/// One cached item under its key (the BGG id in decimal, as written by `merge`).
#[derive(Debug)]
pub struct CacheEntry {
    pub key: String,
    pub item: CollectionItem,
}

/// The cached collection of one user. `items` is ordered by key, keys
/// strictly ascending (see `CacheFile::wf`), as a `BTreeMap<String, _>`
/// would iterate it.
#[derive(Debug)]
pub struct CacheFile {
    pub username: String,
    pub last_sync: Option<Timestamp>,
    pub items: Vec<CacheEntry>,
}

/// Keys strictly ascending in code-point order.
pub open spec fn keys_sorted(s: Seq<CacheEntry>) -> bool {
    forall|i: int, j: int| 0 <= i < j < s.len() ==> seq_lt(#[trigger] s[i].key@, #[trigger] s[j].key@)
}

/// The map from key text to item that a sorted entry sequence stands for.
pub open spec fn entries_map(s: Seq<CacheEntry>) -> Map<Seq<char>, CollectionItem>
    decreases s.len(),
{
    if s.len() == 0 {
        Map::empty()
    } else {
        entries_map(s.drop_last()).insert(s.last().key@, s.last().item)
    }
}

/// A sorted entry sequence stands for a map with one key per entry.
pub proof fn lemma_entries_len(s: Seq<CacheEntry>)
    requires
        keys_sorted(s),
    ensures
        entries_map(s).dom().finite(),
        entries_map(s).dom().len() == s.len(),
    decreases s.len(),
{
    if s.len() > 0 {
        let p = s.drop_last();
        assert(keys_sorted(p));
        lemma_entries_len(p);
        lemma_entries_map(p);
        assert(!entries_map(p).contains_key(s.last().key@)) by {
            if entries_map(p).contains_key(s.last().key@) {
                let i = choose|i: int| 0 <= i < p.len() && p[i].key@ == s.last().key@;
                assert(seq_lt(s[i].key@, s[s.len() - 1].key@));
                lemma_seq_lt_irreflexive(s[i].key@);
            }
        }
    } else {
        assert(entries_map(s).dom() =~= Set::<Seq<char>>::empty());
    }
}

/// With strictly ascending keys, the map holds exactly the entries' keys,
/// each with its entry's item.
pub proof fn lemma_entries_map(s: Seq<CacheEntry>)
    requires
        keys_sorted(s),
    ensures
        forall|k: Seq<char>| #[trigger]
            entries_map(s).contains_key(k) <==> exists|i: int| 0 <= i < s.len() && s[i].key@ == k,
        forall|i: int| 0 <= i < s.len() ==> #[trigger] entries_map(s)[s[i].key@] == s[i].item,
    decreases s.len(),
{
    if s.len() > 0 {
        let p = s.drop_last();
        assert(keys_sorted(p));
        lemma_entries_map(p);
        assert forall|k: Seq<char>| #[trigger]
            entries_map(s).contains_key(k) <==> exists|i: int| 0 <= i < s.len() && s[i].key@ == k by {
            if entries_map(s).contains_key(k) && k != s.last().key@ {
                let i = choose|i: int| 0 <= i < p.len() && p[i].key@ == k;
                assert(s[i].key@ == k);
            }
            if exists|i: int| 0 <= i < s.len() && s[i].key@ == k {
                let i = choose|i: int| 0 <= i < s.len() && s[i].key@ == k;
                if i < s.len() - 1 {
                    assert(p[i].key@ == k);
                }
            }
        }
        assert forall|i: int| 0 <= i < s.len() implies #[trigger] entries_map(s)[s[i].key@]
            == s[i].item by {
            if i < s.len() - 1 {
                assert(seq_lt(s[i].key@, s[s.len() - 1].key@));
                lemma_seq_lt_irreflexive(s[i].key@);
                assert(p[i] == s[i]);
            }
        }
    }
}

/// Inserting an entry at its place in the key order keeps the keys sorted
/// and adds the entry to the map.
pub proof fn lemma_entries_insert(s: Seq<CacheEntry>, i: int, e: CacheEntry)
    requires
        keys_sorted(s),
        0 <= i <= s.len(),
        forall|j: int| 0 <= j < i ==> seq_lt(#[trigger] s[j].key@, e.key@),
        forall|j: int| i <= j < s.len() ==> seq_lt(e.key@, #[trigger] s[j].key@),
    ensures
        keys_sorted(s.insert(i, e)),
        entries_map(s.insert(i, e)) == entries_map(s).insert(e.key@, e.item),
{
    let t = s.insert(i, e);
    assert forall|a: int, b: int| 0 <= a < b < t.len() implies seq_lt(
        #[trigger] t[a].key@,
        #[trigger] t[b].key@,
    ) by {
        if a < i && b > i {
            lemma_seq_lt_transitive(s[a].key@, e.key@, s[b - 1].key@);
        }
    }
    lemma_entries_map(s);
    lemma_entries_map(t);
    assert forall|j: int| 0 <= j < s.len() implies s[j].key@ != e.key@ by {
        lemma_seq_lt_irreflexive(e.key@);
    }
    assert forall|k: Seq<char>| #[trigger] entries_map(t).contains_key(k) <==> entries_map(
        s,
    ).insert(e.key@, e.item).contains_key(k) by {
        if exists|j: int| 0 <= j < t.len() && t[j].key@ == k {
            let j = choose|j: int| 0 <= j < t.len() && t[j].key@ == k;
            if j < i {
                assert(s[j].key@ == k);
            } else if j > i {
                assert(s[j - 1].key@ == k);
            }
        }
        if exists|j: int| 0 <= j < s.len() && s[j].key@ == k {
            let j = choose|j: int| 0 <= j < s.len() && s[j].key@ == k;
            if j < i {
                assert(t[j].key@ == k);
            } else {
                assert(t[j + 1].key@ == k);
            }
        }
        if k == e.key@ {
            assert(t[i].key@ == k);
        }
    }
    assert forall|k: Seq<char>| #[trigger] entries_map(t).contains_key(k) implies entries_map(
        t,
    )[k] == entries_map(s).insert(e.key@, e.item)[k] by {
        let j = choose|j: int| 0 <= j < t.len() && t[j].key@ == k;
        if j < i {
            assert(t[j] == s[j]);
        } else if j > i {
            assert(t[j] == s[j - 1]);
        }
    }
    assert(entries_map(t) =~= entries_map(s).insert(e.key@, e.item));
}

/// Replacing the entry at `i` by one with the same key keeps the keys
/// sorted and maps that key to the new item.
pub proof fn lemma_entries_replace(s: Seq<CacheEntry>, i: int, e: CacheEntry)
    requires
        keys_sorted(s),
        0 <= i < s.len(),
        e.key@ == s[i].key@,
    ensures
        keys_sorted(s.update(i, e)),
        entries_map(s.update(i, e)) == entries_map(s).insert(e.key@, e.item),
{
    let t = s.update(i, e);
    assert forall|a: int, b: int| 0 <= a < b < t.len() implies seq_lt(
        #[trigger] t[a].key@,
        #[trigger] t[b].key@,
    ) by {
        assert(t[a].key@ == s[a].key@);
        assert(t[b].key@ == s[b].key@);
    }
    lemma_entries_map(s);
    lemma_entries_map(t);
    assert forall|k: Seq<char>| #[trigger] entries_map(t).contains_key(k) <==> entries_map(
        s,
    ).insert(e.key@, e.item).contains_key(k) by {
        if exists|j: int| 0 <= j < t.len() && t[j].key@ == k {
            let j = choose|j: int| 0 <= j < t.len() && t[j].key@ == k;
            assert(s[j].key@ == k);
        }
        if exists|j: int| 0 <= j < s.len() && s[j].key@ == k {
            let j = choose|j: int| 0 <= j < s.len() && s[j].key@ == k;
            assert(t[j].key@ == k);
        }
    }
    assert forall|k: Seq<char>| #[trigger] entries_map(t).contains_key(k) implies entries_map(
        t,
    )[k] == entries_map(s).insert(e.key@, e.item)[k] by {
        let j = choose|j: int| 0 <= j < t.len() && t[j].key@ == k;
        if j != i {
            assert(t[j] == s[j]);
            assert(seq_lt(s[j].key@, s[i].key@) || seq_lt(s[i].key@, s[j].key@));
            lemma_seq_lt_irreflexive(k);
        }
    }
    assert(entries_map(t) =~= entries_map(s).insert(e.key@, e.item));
}

/// Where `key` stands among the sorted entries.
pub open spec fn slot_of(s: Seq<CacheEntry>, key: Seq<char>, pos: int, found: bool) -> bool {
    &&& 0 <= pos <= s.len()
    &&& forall|j: int| 0 <= j < pos ==> seq_lt(#[trigger] s[j].key@, key)
    &&& found ==> pos < s.len() && s[pos].key@ == key
    &&& !found ==> forall|j: int| pos <= j < s.len() ==> seq_lt(key, #[trigger] s[j].key@)
}

impl CacheFile {
    /// Keys strictly ascending.
    pub open spec fn wf(&self) -> bool {
        keys_sorted(self.items@)
    }

    /// The cached items by key text.
    pub open spec fn item_map(&self) -> Map<Seq<char>, CollectionItem> {
        entries_map(self.items@)
    }

    /// An empty cache for `username`, never synced.
    pub fn empty(username: &str) -> (c: CacheFile)
        ensures
            c.username@ == username@,
            c.last_sync is None,
            c.items@.len() == 0,
            c.wf(),
    {
        CacheFile { username: username.to_owned(), last_sync: None, items: Vec::new() }
    }

    /// Whether the entries are in strictly ascending key order, the order
    /// every operation on the cache relies on.
    pub fn keys_in_order(&self) -> (r: bool)
        ensures
            r == self.wf(),
    {
        let n = self.items.len();
        if n == 0 {
            return true;
        }
        let mut prev = chars_of(self.items[0].key.as_str());
        let mut i: usize = 1;
        while i < n
            invariant
                1 <= i <= n,
                n == self.items@.len(),
                prev@ == self.items@[i - 1].key@,
                keys_sorted(self.items@.take(i as int)),
            decreases n - i,
        {
            let k = chars_of(self.items[i].key.as_str());
            if !chars_less(&prev, &k) {
                proof {
                    assert(!keys_sorted(self.items@)) by {
                        if keys_sorted(self.items@) {
                            assert(seq_lt(self.items@[i - 1].key@, self.items@[i as int].key@));
                        }
                    }
                }
                return false;
            }
            proof {
                let t = self.items@.take(i as int + 1);
                assert forall|a: int, b: int| 0 <= a < b < t.len() implies seq_lt(
                    #[trigger] t[a].key@,
                    #[trigger] t[b].key@,
                ) by {
                    let pre = self.items@.take(i as int);
                    if b < i {
                        assert(t[a] == pre[a] && t[b] == pre[b]);
                    } else if a == i - 1 {
                    } else {
                        assert(t[a] == pre[a] && pre[i - 1] == t[i - 1]);
                        assert(seq_lt(pre[a].key@, pre[i - 1].key@));
                        crate::text::lemma_seq_lt_transitive(t[a].key@, t[i - 1].key@, t[b].key@);
                    }
                }
            }
            prev = k;
            i += 1;
        }
        assert(self.items@.take(n as int) =~= self.items@);
        true
    }

    /// The slot of `key`: the number of entries before it and whether an
    /// entry holds it.
    pub fn find_slot(&self, key: &Vec<char>) -> (r: (usize, bool))
        requires
            self.wf(),
        ensures
            slot_of(self.items@, key@, r.0 as int, r.1),
    {
        let mut i: usize = 0;
        while i < self.items.len()
            invariant
                self.wf(),
                i <= self.items@.len(),
                forall|j: int| 0 <= j < i ==> seq_lt(#[trigger] self.items@[j].key@, key@),
            decreases self.items@.len() - i,
        {
            let k = chars_of(self.items[i].key.as_str());
            if chars_less(&k, key) {
                i += 1;
            } else {
                let found = chars_eq(&k, key);
                proof {
                    lemma_seq_lt_total(k@, key@);
                    assert forall|j: int| i < j < self.items@.len() implies seq_lt(
                        self.items@[i as int].key@,
                        #[trigger] self.items@[j].key@,
                    ) by {}
                    if !found {
                        assert forall|j: int| i <= j < self.items@.len() implies seq_lt(
                            key@,
                            #[trigger] self.items@[j].key@,
                        ) by {
                            if j > i {
                                lemma_seq_lt_transitive(key@, k@, self.items@[j].key@);
                            }
                        }
                    }
                }
                return (i, found);
            }
        }
        (i, false)
    }

    /// Stores `item` under `key`, replacing what the key held.
    pub fn insert(&mut self, key: String, item: CollectionItem)
        requires
            old(self).wf(),
        ensures
            final(self).wf(),
            final(self).item_map() == old(self).item_map().insert(key@, item),
            final(self).username == old(self).username,
            final(self).last_sync == old(self).last_sync,
    {
        let k = chars_of(key.as_str());
        let (pos, found) = self.find_slot(&k);
        let entry = CacheEntry { key, item };
        if found {
            proof {
                lemma_entries_replace(self.items@, pos as int, entry);
            }
            self.items.set(pos, entry);
        } else {
            proof {
                lemma_entries_insert(self.items@, pos as int, entry);
            }
            self.items.insert(pos, entry);
        }
    }

    /// The item under `key`, if any.
    pub fn get(&self, key: &str) -> (r: Option<&CollectionItem>)
        requires
            self.wf(),
        ensures
            match r {
                Some(it) => self.item_map().contains_key(key@) && *it == self.item_map()[key@],
                None => !self.item_map().contains_key(key@),
            },
    {
        let k = chars_of(key);
        let (pos, found) = self.find_slot(&k);
        proof {
            lemma_entries_map(self.items@);
        }
        if found {
            Some(&self.items[pos].item)
        } else {
            proof {
                if self.item_map().contains_key(key@) {
                    let j = choose|j: int| 0 <= j < self.items@.len() && self.items@[j].key@ == key@;
                    if j < pos {
                        lemma_seq_lt_irreflexive(key@);
                    } else {
                        lemma_seq_lt_irreflexive(key@);
                    }
                }
            }
            None
        }
    }

    /// The number of cached items.
    pub fn len(&self) -> (n: usize)
        ensures
            n == self.items@.len(),
    {
        self.items.len()
    }
}

/// The three BGG login cookies.
#[derive(Debug, Clone)]
pub struct Cookies {
    pub bggusername: String,
    pub bggpassword: String,
    pub session_id: String,
}

/// The `Cookie:` header text for these cookies.
pub open spec fn cookie_header(c: Cookies) -> Seq<char> {
    "bggusername="@ + c.bggusername@ + "; bggpassword="@ + c.bggpassword@ + "; SessionID="@
        + c.session_id@
}

impl Cookies {
    /// The value of the `Cookie:` header that sends these cookies.
    pub fn header(&self) -> (h: String)
        ensures
            h@ == cookie_header(*self),
    {
        let mut out: Vec<char> = Vec::new();
        push_str(&mut out, "bggusername=");
        push_str(&mut out, self.bggusername.as_str());
        push_str(&mut out, "; bggpassword=");
        push_str(&mut out, self.bggpassword.as_str());
        push_str(&mut out, "; SessionID=");
        push_str(&mut out, self.session_id.as_str());
        string_of(&out)
    }
}

/// What the credential store keeps per user: the password (to log in again
/// when the session lapses), the cookies, and until when the session is
/// expected to be accepted, if known.
#[derive(Debug, Clone)]
pub struct StoredCreds {
    pub password: String,
    pub cookies: Cookies,
    pub session_fresh_until: Option<Timestamp>,
}

} // verus!
