//! Turning the fields of a collection `<item>`, as the XML reader found
//! them, into a collection item: status flags from their `1`/`true` text,
//! the modification time from BGG's timestamp text, defaults for what is
//! missing.

use crate::clock::{bgg_datetime_format, naive_utc_parse, parse_naive_utc};
use crate::model::{CollectionItem, Stats, Status, Timestamp};
use crate::text::chars_of;
use vstd::prelude::*;

verus! {

/// The text of a status attribute (empty when absent).
#[derive(Debug, Default)]
pub struct BoolFlag(pub String);

/// Whether a status attribute's text means "set".
pub open spec fn truthy_text(s: Seq<char>) -> bool {
    s == "1"@ || s == "true"@
}

impl BoolFlag {
    /// Whether the attribute is set: its text is `1` or `true`.
    pub fn truthy(&self) -> (r: bool)
        ensures
            r == truthy_text(self.0@),
    {
        let v = chars_of(self.0.as_str());
        crate::text::eq_lit(&v, "1") || crate::text::eq_lit(&v, "true")
    }
}

/// The `<status>` attributes of an item.
#[derive(Debug)]
pub struct RawStatus {
    pub own: BoolFlag,
    pub prevowned: BoolFlag,
    pub fortrade: BoolFlag,
    pub want: BoolFlag,
    pub wanttoplay: BoolFlag,
    pub wanttobuy: BoolFlag,
    pub wishlist: BoolFlag,
    pub wishlistpriority: Option<u8>,
    pub preordered: BoolFlag,
    pub lastmodified: Option<String>,
}

/// The `<stats>` of an item; the ratings are already read into order keys.
#[derive(Debug)]
pub struct RawStats {
    pub minplayers: Option<u32>,
    pub maxplayers: Option<u32>,
    pub playingtime: Option<u32>,
    pub rating: Option<u32>,
    pub usersrated: Option<u32>,
    pub average: Option<u32>,
    pub bayesaverage: Option<u32>,
}

/// One `<item>` of a collection answer.
#[derive(Debug)]
pub struct RawItem {
    pub objectid: u32,
    pub subtype: String,
    pub collid: Option<u64>,
    pub name: String,
    pub yearpublished: Option<i32>,
    pub image: Option<String>,
    pub thumbnail: Option<String>,
    pub stats: Option<RawStats>,
    pub status: RawStatus,
    pub numplays: Option<u32>,
}

/// Whether a rating attribute holds a number to read: anything but `n/a`,
/// in any letter case.
pub open spec fn rating_applies_text(s: Seq<char>) -> bool {
    !(s.len() == 3 && (s[0] == 'n' || s[0] == 'N') && s[1] == '/' && (s[2] == 'a' || s[2]
        == 'A'))
}

/// Whether a rating attribute holds a number to read (it is not `n/a`).
pub fn rating_applies(s: &str) -> (r: bool)
    ensures
        r == rating_applies_text(s@),
{
    let v = chars_of(s);
    !(v.len() == 3 && (v[0] == 'n' || v[0] == 'N') && v[1] == '/' && (v[2] == 'a' || v[2] == 'A'))
}

/// The time BGG's timestamp text denotes, read as UTC.
pub open spec fn bgg_time_of(s: Seq<char>) -> Option<Timestamp> {
    match naive_utc_parse(s, bgg_datetime_format()) {
        Some((secs, nanos)) => Some(Timestamp { secs, nanos }),
        None => None,
    }
}

/// Reads BGG's `YYYY-MM-DD HH:MM:SS` timestamp text as a UTC time.
pub fn parse_bgg_datetime(s: &str) -> (r: Option<Timestamp>)
    ensures
        r == bgg_time_of(s@),
{
    match parse_naive_utc(s, "%Y-%m-%d %H:%M:%S") {
        Some((secs, nanos)) => Some(Timestamp { secs, nanos }),
        None => None,
    }
}

/// The status an item's `<status>` attributes describe.
pub open spec fn status_of(x: RawStatus) -> Status {
    Status {
        own: truthy_text(x.own.0@),
        prev_owned: truthy_text(x.prevowned.0@),
        for_trade: truthy_text(x.fortrade.0@),
        want: truthy_text(x.want.0@),
        want_to_play: truthy_text(x.wanttoplay.0@),
        want_to_buy: truthy_text(x.wanttobuy.0@),
        wishlist: truthy_text(x.wishlist.0@),
        wishlist_priority: x.wishlistpriority,
        preordered: truthy_text(x.preordered.0@),
        last_modified: match x.lastmodified {
            Some(t) => bgg_time_of(t@),
            None => None,
        },
    }
}

/// The statistics an item's `<stats>` describe.
pub open spec fn stats_of(s: RawStats) -> Stats {
    Stats {
        min_players: s.minplayers,
        max_players: s.maxplayers,
        playing_time: s.playingtime,
        user_rating: s.rating,
        average: s.average,
        bayes_average: s.bayesaverage,
        users_rated: s.usersrated,
    }
}

/// `item` is what the `<item>` fields `x` describe.
pub open spec fn item_of_raw(x: RawItem, item: CollectionItem) -> bool {
    &&& item.id == x.objectid
    &&& item.collid == x.collid
    &&& item.subtype@ == x.subtype@
    &&& item.name@ == x.name@
    &&& item.year_published == x.yearpublished
    &&& item.image == x.image
    &&& item.thumbnail == x.thumbnail
    &&& item.status == status_of(x.status)
    &&& item.num_plays == match x.numplays {
        Some(n) => n,
        None => 0,
    }
    &&& item.stats == match x.stats {
        Some(s) => Some(stats_of(s)),
        None => None,
    }
}

/// The status an item's `<status>` attributes describe.
pub fn status_from_raw(x: &RawStatus) -> (s: Status)
    ensures
        s == status_of(*x),
{
    Status {
        own: x.own.truthy(),
        prev_owned: x.prevowned.truthy(),
        for_trade: x.fortrade.truthy(),
        want: x.want.truthy(),
        want_to_play: x.wanttoplay.truthy(),
        want_to_buy: x.wanttobuy.truthy(),
        wishlist: x.wishlist.truthy(),
        wishlist_priority: x.wishlistpriority,
        preordered: x.preordered.truthy(),
        last_modified: match &x.lastmodified {
            Some(t) => parse_bgg_datetime(t.as_str()),
            None => None,
        },
    }
}

/// The collection item an `<item>` describes: plays default to zero.
pub fn item_from_raw(x: RawItem) -> (item: CollectionItem)
    ensures
        item_of_raw(x, item),
{
    let status = status_from_raw(&x.status);
    let stats = match x.stats {
        Some(s) => Some(
            Stats {
                min_players: s.minplayers,
                max_players: s.maxplayers,
                playing_time: s.playingtime,
                user_rating: s.rating,
                average: s.average,
                bayes_average: s.bayesaverage,
                users_rated: s.usersrated,
            },
        ),
        None => None,
    };
    let num_plays: u32 = match x.numplays {
        Some(n) => n,
        None => 0,
    };
    CollectionItem {
        id: x.objectid,
        collid: x.collid,
        subtype: x.subtype,
        name: x.name,
        year_published: x.yearpublished,
        image: x.image,
        thumbnail: x.thumbnail,
        status,
        num_plays,
        stats,
    }
}

/// The collection items of a parsed answer, in order.
pub fn items_from_raw(xs: Vec<RawItem>) -> (items: Vec<CollectionItem>)
    ensures
        items@.len() == xs@.len(),
        forall|k: int| 0 <= k < xs@.len() ==> item_of_raw(#[trigger] xs@[k], items@[k]),
{
    let mut items: Vec<CollectionItem> = Vec::new();
    let ghost all = xs@;
    for x in iter: xs
        invariant
            iter.seq() == all,
            items@.len() == iter.index(),
            forall|k: int| 0 <= k < items@.len() ==> item_of_raw(#[trigger] all[k], items@[k]),
    {
        items.push(item_from_raw(x));
    }
    items
}

} // verus!
