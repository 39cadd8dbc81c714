//! The collection request: the endpoint and its query parameters.

use crate::clock::{bgg_since_format, format_utc, utc_format};
use crate::model::Timestamp;
use crate::text::{push_str, string_of};
use vstd::prelude::*;

verus! {

/// The path of the collection endpoint.
pub open spec fn collection_path() -> Seq<char> {
    "/xmlapi2/collection"@
}

/// The path of the collection endpoint.
pub fn collection_endpoint() -> (p: &'static str)
    ensures
        p@ == collection_path(),
{
    "/xmlapi2/collection"
}

/// The query parameters as text pairs.
pub open spec fn pairs_view(q: Seq<(String, String)>) -> Seq<(Seq<char>, Seq<char>)> {
    q.map_values(|p: (String, String)| (p.0@, p.1@))
}

/// The parameters every collection request carries: the user, statistics
/// on, and the subtype when one is asked for.
pub open spec fn base_query(username: Seq<char>, subtype: Option<Seq<char>>) -> Seq<(Seq<char>, Seq<char>)> {
    let q = seq![("username"@, username), ("stats"@, "1"@)];
    match subtype {
        Some(s) => q.push(("subtype"@, s)),
        None => q,
    }
}

/// The full query: the base parameters, then `modifiedsince` one minute
/// before the given time, in BGG's short format; `None` when that time
/// cannot be written (it lies outside the calendar's range).
pub open spec fn collection_query_of(
    username: Seq<char>,
    since: Option<Timestamp>,
    subtype: Option<Seq<char>>,
) -> Option<Seq<(Seq<char>, Seq<char>)>> {
    let base = base_query(username, subtype);
    match since {
        None => Some(base),
        Some(t) => if t.secs < i64::MIN + 60 {
            None
        } else {
            match utc_format((t.secs - 60) as i64, t.nanos, bgg_since_format()) {
                Some(text) => Some(base.push(("modifiedsince"@, text))),
                None => None,
            }
        },
    }
}

fn text(s: &str) -> (r: String)
    ensures
        r@ == s@,
{
    let mut v: Vec<char> = Vec::new();
    push_str(&mut v, s);
    string_of(&v)
}

/// The query of a collection request for `username`: statistics on, the
/// subtype if given, and with a last sync time the changes since one minute
/// before it (a safety margin). `None` when that time cannot be written.
pub fn collection_query(username: &str, since: Option<Timestamp>, subtype: Option<&str>) -> (r: Option<Vec<(String, String)>>)
    ensures
        match r {
            Some(q) => collection_query_of(username@, since, match subtype {
                Some(s) => Some(s@),
                None => None,
            }) == Some(pairs_view(q@)),
            None => collection_query_of(username@, since, match subtype {
                Some(s) => Some(s@),
                None => None,
            }) is None,
        },
{
    let ghost sub = match subtype {
        Some(s) => Some(s@),
        None => None::<Seq<char>>,
    };
    let mut q: Vec<(String, String)> = Vec::new();
    q.push((text("username"), text(username)));
    q.push((text("stats"), text("1")));
    match subtype {
        Some(s) => q.push((text("subtype"), text(s))),
        None => {},
    }
    assert(pairs_view(q@) =~= base_query(username@, sub));
    match since {
        None => Some(q),
        Some(t) => {
            if t.secs < i64::MIN + 60 {
                return None;
            }
            match format_utc(t.secs - 60, t.nanos, "%y-%m-%d %H:%M:%S") {
                Some(when) => {
                    let ghost before = q@;
                    q.push((text("modifiedsince"), when));
                    assert(pairs_view(q@) =~= pairs_view(before).push(("modifiedsince"@, q@.last().1@)));
                    Some(q)
                },
                None => None,
            }
        },
    }
}

} // verus!
