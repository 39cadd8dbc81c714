//! `bgg sync`: the decisions around fetching the collection. What is asked
//! for (everything, or what changed since the last sync), when the session
//! needs a fresh login, what a full sync drops from the cache, and what is
//! reported at the end.

use crate::cache::{
    incoming_keys, item_key, lemma_merge_keeps_keys, merge, merge_tally, merged, MergeReport,
};
use crate::error::Error;
use crate::model::{
    entries_map, keys_sorted, lemma_entries_len, lemma_entries_map, ts_before, CacheEntry, CacheFile, CollectionItem,
    Timestamp,
};
use crate::text::{chars_eq, chars_of, decimal, decimal_text, push_decimal, push_str, string_of};
use vstd::prelude::*;

verus! {

/// The subtypes a sync fetches, one request each, with how they are named
/// in progress messages.
pub open spec fn sync_subtypes() -> Seq<(Seq<char>, Seq<char>)> {
    seq![("boardgame"@, "base games"@), ("boardgameexpansion"@, "expansions"@)]
}

/// Sync subtype `k` and its label.
pub fn sync_subtype(k: usize) -> (r: (&'static str, &'static str))
    requires
        k < 2,
    ensures
        (r.0@, r.1@) == sync_subtypes()[k as int],
{
    if k == 0 {
        ("boardgame", "base games")
    } else {
        ("boardgameexpansion", "expansions")
    }
}

/// The progress message while fetching the subtype labelled `label`.
pub fn fetching_message(label: &str) -> (m: String)
    ensures
        m@ == "Fetching "@ + label@ + "…"@,
{
    let mut out: Vec<char> = Vec::new();
    push_str(&mut out, "Fetching ");
    push_str(&mut out, label);
    push_str(&mut out, "…");
    string_of(&out)
}

/// The time a sync asks for changes since: none for a full sync, else the
/// last sync.
pub fn modified_since(full: bool, last_sync: Option<Timestamp>) -> (r: Option<Timestamp>)
    ensures
        r == if full {
            None
        } else {
            last_sync
        },
{
    if full {
        None
    } else {
        last_sync
    }
}

/// Whether the session is known to have lapsed: its end is known and `now`
/// is not before it.
pub open spec fn session_stale_at(fresh_until: Option<Timestamp>, now: Timestamp) -> bool {
    match fresh_until {
        Some(t) => !ts_before(now, t),
        None => false,
    }
}

/// Whether the session is known to have lapsed at `now`.
pub fn session_stale(fresh_until: Option<Timestamp>, now: Timestamp) -> (r: bool)
    ensures
        r == session_stale_at(fresh_until, now),
{
    match fresh_until {
        Some(t) => t.secs < now.secs || (t.secs == now.secs && t.nanos <= now.nanos),
        None => false,
    }
}

/// The message when the stored password no longer logs in.
pub open spec fn stale_password_message() -> Seq<char> {
    "stored password no longer works (changed on BGG?). Run `bgg auth` to re-enter."@
}

/// What a failed renewal of the session reports: a refused login means the
/// stored password is no longer good; other failures pass through.
pub fn refresh_error(e: Error) -> (r: Error)
    ensures
        match e {
            Error::AuthRequired => r matches Error::Secrets(m) && m@ == stale_password_message(),
            _ => r == e,
        },
{
    match e {
        Error::AuthRequired => Error::Secrets(
            "stored password no longer works (changed on BGG?). Run `bgg auth` to re-enter.".to_owned(),
        ),
        other => other,
    }
}


/// Where fetching one subtype stands.
#[derive(Debug)]
pub enum FetchState {
    /// Waiting for a fresh login; `can_retry` says whether an expired
    /// session may still be renewed once more.
    Renewing { can_retry: bool },
    /// Waiting for the collection.
    Fetching { can_retry: bool },
    Finished,
}

/// What came of the last action.
#[derive(Debug)]
pub enum FetchEvent {
    Refreshed(Result<(), Error>),
    Fetched(Result<Vec<CollectionItem>, Error>),
}

/// What to do next.
#[derive(Debug)]
pub enum FetchAction {
    /// Log in again with the stored password (and store the new cookies),
    /// showing `message`.
    Refresh { message: String },
    Fetch,
    Finish(Result<Vec<CollectionItem>, Error>),
}

/// The progress message of a renewal the session's end called for.
pub open spec fn renew_message() -> Seq<char> {
    "Refreshing BGG session…"@
}

/// The progress message of a renewal BGG's refusal called for.
pub open spec fn expired_message() -> Seq<char> {
    "Session expired, refreshing…"@
}

/// Starts fetching a subtype: a session known to have lapsed is renewed
/// first.
pub fn fetch_start(stale: bool) -> (r: (FetchState, FetchAction))
    ensures
        stale ==> (r.0 matches FetchState::Renewing { can_retry: true } && r.1 matches FetchAction::Refresh { message } && message@ == renew_message()),
        !stale ==> (r.0 matches FetchState::Fetching { can_retry: true } && r.1 is Fetch),
{
    if stale {
        (FetchState::Renewing { can_retry: true }, FetchAction::Refresh { message: "Refreshing BGG session…".to_owned() })
    } else {
        (FetchState::Fetching { can_retry: true }, FetchAction::Fetch)
    }
}

/// Whether the event answers the action the state waits on.
pub open spec fn fetch_event_fits(s: FetchState, e: FetchEvent) -> bool {
    match s {
        FetchState::Renewing { .. } => e is Refreshed,
        FetchState::Fetching { .. } => e is Fetched,
        FetchState::Finished => false,
    }
}

/// What fetching does on `e` in state `s`: a failed renewal ends it (a
/// refused login as a stale password); a renewal is followed by a fetch; a
/// session BGG refuses is renewed once and the fetch repeated; any other
/// answer ends it.
pub open spec fn fetch_step_of(s: FetchState, e: FetchEvent, next: FetchState, a: FetchAction) -> bool {
    match (s, e) {
        (FetchState::Renewing { .. }, FetchEvent::Refreshed(Err(err))) => {
            &&& next is Finished
            &&& a matches FetchAction::Finish(Err(e2)) && match err {
                Error::AuthRequired => e2 matches Error::Secrets(m) && m@ == stale_password_message(),
                _ => e2 == err,
            }
        },
        (FetchState::Renewing { can_retry }, FetchEvent::Refreshed(Ok(()))) => {
            &&& next matches FetchState::Fetching { can_retry: c } && c == can_retry
            &&& a is Fetch
        },
        (FetchState::Fetching { can_retry }, FetchEvent::Fetched(res)) => if can_retry && (res matches Err(
            Error::AuthRequired,
        )) {
            &&& next matches FetchState::Renewing { can_retry: false }
            &&& a matches FetchAction::Refresh { message } && message@ == expired_message()
        } else {
            &&& next is Finished
            &&& a matches FetchAction::Finish(r) && r == res
        },
        _ => false,
    }
}

/// The next state and action of fetching a subtype.
pub fn fetch_step(s: FetchState, e: FetchEvent) -> (r: (FetchState, FetchAction))
    requires
        fetch_event_fits(s, e),
    ensures
        fetch_step_of(s, e, r.0, r.1),
{
    match s {
        FetchState::Renewing { can_retry } => match e {
            FetchEvent::Refreshed(Err(err)) => (FetchState::Finished, FetchAction::Finish(Err(refresh_error(err)))),
            FetchEvent::Refreshed(Ok(())) => (FetchState::Fetching { can_retry }, FetchAction::Fetch),
            FetchEvent::Fetched(res) => (FetchState::Finished, FetchAction::Finish(res)),
        },
        FetchState::Fetching { can_retry } => match e {
            FetchEvent::Fetched(res) => {
                let expired = match &res {
                    Err(Error::AuthRequired) => true,
                    _ => false,
                };
                if can_retry && expired {
                    (
                        FetchState::Renewing { can_retry: false },
                        FetchAction::Refresh { message: "Session expired, refreshing…".to_owned() },
                    )
                } else {
                    (FetchState::Finished, FetchAction::Finish(res))
                }
            },
            FetchEvent::Refreshed(_) => (FetchState::Finished, FetchAction::Fetch),
        },
        FetchState::Finished => (FetchState::Finished, FetchAction::Fetch),
    }
}

fn key_texts(incoming: &Vec<CollectionItem>) -> (keys: Vec<Vec<char>>)
    ensures
        keys@.len() == incoming@.len(),
        forall|t: int| 0 <= t < keys@.len() ==> (#[trigger] keys@[t])@ == item_key(incoming@[t]),
{
    let mut keys: Vec<Vec<char>> = Vec::new();
    let mut i: usize = 0;
    while i < incoming.len()
        invariant
            i <= incoming@.len(),
            keys@.len() == i,
            forall|t: int| 0 <= t < i ==> (#[trigger] keys@[t])@ == item_key(incoming@[t]),
        decreases incoming@.len() - i,
    {
        keys.push(decimal_text(incoming[i].id as u64));
        i += 1;
    }
    keys
}

fn has_key(keys: &Vec<Vec<char>>, k: &Vec<char>) -> (r: bool)
    ensures
        r == exists|t: int| 0 <= t < keys@.len() && (#[trigger] keys@[t])@ == k@,
{
    let mut t: usize = 0;
    while t < keys.len()
        invariant
            t <= keys@.len(),
            forall|j: int| 0 <= j < t ==> (#[trigger] keys@[j])@ != k@,
        decreases keys@.len() - t,
    {
        if chars_eq(&keys[t], k) {
            return true;
        }
        t += 1;
    }
    false
}

/// Drops from the cache every item whose key was not fetched (what a full
/// sync does: an item gone from the collection is gone from the cache) and
/// returns how many were dropped.
pub fn remove_missing(cache: &mut CacheFile, incoming: &Vec<CollectionItem>) -> (removed: usize)
    requires
        old(cache).wf(),
    ensures
        final(cache).wf(),
        final(cache).item_map() == old(cache).item_map().restrict(incoming_keys(incoming@)),
        removed == old(cache).items@.len() - final(cache).items@.len(),
        final(cache).username == old(cache).username,
        final(cache).last_sync == old(cache).last_sync,
{
    let keys = key_texts(incoming);
    let ghost ks = incoming_keys(incoming@);
    let ghost olds = cache.items@;
    let n = cache.items.len();
    let mut old_items: Vec<CacheEntry> = Vec::new();
    std::mem::swap(&mut old_items, &mut cache.items);
    let mut kept: Vec<CacheEntry> = Vec::new();
    let ghost mut origin: Seq<int> = Seq::empty();
    for e in iter: old_items
        invariant
            iter.seq() == olds,
            keys_sorted(olds),
            n == olds.len(),
            keys@.len() == incoming@.len(),
            forall|t: int| 0 <= t < keys@.len() ==> (#[trigger] keys@[t])@ == item_key(incoming@[t]),
            kept@.len() == origin.len(),
            kept@.len() <= iter.index(),
            forall|j: int| 0 <= j < kept@.len() ==> 0 <= #[trigger] origin[j] < iter.index() && kept@[j] == olds[origin[j]],
            forall|a: int, b: int| 0 <= a < b < kept@.len() ==> #[trigger] origin[a] < #[trigger] origin[b],
            forall|j: int| 0 <= j < kept@.len() ==> ks.contains(#[trigger] kept@[j].key@),
            forall|i: int| 0 <= i < iter.index() && ks.contains(#[trigger] olds[i].key@) ==> exists|j: int| 0 <= j < kept@.len() && origin[j] == i,
            ks == incoming_keys(incoming@),
            cache.items@.len() == 0,
            cache.username == old(cache).username,
            cache.last_sync == old(cache).last_sync,
    {
        let ghost i = iter.index() as int;
        let ghost prev_origin = origin;
        let ghost prev_len = kept@.len();
        let k = chars_of(e.key.as_str());
        if has_key(&keys, &k) {
            proof {
                let t = choose|t: int| 0 <= t < keys@.len() && (#[trigger] keys@[t])@ == k@;
                assert(item_key(incoming@[t]) == e.key@);
                assert(ks.contains(e.key@));
                origin = origin.push(i);
            }
            kept.push(e);
            proof {
                assert forall|i2: int| 0 <= i2 < i + 1 && ks.contains(#[trigger] olds[i2].key@) implies exists|j: int|
                    0 <= j < kept@.len() && origin[j] == i2 by {
                    if i2 < i {
                        let j = choose|j: int| 0 <= j < prev_len && prev_origin[j] == i2;
                        assert(origin[j] == i2);
                    } else {
                        assert(origin[kept@.len() - 1] == i2);
                    }
                }
            }
        } else {
            proof {
                assert(!ks.contains(e.key@)) by {
                    if ks.contains(e.key@) {
                        let t = choose|t: int| 0 <= t < incoming@.len() && item_key(incoming@[t]) == e.key@;
                        assert(keys@[t]@ == k@);
                    }
                }
            }
        }
    }
    proof {
        assert forall|a: int, b: int| 0 <= a < b < kept@.len() implies crate::text::seq_lt(
            #[trigger] kept@[a].key@,
            #[trigger] kept@[b].key@,
        ) by {
            assert(origin[a] < origin[b]);
        }
        lemma_entries_map(olds);
        lemma_entries_map(kept@);
        let m0 = entries_map(olds).restrict(ks);
        assert forall|k: Seq<char>| #[trigger] entries_map(kept@).contains_key(k) <==> m0.contains_key(k) by {
            if entries_map(kept@).contains_key(k) {
                let j = choose|j: int| 0 <= j < kept@.len() && kept@[j].key@ == k;
                assert(olds[origin[j]].key@ == k);
            }
            if m0.contains_key(k) {
                let i = choose|i: int| 0 <= i < olds.len() && olds[i].key@ == k;
                let j = choose|j: int| 0 <= j < kept@.len() && origin[j] == i;
                assert(kept@[j].key@ == k);
            }
        }
        assert forall|k: Seq<char>| #[trigger] entries_map(kept@).contains_key(k) implies entries_map(kept@)[k] == m0[k] by {
            let j = choose|j: int| 0 <= j < kept@.len() && kept@[j].key@ == k;
            assert(entries_map(kept@)[kept@[j].key@] == kept@[j].item);
            assert(entries_map(olds)[olds[origin[j]].key@] == olds[origin[j]].item);
        }
        assert(entries_map(kept@) =~= m0);
    }
    let removed = n - kept.len();
    cache.items = kept;
    removed
}

/// The lines a sync ends with: what changed (or that nothing did), the
/// total, and after an incremental sync a reminder that only a full sync
/// notices deletions.
pub open spec fn sync_summary_of(r: MergeReport, removed: nat, total: nat, full: bool) -> Seq<Seq<char>> {
    let processed = r.new + r.updated + r.unchanged;
    let first = if processed == 0 && removed == 0 {
        "No changes since last sync. Total: "@ + decimal(total) + " items."@
    } else if full {
        "Full sync: "@ + decimal(r.new as nat) + " new, "@ + decimal(r.updated as nat) + " updated, "@
            + decimal(r.unchanged as nat) + " unchanged, "@ + decimal(removed) + " removed. Total: "@
            + decimal(total) + "."@
    } else {
        decimal(processed as nat) + " items processed ("@ + decimal(r.new as nat) + " new, "@ + decimal(
            r.updated as nat,
        ) + " updated, "@ + decimal(r.unchanged as nat) + " unchanged). Total: "@ + decimal(total)
            + "."@
    };
    if full {
        seq![first]
    } else {
        seq![first, "Tip: incremental sync cannot detect deletions. Run `bgg sync --full` periodically."@]
    }
}

/// The lines a sync ends with.
pub fn sync_summary(r: &MergeReport, removed: usize, total: usize, full: bool) -> (lines: Vec<String>)
    ensures
        lines@.len() == sync_summary_of(*r, removed as nat, total as nat, full).len(),
        forall|k: int| 0 <= k < lines@.len() ==> (#[trigger] lines@[k])@ == sync_summary_of(
            *r,
            removed as nat,
            total as nat,
            full,
        )[k],
{
    let processed: u64 = r.new as u64 + r.updated as u64 + r.unchanged as u64;
    let mut out: Vec<char> = Vec::new();
    if processed == 0 && removed == 0 {
        push_str(&mut out, "No changes since last sync. Total: ");
        push_decimal(&mut out, total as u64);
        push_str(&mut out, " items.");
    } else if full {
        push_str(&mut out, "Full sync: ");
        push_decimal(&mut out, r.new as u64);
        push_str(&mut out, " new, ");
        push_decimal(&mut out, r.updated as u64);
        push_str(&mut out, " updated, ");
        push_decimal(&mut out, r.unchanged as u64);
        push_str(&mut out, " unchanged, ");
        push_decimal(&mut out, removed as u64);
        push_str(&mut out, " removed. Total: ");
        push_decimal(&mut out, total as u64);
        push_str(&mut out, ".");
    } else {
        push_decimal(&mut out, processed);
        push_str(&mut out, " items processed (");
        push_decimal(&mut out, r.new as u64);
        push_str(&mut out, " new, ");
        push_decimal(&mut out, r.updated as u64);
        push_str(&mut out, " updated, ");
        push_decimal(&mut out, r.unchanged as u64);
        push_str(&mut out, " unchanged). Total: ");
        push_decimal(&mut out, total as u64);
        push_str(&mut out, ".");
    }
    let mut lines: Vec<String> = Vec::new();
    lines.push(string_of(&out));
    if !full {
        lines.push(
            "Tip: incremental sync cannot detect deletions. Run `bgg sync --full` periodically.".to_owned(),
        );
    }
    proof {
        let s = sync_summary_of(*r, removed as nat, total as nat, full);
        assert(lines@[0]@ =~= s[0]);
    }
    lines
}

/// The cached map a sync merges into: for a full sync, only the entries
/// whose keys were fetched; otherwise all of them.
pub open spec fn sync_base(
    m: Map<Seq<char>, CollectionItem>,
    incoming: Seq<CollectionItem>,
    full: bool,
) -> Map<Seq<char>, CollectionItem> {
    if full {
        m.restrict(incoming_keys(incoming))
    } else {
        m
    }
}

/// Applies the fetched items to the cache: a full sync first drops what was
/// not fetched, then the items are merged in. Returns the merge's counts and
/// how many entries were dropped (none for an incremental sync).
pub fn apply_sync(cache: &mut CacheFile, incoming: Vec<CollectionItem>, full: bool) -> (r: (
    MergeReport,
    usize,
))
    requires
        old(cache).wf(),
        incoming@.len() <= u32::MAX,
    ensures
        final(cache).wf(),
        final(cache).item_map() == merged(sync_base(old(cache).item_map(), incoming@, full), incoming@),
        r.0.new == merge_tally(sync_base(old(cache).item_map(), incoming@, full), incoming@).0,
        r.0.updated == merge_tally(sync_base(old(cache).item_map(), incoming@, full), incoming@).1,
        r.0.unchanged == merge_tally(sync_base(old(cache).item_map(), incoming@, full), incoming@).2,
        full ==> r.1 == old(cache).item_map().dom().len() - sync_base(old(cache).item_map(), incoming@, full).dom().len(),
        !full ==> r.1 == 0,
        final(cache).username == old(cache).username,
        final(cache).last_sync is Some,
{
    let removed = if full {
        remove_missing(cache, &incoming)
    } else {
        0
    };
    proof {
        if full {
            lemma_entries_len(old(cache).items@);
            lemma_entries_len(cache.items@);
        }
    }
    let report = merge(cache, incoming);
    (report, removed)
}

/// A full sync leaves exactly the fetched items' keys in the cache: what
/// was not fetched is dropped, and merging adds every fetched key.
pub proof fn lemma_full_sync_keys(
    m: Map<Seq<char>, CollectionItem>,
    incoming: Seq<CollectionItem>,
)
    ensures
        merged(m.restrict(incoming_keys(incoming)), incoming).dom() == incoming_keys(incoming),
{
    lemma_merge_keeps_keys(m.restrict(incoming_keys(incoming)), incoming);
    assert(m.restrict(incoming_keys(incoming)).dom().union(incoming_keys(incoming)) =~= incoming_keys(
        incoming,
    ));
}

} // verus!
