//! Merging freshly fetched items into the cached collection.

use crate::clock;
use crate::model::{
    items_equal, lemma_same_item_reflexive, opt_text, same_stats, ratings_are_numbers, same_item, CacheFile,
    CollectionItem,
};
use crate::text::{decimal, decimal_text, string_of};
use vstd::prelude::*;

verus! {

/// How a merge classified the incoming items.
#[derive(Debug, PartialEq, Eq, Structural)]
pub struct MergeReport {
    pub new: u32,
    pub updated: u32,
    pub unchanged: u32,
}

impl Default for MergeReport {
    /// All counts zero.
    fn default() -> (r: Self)
        ensures
            r == (MergeReport { new: 0, updated: 0, unchanged: 0 }),
    {
        MergeReport { new: 0, updated: 0, unchanged: 0 }
    }
}

/// The cache key of an item: its BGG id in decimal.
pub open spec fn item_key(item: CollectionItem) -> Seq<char> {
    decimal(item.id as nat)
}

/// The cached map after merging `incoming` in order: an item is stored under
/// its key unless the key already holds an item with the same values.
pub open spec fn merged(
    m: Map<Seq<char>, CollectionItem>,
    incoming: Seq<CollectionItem>,
) -> Map<Seq<char>, CollectionItem>
    decreases incoming.len(),
{
    if incoming.len() == 0 {
        m
    } else {
        let prev = merged(m, incoming.drop_last());
        let item = incoming.last();
        let k = item_key(item);
        if prev.contains_key(k) && same_item(prev[k], item) {
            prev
        } else {
            prev.insert(k, item)
        }
    }
}

/// The counts of new, updated and unchanged items that merging `incoming` into `m` finds.
pub open spec fn merge_tally(m: Map<Seq<char>, CollectionItem>, incoming: Seq<CollectionItem>) -> (
    nat,
    nat,
    nat,
)
    decreases incoming.len(),
{
    if incoming.len() == 0 {
        (0, 0, 0)
    } else {
        let (n, u, c) = merge_tally(m, incoming.drop_last());
        let prev = merged(m, incoming.drop_last());
        let item = incoming.last();
        let k = item_key(item);
        if !prev.contains_key(k) {
            (n + 1, u, c)
        } else if same_item(prev[k], item) {
            (n, u, c + 1)
        } else {
            (n, u + 1, c)
        }
    }
}

/// The three counts add up to the number of items merged.
pub proof fn lemma_tally_total(m: Map<Seq<char>, CollectionItem>, incoming: Seq<CollectionItem>)
    ensures
        merge_tally(m, incoming).0 + merge_tally(m, incoming).1 + merge_tally(m, incoming).2
            == incoming.len(),
    decreases incoming.len(),
{
    if incoming.len() > 0 {
        lemma_tally_total(m, incoming.drop_last());
    }
}

/// Merges `incoming` into the cache: each item is stored under its id, new
/// ids are added, changed items replace what was cached, identical ones are
/// left alone; the sync time is set to now. Nothing is removed.
pub fn merge(cache: &mut CacheFile, incoming: Vec<CollectionItem>) -> (report: MergeReport)
    requires
        old(cache).wf(),
        incoming@.len() <= u32::MAX,
    ensures
        final(cache).wf(),
        final(cache).item_map() == merged(old(cache).item_map(), incoming@),
        report.new == merge_tally(old(cache).item_map(), incoming@).0,
        report.updated == merge_tally(old(cache).item_map(), incoming@).1,
        report.unchanged == merge_tally(old(cache).item_map(), incoming@).2,
        final(cache).username == old(cache).username,
        final(cache).last_sync is Some,
{
    let mut report = MergeReport { new: 0, updated: 0, unchanged: 0 };
    let ghost m0 = cache.item_map();
    let ghost all = incoming@;
    for item in iter: incoming
        invariant
            cache.wf(),
            all.len() <= u32::MAX,
            iter.seq() == all,
            cache.item_map() == merged(m0, all.take(iter.index() as int)),
            report.new == merge_tally(m0, all.take(iter.index() as int)).0,
            report.updated == merge_tally(m0, all.take(iter.index() as int)).1,
            report.unchanged == merge_tally(m0, all.take(iter.index() as int)).2,
            cache.username == old(cache).username,
    {
        let ghost i = iter.index() as int;
        proof {
            assert(all.take(i + 1).drop_last() =~= all.take(i));
            assert(all.take(i + 1).last() == item);
            lemma_tally_total(m0, all.take(i));
        }
        let key_chars = decimal_text(item.id as u64);
        let key = string_of(&key_chars);
        let (pos, found) = cache.find_slot(&key_chars);
        proof {
            crate::model::lemma_entries_map(cache.items@);
        }
        if found && items_equal(&cache.items[pos].item, &item) {
            report.unchanged += 1;
        } else {
            proof {
                if !found && cache.item_map().contains_key(key@) {
                    let j = choose|j: int|
                        0 <= j < cache.items@.len() && cache.items@[j].key@ == key@;
                    crate::text::lemma_seq_lt_irreflexive(key@);
                    if j < pos {
                    } else {
                    }
                }
            }
            if found {
                report.updated += 1;
            } else {
                report.new += 1;
            }
            cache.insert(key, item);
        }
    }
    proof {
        assert(all.take(all.len() as int) =~= all);
    }
    cache.last_sync = Some(clock::now());
    report
}

/// The keys of the incoming items.
pub open spec fn incoming_keys(incoming: Seq<CollectionItem>) -> Set<Seq<char>> {
    Set::new(|k: Seq<char>| exists|t: int| 0 <= t < incoming.len() && item_key(incoming[t]) == k)
}

/// Merging never drops a key: afterwards the cache holds exactly the keys it
/// held before and the keys of the incoming items.
pub proof fn lemma_merge_keeps_keys(m: Map<Seq<char>, CollectionItem>, incoming: Seq<CollectionItem>)
    ensures
        merged(m, incoming).dom() == m.dom().union(incoming_keys(incoming)),
    decreases incoming.len(),
{
    if incoming.len() > 0 {
        let rest = incoming.drop_last();
        lemma_merge_keeps_keys(m, rest);
        assert forall|k: Seq<char>| #[trigger] incoming_keys(incoming).contains(k) <==> (
        incoming_keys(rest).contains(k) || k == item_key(incoming.last())) by {
            if incoming_keys(incoming).contains(k) {
                let t = choose|t: int| 0 <= t < incoming.len() && item_key(incoming[t]) == k;
                if t < incoming.len() - 1 {
                    assert(item_key(rest[t]) == k);
                }
            }
            if incoming_keys(rest).contains(k) {
                let t = choose|t: int| 0 <= t < rest.len() && item_key(rest[t]) == k;
                assert(item_key(incoming[t]) == k);
            }
            if k == item_key(incoming.last()) {
                assert(item_key(incoming[incoming.len() - 1]) == k);
            }
        }
        assert(merged(m, incoming).dom() =~= m.dom().union(incoming_keys(incoming)));
    }
}

/// After merging, each incoming item's key holds the last incoming item
/// under that key, or an item already cached with the same values.
pub proof fn lemma_merge_stores_last(m: Map<Seq<char>, CollectionItem>, incoming: Seq<CollectionItem>, t: int)
    requires
        0 <= t < incoming.len(),
        forall|u: int| t < u < incoming.len() ==> item_key(#[trigger] incoming[u]) != item_key(incoming[t]),
    ensures
        merged(m, incoming).contains_key(item_key(incoming[t])),
        merged(m, incoming)[item_key(incoming[t])] == incoming[t] || same_item(
            merged(m, incoming)[item_key(incoming[t])],
            incoming[t],
        ),
    decreases incoming.len(),
{
    let rest = incoming.drop_last();
    if t < incoming.len() - 1 {
        assert forall|u: int| t < u < rest.len() implies item_key(#[trigger] rest[u]) != item_key(rest[t]) by {
            assert(rest[u] == incoming[u]);
        }
        lemma_merge_stores_last(m, rest, t);
        assert(item_key(incoming[incoming.len() - 1]) != item_key(incoming[t]));
        assert(rest[t] == incoming[t]);
    }
}

/// After merging, each fetched item's key holds that item's values: every
/// field equal (its play count included), the ratings equal as numbers.
#[verifier::spinoff_prover]
pub proof fn lemma_merge_takes_fetched_values(
    m: Map<Seq<char>, CollectionItem>,
    incoming: Seq<CollectionItem>,
    t: int,
)
    requires
        0 <= t < incoming.len(),
        forall|u: int| t < u < incoming.len() ==> item_key(#[trigger] incoming[u]) != item_key(incoming[t]),
    ensures
        merged(m, incoming).contains_key(item_key(incoming[t])),
        merged(m, incoming)[item_key(incoming[t])].id == incoming[t].id,
        merged(m, incoming)[item_key(incoming[t])].collid == incoming[t].collid,
        merged(m, incoming)[item_key(incoming[t])].subtype@ == incoming[t].subtype@,
        merged(m, incoming)[item_key(incoming[t])].name@ == incoming[t].name@,
        merged(m, incoming)[item_key(incoming[t])].year_published == incoming[t].year_published,
        opt_text(merged(m, incoming)[item_key(incoming[t])].image) == opt_text(incoming[t].image),
        opt_text(merged(m, incoming)[item_key(incoming[t])].thumbnail) == opt_text(
            incoming[t].thumbnail,
        ),
        merged(m, incoming)[item_key(incoming[t])].status == incoming[t].status,
        merged(m, incoming)[item_key(incoming[t])].num_plays == incoming[t].num_plays,
        merged(m, incoming)[item_key(incoming[t])].stats is Some <==> incoming[t].stats is Some,
        merged(m, incoming)[item_key(incoming[t])].stats matches Some(g) ==> incoming[t].stats matches Some(w)
            && g.min_players == w.min_players && g.max_players == w.max_players
            && g.playing_time == w.playing_time && g.users_rated == w.users_rated,
{
    lemma_merge_stores_last(m, incoming, t);
    let got = merged(m, incoming)[item_key(incoming[t])];
    let want = incoming[t];
    if got != want {
        assert(same_item(got, want));
        assert(got.id == want.id);
        assert(got.subtype@ == want.subtype@);
        assert(got.num_plays == want.num_plays);
        assert(got.stats is Some <==> want.stats is Some);
        if got.stats is Some && want.stats is Some {
            assert(same_stats(got.stats->0, want.stats->0));
        }
    }
}

/// A fetched item whose play count differs from the cached one is counted
/// as updated and replaces it.
pub proof fn lemma_changed_plays_update(m: Map<Seq<char>, CollectionItem>, x: CollectionItem)
    requires
        m.contains_key(item_key(x)),
        m[item_key(x)].num_plays != x.num_plays,
    ensures
        merge_tally(m, seq![x]) == (0nat, 1nat, 0nat),
        merged(m, seq![x]) == m.insert(item_key(x), x),
{
    let s = seq![x];
    let e = Seq::<CollectionItem>::empty();
    assert(s.drop_last() =~= e);
    assert(s.last() == x);
    assert(merged(m, e) == m);
    assert(merge_tally(m, e) == (0nat, 0nat, 0nat));
    assert(!same_item(m[item_key(x)], x));
}

/// Whether no two incoming items share a key.
pub open spec fn distinct_keys(incoming: Seq<CollectionItem>) -> bool {
    forall|a: int, b: int| 0 <= a < b < incoming.len() ==> item_key(#[trigger] incoming[a]) != item_key(#[trigger] incoming[b])
}

proof fn lemma_merged_prefix_agrees(m: Map<Seq<char>, CollectionItem>, incoming: Seq<CollectionItem>, i: int)
    requires
        distinct_keys(incoming),
        forall|t: int| 0 <= t < incoming.len() ==> ratings_are_numbers(#[trigger] incoming[t]),
        0 <= i <= incoming.len(),
    ensures
        forall|t: int| 0 <= t < i ==> #[trigger] merged(m, incoming).contains_key(item_key(incoming[t]))
            && same_item(merged(m, incoming)[item_key(incoming[t])], incoming[t]),
{
    assert forall|t: int| 0 <= t < i implies #[trigger] merged(m, incoming).contains_key(item_key(incoming[t]))
        && same_item(merged(m, incoming)[item_key(incoming[t])], incoming[t]) by {
        assert forall|u: int| t < u < incoming.len() implies item_key(#[trigger] incoming[u]) != item_key(incoming[t]) by {}
        lemma_merge_stores_last(m, incoming, t);
        lemma_same_item_reflexive(incoming[t]);
    }
}

/// Merging items with distinct keys and no NaN rating a second time changes
/// nothing: every item is found unchanged.
#[verifier::spinoff_prover]
pub proof fn lemma_merge_again_unchanged(m: Map<Seq<char>, CollectionItem>, incoming: Seq<CollectionItem>)
    requires
        distinct_keys(incoming),
        forall|t: int| 0 <= t < incoming.len() ==> ratings_are_numbers(#[trigger] incoming[t]),
    ensures
        merged(merged(m, incoming), incoming) == merged(m, incoming),
        merge_tally(merged(m, incoming), incoming) == (0nat, 0nat, incoming.len()),
{
    let once = merged(m, incoming);
    lemma_merged_prefix_agrees(m, incoming, incoming.len() as int);
    lemma_merge_again_prefix(once, incoming, incoming.len() as int);
    assert(incoming.take(incoming.len() as int) =~= incoming);
}

proof fn lemma_merge_again_prefix(once: Map<Seq<char>, CollectionItem>, incoming: Seq<CollectionItem>, i: int)
    requires
        0 <= i <= incoming.len(),
        forall|t: int| 0 <= t < incoming.len() ==> #[trigger] once.contains_key(item_key(incoming[t]))
            && same_item(once[item_key(incoming[t])], incoming[t]),
    ensures
        merged(once, incoming.take(i)) == once,
        merge_tally(once, incoming.take(i)) == (0nat, 0nat, i as nat),
    decreases i,
{
    if i > 0 {
        let pre = incoming.take(i);
        assert(pre.drop_last() =~= incoming.take(i - 1));
        lemma_merge_again_prefix(once, incoming, i - 1);
        assert(pre.last() == incoming[i - 1]);
        assert(once.contains_key(item_key(incoming[i - 1])));
    }
}

} // verus!
