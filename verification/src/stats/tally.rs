//! Counting occurrences of keys into a table ordered by key, as a
//! `BTreeMap<K, usize>` that counts would hold them.

use vstd::prelude::*;

verus! {

/// How often `k` occurs in `keys`.
pub open spec fn key_count(keys: Seq<(i64, i64)>, k: (i64, i64)) -> nat
    decreases keys.len(),
{
    if keys.len() == 0 {
        0
    } else {
        key_count(keys.drop_last(), k) + if keys.last() == k {
            1nat
        } else {
            0nat
        }
    }
}

/// Lexicographic order on key pairs.
pub open spec fn key_lt(a: (i64, i64), b: (i64, i64)) -> bool {
    a.0 < b.0 || (a.0 == b.0 && a.1 < b.1)
}

/// `t` lists, in ascending key order, each key that occurs in `keys` with
/// how often it occurs.
pub open spec fn is_tally(t: Seq<((i64, i64), usize)>, keys: Seq<(i64, i64)>) -> bool {
    &&& forall|a: int, b: int| 0 <= a < b < t.len() ==> key_lt(#[trigger] t[a].0, #[trigger] t[b].0)
    &&& forall|j: int| 0 <= j < t.len() ==> #[trigger] t[j].1 == key_count(keys, t[j].0) && t[j].1 > 0
    &&& forall|k: (i64, i64)| #[trigger] key_count(keys, k) > 0 ==> exists|j: int| 0 <= j < t.len() && t[j].0 == k
}

/// A key occurs no more often than there are keys.
pub proof fn lemma_key_count_bounded(keys: Seq<(i64, i64)>, k: (i64, i64))
    ensures
        key_count(keys, k) <= keys.len(),
    decreases keys.len(),
{
    if keys.len() > 0 {
        lemma_key_count_bounded(keys.drop_last(), k);
    }
}

/// The tally of `keys`: each distinct key with its number of occurrences,
/// in ascending key order.
pub fn tally(keys: &Vec<(i64, i64)>) -> (t: Vec<((i64, i64), usize)>)
    ensures
        is_tally(t@, keys@),
{
    let mut t: Vec<((i64, i64), usize)> = Vec::new();
    let mut i: usize = 0;
    while i < keys.len()
        invariant
            i <= keys@.len(),
            is_tally(t@, keys@.take(i as int)),
        decreases keys@.len() - i,
    {
        let k = keys[i];
        let ghost pre = keys@.take(i as int);
        let ghost post = keys@.take(i as int + 1);
        assert(post.drop_last() =~= pre);
        assert(post.last() == k);
        assert forall|q: (i64, i64)| #[trigger] key_count(post, q) == key_count(pre, q) + if q == k {
            1nat
        } else {
            0nat
        } by {}
        proof {
            lemma_key_count_bounded(pre, k);
        }
        let mut pos: usize = 0;
        while pos < t.len() && (t[pos].0.0 < k.0 || (t[pos].0.0 == k.0 && t[pos].0.1 < k.1))
            invariant
                pos <= t@.len(),
                forall|j: int| 0 <= j < pos ==> key_lt(#[trigger] t@[j].0, k),
            decreases t@.len() - pos,
        {
            pos += 1;
        }
        let ghost old_t = t@;
        if pos < t.len() && t[pos].0.0 == k.0 && t[pos].0.1 == k.1 {
            let c = t[pos].1;
            assert(c == key_count(pre, k));
            t.set(pos, (k, c + 1));
            proof {
                assert forall|j: int| 0 <= j < t@.len() implies #[trigger] t@[j].1 == key_count(
                    post,
                    t@[j].0,
                ) && t@[j].1 > 0 by {
                    if j != pos {
                        assert(t@[j] == old_t[j]);
                        assert(key_lt(t@[j].0, k) || key_lt(k, t@[j].0));
                    }
                }
                assert forall|q: (i64, i64)| #[trigger] key_count(post, q) > 0 implies exists|j: int|
                    0 <= j < t@.len() && t@[j].0 == q by {
                    if q != k {
                        assert(key_count(pre, q) > 0);
                        let j = choose|j: int| 0 <= j < old_t.len() && old_t[j].0 == q;
                        assert(t@[j].0 == q);
                    } else {
                        assert(t@[pos as int].0 == q);
                    }
                }
                assert forall|a: int, b: int| 0 <= a < b < t@.len() implies key_lt(
                    #[trigger] t@[a].0,
                    #[trigger] t@[b].0,
                ) by {
                    assert(t@[a].0 == old_t[a].0);
                    assert(t@[b].0 == old_t[b].0);
                }
            }
        } else {
            proof {
                assert(key_count(pre, k) == 0) by {
                    if key_count(pre, k) > 0 {
                        let j = choose|j: int| 0 <= j < old_t.len() && old_t[j].0 == k;
                        if j < pos {
                            assert(key_lt(old_t[j].0, k));
                        } else if j > pos {
                            assert(key_lt(old_t[pos as int].0, old_t[j].0));
                        }
                    }
                }
            }
            t.insert(pos, (k, 1));
            proof {
                assert forall|j: int| 0 <= j < t@.len() implies #[trigger] t@[j].1 == key_count(
                    post,
                    t@[j].0,
                ) && t@[j].1 > 0 by {
                    if j < pos {
                        assert(t@[j] == old_t[j]);
                        assert(key_lt(t@[j].0, k));
                    } else if j > pos {
                        assert(t@[j] == old_t[j - 1]);
                        assert(t@[j].0 != k);
                    }
                }
                assert forall|q: (i64, i64)| #[trigger] key_count(post, q) > 0 implies exists|j: int|
                    0 <= j < t@.len() && t@[j].0 == q by {
                    if q != k {
                        assert(key_count(pre, q) > 0);
                        let j = choose|j: int| 0 <= j < old_t.len() && old_t[j].0 == q;
                        if j < pos {
                            assert(t@[j].0 == q);
                        } else {
                            assert(t@[j + 1].0 == q);
                        }
                    } else {
                        assert(t@[pos as int].0 == q);
                    }
                }
                assert forall|a: int, b: int| 0 <= a < b < t@.len() implies key_lt(
                    #[trigger] t@[a].0,
                    #[trigger] t@[b].0,
                ) by {
                    if a < pos && b > pos {
                        assert(key_lt(old_t[a].0, k));
                        if b - 1 >= pos {
                            assert(!key_lt(old_t[b - 1].0, k));
                            assert(old_t[b - 1].0 != k || b - 1 != pos as int);
                        }
                    } else if a < pos && b < pos {
                    } else if a > pos {
                    }
                }
            }
        }
        i += 1;
    }
    assert(keys@.take(keys@.len() as int) =~= keys@);
    t
}

/// A key that occurs has an index.
pub proof fn lemma_key_count_pos(keys: Seq<(i64, i64)>, k: (i64, i64))
    requires
        key_count(keys, k) > 0,
    ensures
        exists|i: int| 0 <= i < keys.len() && keys[i] == k,
    decreases keys.len(),
{
    if keys.len() > 0 {
        if keys.last() != k {
            lemma_key_count_pos(keys.drop_last(), k);
            let i = choose|i: int| 0 <= i < keys.len() - 1 && keys.drop_last()[i] == k;
            assert(keys[i] == k);
        } else {
            assert(keys[keys.len() - 1] == k);
        }
    }
}

/// Whether `k` is a most frequent key of `keys`, the largest among equally frequent ones.
pub open spec fn is_most_common(keys: Seq<(i64, i64)>, k: (i64, i64)) -> bool {
    &&& key_count(keys, k) > 0
    &&& forall|k2: (i64, i64)|
        #[trigger] key_count(keys, k2) < key_count(keys, k) || (key_count(keys, k2) == key_count(
            keys,
            k,
        ) && !key_lt(k, k2))
}

/// The most frequent key of `keys` (the largest among equally frequent ones).
pub open spec fn most_common(keys: Seq<(i64, i64)>) -> (i64, i64) {
    choose|k: (i64, i64)| is_most_common(keys, k)
}

/// At most one key is the most common.
pub proof fn lemma_most_common_unique(keys: Seq<(i64, i64)>, a: (i64, i64), b: (i64, i64))
    requires
        is_most_common(keys, a),
        is_most_common(keys, b),
    ensures
        a == b,
{
    assert(key_count(keys, b) < key_count(keys, a) || (key_count(keys, b) == key_count(keys, a)
        && !key_lt(a, b)));
    assert(key_count(keys, a) < key_count(keys, b) || (key_count(keys, a) == key_count(keys, b)
        && !key_lt(b, a)));
}

/// The most frequent key of a tally (the last among equally frequent ones,
/// which is the largest), as `Iterator::max_by_key` picks it.
pub fn most_common_key(t: &Vec<((i64, i64), usize)>, Ghost(keys): Ghost<Seq<(i64, i64)>>) -> (r:
    Option<(i64, i64)>)
    requires
        is_tally(t@, keys),
    ensures
        match r {
            None => t@.len() == 0 && forall|k: (i64, i64)| key_count(keys, k) == 0,
            Some(k) => is_most_common(keys, k) && k == most_common(keys),
        },
{
    if t.len() == 0 {
        assert forall|k: (i64, i64)| key_count(keys, k) == 0 by {
            if key_count(keys, k) > 0 {
                let j = choose|j: int| 0 <= j < t@.len() && t@[j].0 == k;
            }
        }
        return None;
    }
    let mut best: usize = 0;
    let mut i: usize = 1;
    while i < t.len()
        invariant
            is_tally(t@, keys),
            1 <= i <= t@.len(),
            best < i,
            forall|j: int| 0 <= j < i ==> #[trigger] t@[j].1 <= t@[best as int].1,
            forall|j: int| best < j < i ==> #[trigger] t@[j].1 < t@[best as int].1,
        decreases t@.len() - i,
    {
        if t[i].1 >= t[best].1 {
            best = i;
        }
        i += 1;
    }
    let k = t[best].0;
    proof {
        assert forall|k2: (i64, i64)| #[trigger] key_count(keys, k2) < key_count(keys, k) || (
        key_count(keys, k2) == key_count(keys, k) && !key_lt(k, k2)) by {
            if key_count(keys, k2) > 0 {
                let j = choose|j: int| 0 <= j < t@.len() && t@[j].0 == k2;
                if j > best {
                    assert(t@[j].1 < t@[best as int].1);
                } else if j < best {
                    assert(key_lt(t@[j].0, t@[best as int].0));
                    assert(!key_lt(k, k2));
                }
            }
        }
        assert(is_most_common(keys, k));
        let c = most_common(keys);
        lemma_most_common_unique(keys, k, c);
    }
    Some(k)
}

/// The sum of the counts of a tally.
pub open spec fn tally_sum(t: Seq<((i64, i64), usize)>) -> nat
    decreases t.len(),
{
    if t.len() == 0 {
        0
    } else {
        (tally_sum(t.drop_last()) + t.last().1) as nat
    }
}

/// How often the keys `d` occur in `keys`, added up.
pub open spec fn count_total(keys: Seq<(i64, i64)>, d: Seq<(i64, i64)>) -> nat
    decreases d.len(),
{
    if d.len() == 0 {
        0
    } else {
        count_total(keys, d.drop_last()) + key_count(keys, d.last())
    }
}

/// How often `x` occurs in `d`.
pub open spec fn occurrences(d: Seq<(i64, i64)>, x: (i64, i64)) -> nat
    decreases d.len(),
{
    if d.len() == 0 {
        0
    } else {
        occurrences(d.drop_last(), x) + if d.last() == x {
            1nat
        } else {
            0nat
        }
    }
}

proof fn lemma_count_total_step(keys: Seq<(i64, i64)>, d: Seq<(i64, i64)>)
    requires
        keys.len() > 0,
    ensures
        count_total(keys, d) == count_total(keys.drop_last(), d) + occurrences(d, keys.last()),
    decreases d.len(),
{
    if d.len() > 0 {
        lemma_count_total_step(keys, d.drop_last());
    }
}

proof fn lemma_occurrences_distinct(d: Seq<(i64, i64)>, x: (i64, i64))
    requires
        forall|a: int, b: int| 0 <= a < b < d.len() ==> #[trigger] d[a] != #[trigger] d[b],
    ensures
        occurrences(d, x) <= 1,
        (exists|j: int| 0 <= j < d.len() && d[j] == x) ==> occurrences(d, x) == 1,
    decreases d.len(),
{
    if d.len() > 0 {
        let e = d.drop_last();
        assert forall|a: int, b: int| 0 <= a < b < e.len() implies #[trigger] e[a] != #[trigger] e[b] by {
            assert(e[a] == d[a] && e[b] == d[b]);
        }
        lemma_occurrences_distinct(e, x);
        if d.last() == x {
            if occurrences(e, x) > 0 {
                lemma_occurrence_index(e, x);
                let j = choose|j: int| 0 <= j < e.len() && e[j] == x;
                assert(d[j] == d[d.len() - 1]);
            }
        } else {
            if exists|j: int| 0 <= j < d.len() && d[j] == x {
                let j = choose|j: int| 0 <= j < d.len() && d[j] == x;
                assert(j < d.len() - 1);
                assert(e[j] == x);
            }
        }
    }
}

proof fn lemma_occurrence_index(d: Seq<(i64, i64)>, x: (i64, i64))
    requires
        occurrences(d, x) > 0,
    ensures
        exists|j: int| 0 <= j < d.len() && d[j] == x,
    decreases d.len(),
{
    if d.last() == x {
        assert(d[d.len() - 1] == x);
    } else {
        lemma_occurrence_index(d.drop_last(), x);
        let j = choose|j: int| 0 <= j < d.len() - 1 && d.drop_last()[j] == x;
        assert(d[j] == x);
    }
}

proof fn lemma_count_total_covering(keys: Seq<(i64, i64)>, d: Seq<(i64, i64)>)
    requires
        forall|a: int, b: int| 0 <= a < b < d.len() ==> #[trigger] d[a] != #[trigger] d[b],
        forall|k: (i64, i64)| #[trigger] key_count(keys, k) > 0 ==> exists|j: int| 0 <= j < d.len() && d[j] == k,
    ensures
        count_total(keys, d) == keys.len(),
    decreases keys.len(),
{
    if keys.len() == 0 {
        assert(keys =~= Seq::empty());
        lemma_count_total_zero(d);
    } else {
        let rest = keys.drop_last();
        assert forall|k: (i64, i64)| #[trigger] key_count(rest, k) > 0 implies exists|j: int|
            0 <= j < d.len() && d[j] == k by {
            assert(key_count(keys, k) > 0);
        }
        lemma_count_total_covering(rest, d);
        lemma_count_total_step(keys, d);
        assert(key_count(keys, keys.last()) > 0);
        lemma_occurrences_distinct(d, keys.last());
        assert(occurrences(d, keys.last()) == 1);
    }
}

proof fn lemma_count_total_zero(d: Seq<(i64, i64)>)
    ensures
        count_total(Seq::empty(), d) == 0,
    decreases d.len(),
{
    if d.len() > 0 {
        lemma_count_total_zero(d.drop_last());
    }
}

proof fn lemma_tally_sum_counts(t: Seq<((i64, i64), usize)>, keys: Seq<(i64, i64)>)
    requires
        forall|j: int| 0 <= j < t.len() ==> #[trigger] t[j].1 == key_count(keys, t[j].0),
    ensures
        tally_sum(t) == count_total(keys, t.map_values(|e: ((i64, i64), usize)| e.0)),
    decreases t.len(),
{
    let d = t.map_values(|e: ((i64, i64), usize)| e.0);
    if t.len() > 0 {
        let u = t.drop_last();
        assert forall|j: int| 0 <= j < u.len() implies #[trigger] u[j].1 == key_count(keys, u[j].0) by {
            assert(u[j] == t[j]);
        }
        lemma_tally_sum_counts(u, keys);
        assert(d.drop_last() =~= u.map_values(|e: ((i64, i64), usize)| e.0));
    }
}

/// The counts of a tally add up to the number of keys counted.
pub proof fn lemma_tally_total(t: Seq<((i64, i64), usize)>, keys: Seq<(i64, i64)>)
    requires
        is_tally(t, keys),
    ensures
        tally_sum(t) == keys.len(),
{
    let d = t.map_values(|e: ((i64, i64), usize)| e.0);
    assert forall|j: int| 0 <= j < t.len() implies #[trigger] t[j].1 == key_count(keys, t[j].0) by {}
    lemma_tally_sum_counts(t, keys);
    assert forall|a: int, b: int| 0 <= a < b < d.len() implies #[trigger] d[a] != #[trigger] d[b] by {
        assert(key_lt(t[a].0, t[b].0));
    }
    assert forall|k: (i64, i64)| #[trigger] key_count(keys, k) > 0 implies exists|j: int|
        0 <= j < d.len() && d[j] == k by {
        let j = choose|j: int| 0 <= j < t.len() && t[j].0 == k;
        assert(d[j] == k);
    }
    lemma_count_total_covering(keys, d);
}

} // verus!
