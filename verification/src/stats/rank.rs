//! Ranking items by a score, ties broken by exact name order, stably.

use crate::list::rows::is_permutation;
use crate::model::CollectionItem;
use crate::text::{
    chars_less, chars_of, lemma_seq_lt_asymmetric, lemma_seq_lt_irreflexive,
    lemma_seq_lt_total, seq_lt,
};
use vstd::prelude::*;

verus! {

/// An item with the score it is ranked by (compared as a pair, first
/// component first).
#[derive(Debug, Clone, Copy)]
pub struct Ranked<'a> {
    pub item: &'a CollectionItem,
    pub score: (i64, u32),
}

/// Whether score `a` is below score `b`.
pub open spec fn score_lt(a: (i64, u32), b: (i64, u32)) -> bool {
    a.0 < b.0 || (a.0 == b.0 && a.1 < b.1)
}

/// Whether `a` ranks strictly before `b`: a better score (higher when
/// `desc`, lower otherwise), or the same score and a name that comes first.
pub open spec fn ranks_before(a: Ranked, b: Ranked, desc: bool) -> bool {
    ||| (desc && score_lt(b.score, a.score))
    ||| (!desc && score_lt(a.score, b.score))
    ||| (a.score == b.score && seq_lt(a.item.name@, b.item.name@))
}

/// Whether `a` and `b` tie: same score and same name.
pub open spec fn ranks_tied(a: Ranked, b: Ranked) -> bool {
    a.score == b.score && a.item.name@ == b.item.name@
}

/// `out` is `input` rearranged by `p` into rank order, ties keeping their input order.
pub open spec fn ranked_stably(input: Seq<Ranked>, out: Seq<Ranked>, p: Seq<int>, desc: bool) -> bool {
    &&& out.len() == input.len()
    &&& is_permutation(p, input.len() as int)
    &&& forall|k: int| 0 <= k < out.len() ==> #[trigger] out[k] == input[p[k]]
    &&& forall|k: int|
        0 <= k < out.len() - 1 ==> #[trigger] ranks_before(out[k], out[k + 1], desc) || (ranks_tied(
            out[k],
            out[k + 1],
        ) && p[k] < p[k + 1])
}

proof fn lemma_rank_trichotomy(a: Ranked, b: Ranked, desc: bool)
    ensures
        ranks_before(a, b, desc) || ranks_before(b, a, desc) || ranks_tied(a, b),
        !(ranks_before(a, b, desc) && ranks_before(b, a, desc)),
        ranks_tied(a, b) ==> !ranks_before(a, b, desc),
{
    lemma_seq_lt_total(a.item.name@, b.item.name@);
    lemma_seq_lt_asymmetric(a.item.name@, b.item.name@);
    lemma_seq_lt_irreflexive(a.item.name@);
}

fn goes_before(a: &Ranked, an: &Vec<char>, b: &Ranked, bn: &Vec<char>, desc: bool) -> (r: bool)
    requires
        an@ == a.item.name@,
        bn@ == b.item.name@,
    ensures
        r == ranks_before(*a, *b, desc),
{
    let a_lt = a.score.0 < b.score.0 || (a.score.0 == b.score.0 && a.score.1 < b.score.1);
    let b_lt = b.score.0 < a.score.0 || (b.score.0 == a.score.0 && b.score.1 < a.score.1);
    if desc && b_lt {
        return true;
    }
    if !desc && a_lt {
        return true;
    }
    a.score.0 == b.score.0 && a.score.1 == b.score.1 && chars_less(an, bn)
}

/// `input` in rank order (stable): by score, descending when `desc`, ties
/// broken by name.
pub fn rank<'a>(input: &Vec<Ranked<'a>>, desc: bool) -> (r: Vec<Ranked<'a>>)
    ensures
        exists|p: Seq<int>| ranked_stably(input@, r@, p, desc),
{
    let n = input.len();
    let ghost inp = input@;
    let mut out: Vec<(Vec<char>, Ranked<'a>)> = Vec::new();
    let ghost mut p: Seq<int> = Seq::empty();
    let mut j: usize = 0;
    while j < n
        invariant
            n == inp.len(),
            j <= n,
            inp == input@,
            out@.len() == j,
            is_permutation(p, j as int),
            forall|k: int| 0 <= k < j ==> #[trigger] out@[k].1 == inp[p[k]],
            forall|k: int| 0 <= k < j ==> (#[trigger] out@[k]).0@ == out@[k].1.item.name@,
            forall|k: int|
                0 <= k < j - 1 ==> #[trigger] ranks_before(out@[k].1, out@[k + 1].1, desc) || (
                ranks_tied(out@[k].1, out@[k + 1].1) && p[k] < p[k + 1]),
        decreases n - j,
    {
        let x = input[j];
        let xn = chars_of(x.item.name.as_str());
        let mut pos: usize = j;
        loop
            invariant
                pos <= j,
                out@.len() == j,
                forall|k: int| 0 <= k < j ==> (#[trigger] out@[k]).0@ == out@[k].1.item.name@,
                xn@ == x.item.name@,
                pos < j ==> ranks_before(x, out@[pos as int].1, desc),
            ensures
                pos <= j,
                pos < j ==> ranks_before(x, out@[pos as int].1, desc),
                pos > 0 ==> !ranks_before(x, out@[pos - 1].1, desc),
            decreases pos,
        {
            if pos == 0 {
                break;
            }
            if goes_before(&x, &xn, &out[pos - 1].1, &out[pos - 1].0, desc) {
                pos -= 1;
            } else {
                break;
            }
        }
        let ghost old_out = out@;
        let ghost old_p = p;
        out.insert(pos, (xn, x));
        proof {
            p = p.insert(pos as int, j as int);
            assert forall|k: int| 0 <= k < j + 1 implies #[trigger] out@[k].1 == inp[p[k]] by {
                if k < pos {
                    assert(out@[k] == old_out[k]);
                } else if k > pos {
                    assert(out@[k] == old_out[k - 1]);
                }
            }
            assert forall|k: int| 0 <= k < j + 1 implies (#[trigger] out@[k]).0@
                == out@[k].1.item.name@ by {
                if k < pos {
                    assert(out@[k] == old_out[k]);
                } else if k > pos {
                    assert(out@[k] == old_out[k - 1]);
                }
            }
            assert forall|k: int|
                0 <= k < j + 1 - 1 implies #[trigger] ranks_before(
                out@[k].1,
                out@[k + 1].1,
                desc,
            ) || (ranks_tied(out@[k].1, out@[k + 1].1) && p[k] < p[k + 1]) by {
                if k + 1 < pos {
                    assert(out@[k] == old_out[k]);
                    assert(out@[k + 1] == old_out[k + 1]);
                    assert(p[k] == old_p[k] && p[k + 1] == old_p[k + 1]);
                    assert(ranks_before(old_out[k].1, old_out[k + 1].1, desc) || (ranks_tied(
                        old_out[k].1,
                        old_out[k + 1].1,
                    ) && old_p[k] < old_p[k + 1]));
                } else if k + 1 == pos {
                    assert(out@[k] == old_out[k]);
                    assert(old_p[k] < j);
                    lemma_rank_trichotomy(x, old_out[k].1, desc);
                } else if k == pos {
                    assert(out@[k + 1] == old_out[k]);
                } else {
                    assert(out@[k] == old_out[k - 1]);
                    assert(out@[k + 1] == old_out[k]);
                    assert(p[k] == old_p[k - 1] && p[k + 1] == old_p[k]);
                    let kk = k - 1;
                    assert(ranks_before(old_out[kk].1, old_out[kk + 1].1, desc) || (ranks_tied(
                        old_out[kk].1,
                        old_out[kk + 1].1,
                    ) && old_p[kk] < old_p[kk + 1]));
                    assert(kk + 1 == k);
                }
            }
            assert forall|a: int, b: int| 0 <= a < b < j + 1 implies #[trigger] p[a]
                != #[trigger] p[b] by {
                if a < pos && b < pos {
                    assert(p[a] == old_p[a] && p[b] == old_p[b]);
                } else if a < pos && b > pos {
                    assert(p[a] == old_p[a] && p[b] == old_p[b - 1]);
                } else if a > pos && b > pos {
                    assert(p[a] == old_p[a - 1] && p[b] == old_p[b - 1]);
                }
            }
            assert forall|k: int| 0 <= k < j + 1 implies 0 <= #[trigger] p[k] < j + 1 by {
                if k < pos {
                    assert(p[k] == old_p[k]);
                } else if k > pos {
                    assert(p[k] == old_p[k - 1]);
                }
            }
        }
        j += 1;
    }
    let mut r: Vec<Ranked<'a>> = Vec::new();
    let mut k: usize = 0;
    while k < n
        invariant
            n == inp.len(),
            out@.len() == n,
            k <= n,
            r@.len() == k,
            forall|q: int| 0 <= q < k ==> #[trigger] r@[q] == out@[q].1,
        decreases n - k,
    {
        r.push(out[k].1);
        k += 1;
    }
    assert(ranked_stably(inp, r@, p, desc));
    r
}

} // verus!
