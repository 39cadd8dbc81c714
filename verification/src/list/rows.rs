//! Putting the selected rows in table order.

use crate::list::sort::{goes_after, in_order, lemma_after_gives_in_order, lemma_not_after_gives_in_order, orders_after, SortSpec};
use crate::model::CollectionItem;
use crate::text::{chars_of, lowercase, to_lowercase};
use vstd::prelude::*;

verus! {


/// `p` lists each of `0..n` exactly once.
pub open spec fn is_permutation(p: Seq<int>, n: int) -> bool {
    &&& p.len() == n
    &&& forall|k: int| 0 <= k < n ==> 0 <= #[trigger] p[k] < n
    &&& forall|a: int, b: int| 0 <= a < b < n ==> #[trigger] p[a] != #[trigger] p[b]
}

/// `out` is `input` rearranged by `p` (`out[k]` is `input[p[k]]`), in table
/// order, items that compare equal keeping their input order.
pub open spec fn stably_sorted(
    spec: SortSpec,
    input: Seq<&CollectionItem>,
    out: Seq<&CollectionItem>,
    p: Seq<int>,
) -> bool {
    &&& out.len() == input.len()
    &&& is_permutation(p, input.len() as int)
    &&& forall|k: int| 0 <= k < out.len() ==> #[trigger] out[k] == input[p[k]]
    &&& forall|k: int|
        0 <= k < out.len() - 1 ==> #[trigger] in_order(spec, *out[k], *out[k + 1], p[k], p[k + 1])
}

/// The rows in table order: a stable sort by `spec.compare`.
pub fn sort_rows<'a>(spec: &SortSpec, items: &Vec<&'a CollectionItem>) -> (r: Vec<
    &'a CollectionItem,
>)
    ensures
        exists|p: Seq<int>| stably_sorted(*spec, items@, r@, p),
{
    let n = items.len();
    let mut out: Vec<(Vec<char>, &'a CollectionItem)> = Vec::new();
    let ghost mut p: Seq<int> = Seq::empty();
    let mut j: usize = 0;
    while j < n
        invariant
            n == items@.len(),
            j <= n,
            out@.len() == j,
            is_permutation(p, j as int),
            forall|k: int| 0 <= k < j ==> #[trigger] out@[k].1 == items@[p[k]],
            forall|k: int| 0 <= k < j ==> (#[trigger] out@[k]).0@ == lowercase(out@[k].1.name@),
            forall|k: int|
                0 <= k < j - 1 ==> #[trigger] in_order(*spec, *out@[k].1, *out@[k + 1].1, p[k], p[k + 1]),
        decreases n - j,
    {
        let x = items[j];
        let lx = chars_of(to_lowercase(x.name.as_str()).as_str());
        let mut pos: usize = j;
        loop
            invariant
                pos <= j,
                out@.len() == j,
                forall|k: int| 0 <= k < j ==> (#[trigger] out@[k]).0@ == lowercase(out@[k].1.name@),
                lx@ == lowercase(x.name@),
                pos < j ==> orders_after(*spec, *out@[pos as int].1, *x),
            ensures
                pos <= j,
                pos < j ==> orders_after(*spec, *out@[pos as int].1, *x),
                pos > 0 ==> !orders_after(*spec, *out@[pos - 1].1, *x),
            decreases pos,
        {
            if pos == 0 {
                break;
            }
            if goes_after(spec, out[pos - 1].1, &out[pos - 1].0, x, &lx) {
                pos -= 1;
            } else {
                break;
            }
        }
        let ghost old_out = out@;
        let ghost old_p = p;
        out.insert(pos, (lx, x));
        proof {
            p = p.insert(pos as int, j as int);
            assert forall|k: int| 0 <= k < j + 1 implies #[trigger] out@[k].1 == items@[p[k]] by {
                if k < pos {
                    assert(out@[k] == old_out[k]);
                } else if k > pos {
                    assert(out@[k] == old_out[k - 1]);
                }
            }
            assert forall|k: int| 0 <= k < j + 1 implies (#[trigger] out@[k]).0@ == lowercase(
                out@[k].1.name@,
            ) by {
                if k < pos {
                    assert(out@[k] == old_out[k]);
                } else if k > pos {
                    assert(out@[k] == old_out[k - 1]);
                }
            }
            assert forall|k: int|
                0 <= k < j + 1 - 1 implies #[trigger] in_order(*spec, *out@[k].1, *out@[k + 1].1, p[k], p[k + 1]) by {
                if k + 1 < pos {
                    assert(out@[k] == old_out[k]);
                    assert(out@[k + 1] == old_out[k + 1]);
                    assert(p[k] == old_p[k] && p[k + 1] == old_p[k + 1]);
                    assert(in_order(*spec, *old_out[k].1, *old_out[k + 1].1, old_p[k], old_p[k + 1]));
                } else if k + 1 == pos {
                    assert(out@[k] == old_out[k]);
                    assert(old_p[k] < j);
                    lemma_not_after_gives_in_order(*spec, *out@[k].1, *x, p[k], j as int);
                } else if k == pos {
                    assert(out@[k + 1] == old_out[k]);
                    lemma_after_gives_in_order(*spec, *x, *out@[k + 1].1, j as int, p[k + 1]);
                } else {
                    assert(out@[k] == old_out[k - 1]);
                    assert(out@[k + 1] == old_out[k]);
                    assert(p[k] == old_p[k - 1] && p[k + 1] == old_p[k]);
                    let kk = k - 1;
                    assert(in_order(*spec, *old_out[kk].1, *old_out[kk + 1].1, old_p[kk], old_p[kk + 1]));
                    assert(kk + 1 == k);
                }
            }
            assert forall|a: int, b: int| 0 <= a < b < j + 1 implies #[trigger] p[a]
                != #[trigger] p[b] by {
                if a < pos && b < pos {
                    assert(p[a] == old_p[a] && p[b] == old_p[b]);
                } else if a < pos && b > pos {
                    assert(p[a] == old_p[a] && p[b] == old_p[b - 1]);
                } else if a > pos && b > pos {
                    assert(p[a] == old_p[a - 1] && p[b] == old_p[b - 1]);
                }
            }
            assert forall|k: int| 0 <= k < j + 1 implies 0 <= #[trigger] p[k] < j + 1 by {
                if k < pos {
                    assert(p[k] == old_p[k]);
                } else if k > pos {
                    assert(p[k] == old_p[k - 1]);
                }
            }
        }
        j += 1;
    }
    let mut r: Vec<&'a CollectionItem> = Vec::new();
    let mut k: usize = 0;
    while k < n
        invariant
            n == items@.len(),
            out@.len() == n,
            k <= n,
            r@.len() == k,
            forall|q: int| 0 <= q < k ==> #[trigger] r@[q] == out@[q].1,
        decreases n - k,
    {
        r.push(out[k].1);
        k += 1;
    }
    assert(stably_sorted(*spec, items@, r@, p));
    r
}

} // verus!
