//! `bgg list`: choosing, ordering and capping the rows of the table.

use crate::error::{is_bad_arg, Error};
use crate::list::columns::{resolve_columns, resolved_columns, Col};
use crate::list::filter::{filter_rules, rules_keep, FilterKind, FilterSpec};
use crate::list::rows::{sort_rows, stably_sorted};
use crate::list::sort::{sort_spec_of, SortSpec};
use crate::model::{CacheEntry, CacheFile, CollectionItem};
use vstd::prelude::*;

pub use crate::list::sort::{Direction, SortField};

verus! {

/// The cached items that every rule keeps, in key order.
pub open spec fn kept_items<'a>(entries: Seq<CacheEntry>, rules: Seq<(FilterKind, bool)>) -> Seq<
    &'a CollectionItem,
>
    decreases entries.len(),
{
    if entries.len() == 0 {
        Seq::empty()
    } else {
        let prev = kept_items(entries.drop_last(), rules);
        if rules_keep(rules, entries.last().item) {
            prev.push(&entries.last().item)
        } else {
            prev
        }
    }
}

/// The rows, columns and match count of one table.
pub struct ListView<'a> {
    pub rows: Vec<&'a CollectionItem>,
    pub cols: Vec<Col>,
    pub total: usize,
}

/// The text of an optional argument.
pub open spec fn opt_arg(a: Option<&str>) -> Option<Seq<char>> {
    match a {
        Some(s) => Some(s@),
        None => None,
    }
}

/// The table for `bgg list`: the cached items that the filter keeps, in
/// sort order, capped to `limit`; the columns; and how many items matched.
/// Fails on a bad `--filter`, then a bad `--sort`, then bad `--cols`.
pub fn select_rows<'a>(
    cache: &'a CacheFile,
    filter_arg: &str,
    sort_arg: &str,
    cols_arg: Option<&str>,
    limit: Option<usize>,
) -> (r: Result<ListView<'a>, Error>)
    ensures
        match r {
            Ok(v) => {
                &&& filter_rules(filter_arg@) is Ok
                &&& sort_spec_of(sort_arg@) is Ok
                &&& {
                    let rules = filter_rules(filter_arg@)->Ok_0;
                    let (field, direction) = sort_spec_of(sort_arg@)->Ok_0;
                    let kept = kept_items(cache.items@, rules);
                    &&& resolved_columns(opt_arg(cols_arg), field) == Ok::<Seq<Col>, Seq<char>>(
                        v.cols@,
                    )
                    &&& v.total == kept.len()
                    &&& exists|sorted: Seq<&CollectionItem>, p: Seq<int>|
                        stably_sorted(SortSpec { field, direction }, kept, sorted, p) && v.rows@
                            == sorted.take(
                            match limit {
                                Some(n) => if n < kept.len() {
                                    n as int
                                } else {
                                    kept.len() as int
                                },
                                None => kept.len() as int,
                            },
                        )
                }
            },
            Err(e) => match filter_rules(filter_arg@) {
                Err(m) => is_bad_arg(e, m),
                Ok(_) => match sort_spec_of(sort_arg@) {
                    Err(m) => is_bad_arg(e, m),
                    Ok((field, _)) => match resolved_columns(opt_arg(cols_arg), field) {
                        Err(m) => is_bad_arg(e, m),
                        Ok(_) => false,
                    },
                },
            },
        },
{
    let filter = match FilterSpec::parse(filter_arg) {
        Ok(f) => f,
        Err(e) => {
            return Err(e);
        },
    };
    let sort = match SortSpec::parse(sort_arg) {
        Ok(s) => s,
        Err(e) => {
            return Err(e);
        },
    };
    let cols = match resolve_columns(cols_arg, sort.field) {
        Ok(c) => c,
        Err(e) => {
            proof {
                assert(opt_arg(cols_arg) == match cols_arg {
                    Some(s) => Some(s@),
                    None => None,
                });
            }
            return Err(e);
        },
    };
    let ghost rules = filter.rules@;
    let mut kept: Vec<&'a CollectionItem> = Vec::new();
    let mut i: usize = 0;
    while i < cache.items.len()
        invariant
            i <= cache.items@.len(),
            rules == filter.rules@,
            kept@ == kept_items(cache.items@.take(i as int), rules),
        decreases cache.items@.len() - i,
    {
        assert(cache.items@.take(i as int + 1).drop_last() =~= cache.items@.take(i as int));
        let item = &cache.items[i].item;
        if filter.matches(item) {
            kept.push(item);
        }
        i += 1;
    }
    assert(cache.items@.take(cache.items@.len() as int) =~= cache.items@);
    let total = kept.len();
    let mut rows = sort_rows(&sort, &kept);
    if let Some(n) = limit {
        if n < rows.len() {
            rows.truncate(n);
        }
    }
    proof {
        assert(opt_arg(cols_arg) == match cols_arg {
            Some(s) => Some(s@),
            None => None,
        });
    }
    Ok(ListView { rows, cols, total })
}

} // verus!
