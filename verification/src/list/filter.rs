//! `--filter`: which cached items the table shows.

use crate::error::{is_bad_arg, Error};
use crate::list::sort::rating_of;
use crate::model::{supports, CollectionItem};
use crate::stats::common::{player_ranges_of, user_ratings_of};
use crate::stats::owned::{count_supporting, played_of};
use crate::text::{
    chars_of, eq_lit, lemma_split_join, lemma_split_single, lemma_trim_unchanged, push_chars,
    push_str, slice_chars, split_chars, split_on, starts_with_lit, string_of, trim, trim_chars,
    unicode_white_space, views,
};
use vstd::prelude::*;

verus! {

/// One filter word.
#[derive(Clone, Copy, Debug, PartialEq, Eq, Structural)]
pub enum FilterKind {
    Owned,
    PrevOwned,
    Wishlist,
    WantToPlay,
    WantToBuy,
    Preordered,
    ForTrade,
    Expansion,
    Rated,
    Played,
    Solo,
    All,
}

/// The filter words the error message lists.
pub const FILTER_VALUES: &'static str = "owned, prev-owned, wishlist, want-to-play, want-to-buy, preordered, for-trade, expansion, rated, played, solo, all (prefix with `not:` to invert)";

/// The filter word that `text` names, if any.
pub open spec fn filter_kind_named(text: Seq<char>) -> Option<FilterKind> {
    if text == "owned"@ {
        Some(FilterKind::Owned)
    } else if text == "prev-owned"@ {
        Some(FilterKind::PrevOwned)
    } else if text == "wishlist"@ {
        Some(FilterKind::Wishlist)
    } else if text == "want-to-play"@ {
        Some(FilterKind::WantToPlay)
    } else if text == "want-to-buy"@ {
        Some(FilterKind::WantToBuy)
    } else if text == "preordered"@ {
        Some(FilterKind::Preordered)
    } else if text == "for-trade"@ {
        Some(FilterKind::ForTrade)
    } else if text == "expansion"@ {
        Some(FilterKind::Expansion)
    } else if text == "rated"@ {
        Some(FilterKind::Rated)
    } else if text == "played"@ {
        Some(FilterKind::Played)
    } else if text == "solo"@ {
        Some(FilterKind::Solo)
    } else if text == "all"@ {
        Some(FilterKind::All)
    } else {
        None
    }
}

/// The message for an unknown filter word.
pub open spec fn unknown_filter_message(text: Seq<char>) -> Seq<char> {
    "unknown --filter value `"@ + text + "`. Valid: "@ + FILTER_VALUES@
}

/// Whether item `i` has the property that filter word `k` names.
pub open spec fn kind_matches(k: FilterKind, i: CollectionItem) -> bool {
    match k {
        FilterKind::Owned => i.status.own,
        FilterKind::PrevOwned => i.status.prev_owned,
        FilterKind::Wishlist => i.status.wishlist,
        FilterKind::WantToPlay => i.status.want_to_play,
        FilterKind::WantToBuy => i.status.want_to_buy,
        FilterKind::Preordered => i.status.preordered,
        FilterKind::ForTrade => i.status.for_trade,
        FilterKind::Expansion => i.subtype@ == "boardgameexpansion"@,
        FilterKind::Rated => match i.stats {
            Some(s) => s.user_rating is Some,
            None => false,
        },
        FilterKind::Played => i.num_plays > 0,
        FilterKind::Solo => match i.stats {
            Some(s) => supports(s, 1),
            None => false,
        },
        FilterKind::All => true,
    }
}

impl FilterKind {
    /// The filter word spelled by `s`, or the error that names the unknown word.
    pub fn parse(s: &Vec<char>) -> (r: Result<FilterKind, Error>)
        ensures
            match r {
                Ok(k) => filter_kind_named(s@) == Some(k),
                Err(e) => filter_kind_named(s@) is None && is_bad_arg(e, unknown_filter_message(s@)),
            },
    {
        if eq_lit(s, "owned") {
            Ok(FilterKind::Owned)
        } else if eq_lit(s, "prev-owned") {
            Ok(FilterKind::PrevOwned)
        } else if eq_lit(s, "wishlist") {
            Ok(FilterKind::Wishlist)
        } else if eq_lit(s, "want-to-play") {
            Ok(FilterKind::WantToPlay)
        } else if eq_lit(s, "want-to-buy") {
            Ok(FilterKind::WantToBuy)
        } else if eq_lit(s, "preordered") {
            Ok(FilterKind::Preordered)
        } else if eq_lit(s, "for-trade") {
            Ok(FilterKind::ForTrade)
        } else if eq_lit(s, "expansion") {
            Ok(FilterKind::Expansion)
        } else if eq_lit(s, "rated") {
            Ok(FilterKind::Rated)
        } else if eq_lit(s, "played") {
            Ok(FilterKind::Played)
        } else if eq_lit(s, "solo") {
            Ok(FilterKind::Solo)
        } else if eq_lit(s, "all") {
            Ok(FilterKind::All)
        } else {
            let mut m: Vec<char> = Vec::new();
            push_str(&mut m, "unknown --filter value `");
            push_chars(&mut m, s);
            push_str(&mut m, "`. Valid: ");
            push_str(&mut m, FILTER_VALUES);
            Err(Error::BadArg(string_of(&m)))
        }
    }

    /// Whether `i` has the property this filter word names.
    pub fn item_matches(self, i: &CollectionItem) -> (r: bool)
        ensures
            r == kind_matches(self, *i),
    {
        match self {
            FilterKind::Owned => i.status.own,
            FilterKind::PrevOwned => i.status.prev_owned,
            FilterKind::Wishlist => i.status.wishlist,
            FilterKind::WantToPlay => i.status.want_to_play,
            FilterKind::WantToBuy => i.status.want_to_buy,
            FilterKind::Preordered => i.status.preordered,
            FilterKind::ForTrade => i.status.for_trade,
            FilterKind::Expansion => {
                let st = chars_of(i.subtype.as_str());
                eq_lit(&st, "boardgameexpansion")
            },
            FilterKind::Rated => match &i.stats {
                Some(s) => s.user_rating.is_some(),
                None => false,
            },
            FilterKind::Played => i.num_plays > 0,
            FilterKind::Solo => match &i.stats {
                Some(s) => s.supports_player_count(1),
                None => false,
            },
            FilterKind::All => true,
        }
    }
}

/// What one comma-separated piece of `--filter` contributes: nothing when
/// it is blank, else the word (after an optional `not:`, which inverts it)
/// or the message that names an unknown word.
pub open spec fn piece_rule(piece: Seq<char>) -> Option<Result<(FilterKind, bool), Seq<char>>> {
    let t = trim(piece);
    if t.len() == 0 {
        None
    } else {
        let (name, invert) = if "not:"@.is_prefix_of(t) {
            (trim(t.subrange("not:"@.len() as int, t.len() as int)), true)
        } else {
            (t, false)
        };
        match filter_kind_named(name) {
            Some(k) => Some(Ok((k, invert))),
            None => Some(Err(unknown_filter_message(name))),
        }
    }
}

/// The rules of the pieces in order, or the message of the first bad piece.
pub open spec fn piece_rules(pieces: Seq<Seq<char>>) -> Result<Seq<(FilterKind, bool)>, Seq<char>>
    decreases pieces.len(),
{
    if pieces.len() == 0 {
        Ok(Seq::empty())
    } else {
        match piece_rules(pieces.drop_last()) {
            Err(m) => Err(m),
            Ok(rs) => match piece_rule(pieces.last()) {
                None => Ok(rs),
                Some(Err(m)) => Err(m),
                Some(Ok(r)) => Ok(rs.push(r)),
            },
        }
    }
}

/// What `--filter s` parses to: the rules, or the error message.
pub open spec fn filter_rules(s: Seq<char>) -> Result<Seq<(FilterKind, bool)>, Seq<char>> {
    match piece_rules(split_on(s, ',')) {
        Err(m) => Err(m),
        Ok(rs) => if rs.len() == 0 {
            Err("--filter is empty"@)
        } else {
            Ok(rs)
        },
    }
}

/// Whether one rule keeps item `i`.
pub open spec fn rule_keeps(rule: (FilterKind, bool), i: CollectionItem) -> bool {
    kind_matches(rule.0, i) != rule.1
}

/// Whether every rule keeps item `i`.
pub open spec fn rules_keep(rules: Seq<(FilterKind, bool)>, i: CollectionItem) -> bool {
    forall|j: int| 0 <= j < rules.len() ==> rule_keeps(#[trigger] rules[j], i)
}

/// A parsed `--filter`: rules that must all hold (each possibly inverted).
#[derive(Debug)]
pub struct FilterSpec {
    pub rules: Vec<(FilterKind, bool)>,
}

fn parse_piece(piece: &Vec<char>) -> (r: Option<Result<(FilterKind, bool), Error>>)
    ensures
        match r {
            None => piece_rule(piece@) is None,
            Some(Ok(rule)) => piece_rule(piece@) == Some(
                Ok::<(FilterKind, bool), Seq<char>>(rule),
            ),
            Some(Err(e)) => exists|m: Seq<char>|
                piece_rule(piece@) == Some(Err::<(FilterKind, bool), Seq<char>>(m)) && is_bad_arg(e, m),
        },
{
    let t = trim_chars(piece);
    if t.len() == 0 {
        return None;
    }
    let not_prefix = chars_of("not:");
    let (name, invert) = if starts_with_lit(&t, "not:") {
        let rest = slice_chars(&t, not_prefix.len(), t.len());
        (trim_chars(&rest), true)
    } else {
        (t, false)
    };
    match FilterKind::parse(&name) {
        Ok(k) => Some(Ok((k, invert))),
        Err(e) => Some(Err(e)),
    }
}

impl FilterSpec {
    /// Parses `--filter`: comma-separated words, blanks skipped, each
    /// optionally prefixed by `not:`. Fails on the first unknown word, or when
    /// no word is given.
    pub fn parse(s: &str) -> (r: Result<FilterSpec, Error>)
        ensures
            match r {
                Ok(spec) => filter_rules(s@) == Ok::<Seq<(FilterKind, bool)>, Seq<char>>(
                    spec.rules@,
                ),
                Err(e) => exists|m: Seq<char>|
                    filter_rules(s@) == Err::<Seq<(FilterKind, bool)>, Seq<char>>(m) && is_bad_arg(e, m),
            },
    {
        let cs = chars_of(s);
        let pieces = split_chars(&cs, ',');
        let ghost ps = views(pieces@);
        let mut rules: Vec<(FilterKind, bool)> = Vec::new();
        let mut i: usize = 0;
        assert(ps.take(0) =~= Seq::<Seq<char>>::empty());
        while i < pieces.len()
            invariant
                ps == views(pieces@),
                ps == split_on(cs@, ','),
                cs@ == s@,
                i <= pieces@.len(),
                piece_rules(ps.take(i as int)) == Ok::<Seq<(FilterKind, bool)>, Seq<char>>(
                    rules@,
                ),
            decreases pieces@.len() - i,
        {
            assert(ps.take(i as int + 1).drop_last() =~= ps.take(i as int));
            assert(ps.take(i as int + 1).last() == pieces@[i as int]@);
            match parse_piece(&pieces[i]) {
                None => {},
                Some(Ok(rule)) => {
                    rules.push(rule);
                },
                Some(Err(e)) => {
                    proof {
                        let m = choose|m: Seq<char>|
                            piece_rule(pieces@[i as int]@) == Some(
                                Err::<(FilterKind, bool), Seq<char>>(m),
                            ) && is_bad_arg(e, m);
                        lemma_rules_err_persists(ps, i as int + 1, m);
                    }
                    return Err(e);
                },
            }
            i += 1;
        }
        assert(ps.take(pieces@.len() as int) =~= ps);
        if rules.len() == 0 {
            let mut m: Vec<char> = Vec::new();
            push_str(&mut m, "--filter is empty");
            let text = string_of(&m);
            assert(m@ =~= "--filter is empty"@);
            let e = Error::BadArg(text);
            assert(filter_rules(s@) == Err::<Seq<(FilterKind, bool)>, Seq<char>>(
                "--filter is empty"@,
            ) && is_bad_arg(e, "--filter is empty"@));
            return Err(e);
        }
        Ok(FilterSpec { rules })
    }

    /// Whether every rule keeps item `i`.
    pub fn matches(&self, i: &CollectionItem) -> (r: bool)
        ensures
            r == rules_keep(self.rules@, *i),
    {
        let mut j: usize = 0;
        while j < self.rules.len()
            invariant
                j <= self.rules@.len(),
                forall|k: int| 0 <= k < j ==> rule_keeps(#[trigger] self.rules@[k], *i),
            decreases self.rules@.len() - j,
        {
            let (kind, invert) = self.rules[j];
            let m = kind.item_matches(i);
            let keep = if invert {
                !m
            } else {
                m
            };
            if !keep {
                return false;
            }
            j += 1;
        }
        true
    }
}

/// Once a prefix of the pieces fails, every longer prefix fails with the same message.
proof fn lemma_rules_err_persists(ps: Seq<Seq<char>>, n: int, m: Seq<char>)
    requires
        0 <= n <= ps.len(),
        piece_rules(ps.take(n)) == Err::<Seq<(FilterKind, bool)>, Seq<char>>(m),
    ensures
        piece_rules(ps) == Err::<Seq<(FilterKind, bool)>, Seq<char>>(m),
    decreases ps.len() - n,
{
    if n < ps.len() {
        assert(ps.take(n + 1).drop_last() =~= ps.take(n));
        lemma_rules_err_persists(ps, n + 1, m);
    } else {
        assert(ps.take(n) =~= ps);
    }
}

proof fn lemma_piece_rules_append(p: Seq<Seq<char>>, q: Seq<Seq<char>>)
    requires
        piece_rules(p) is Ok,
        piece_rules(q) is Ok,
    ensures
        piece_rules(p + q) == Ok::<Seq<(FilterKind, bool)>, Seq<char>>(
            piece_rules(p)->Ok_0 + piece_rules(q)->Ok_0,
        ),
    decreases q.len(),
{
    if q.len() == 0 {
        assert(p + q =~= p);
        assert(piece_rules(p)->Ok_0 + piece_rules(q)->Ok_0 =~= piece_rules(p)->Ok_0);
    } else {
        let rest = q.drop_last();
        assert(piece_rules(rest) is Ok);
        lemma_piece_rules_append(p, rest);
        assert((p + q).drop_last() =~= p + rest);
        assert((p + q).last() == q.last());
        let rp = piece_rules(p)->Ok_0;
        let rr = piece_rules(rest)->Ok_0;
        match piece_rule(q.last()) {
            Some(Ok(r)) => {
                assert((rp + rr).push(r) =~= rp + rr.push(r));
            },
            _ => {},
        }
    }
}

/// Filters joined by a comma keep exactly the items that both keep: the
/// rules of `a,b` are the rules of `a` followed by those of `b`.
pub proof fn lemma_filter_conjunction(a: Seq<char>, b: Seq<char>, i: CollectionItem)
    requires
        filter_rules(a) is Ok,
        filter_rules(b) is Ok,
    ensures
        filter_rules(a + ","@ + b) == Ok::<Seq<(FilterKind, bool)>, Seq<char>>(
            filter_rules(a)->Ok_0 + filter_rules(b)->Ok_0,
        ),
        rules_keep(filter_rules(a + ","@ + b)->Ok_0, i) == (rules_keep(filter_rules(a)->Ok_0, i)
            && rules_keep(filter_rules(b)->Ok_0, i)),
{
    reveal_strlit(",");
    assert(a + ","@ + b =~= a + seq![','] + b);
    lemma_split_join(a, b, ',');
    lemma_piece_rules_append(split_on(a, ','), split_on(b, ','));
    let ra = filter_rules(a)->Ok_0;
    let rb = filter_rules(b)->Ok_0;
    let r = ra + rb;
    assert(r.len() > 0);
    assert(rules_keep(r, i) == (rules_keep(ra, i) && rules_keep(rb, i))) by {
        if rules_keep(ra, i) && rules_keep(rb, i) {
            assert forall|j: int| 0 <= j < r.len() implies rule_keeps(#[trigger] r[j], i) by {
                if j < ra.len() {
                    assert(r[j] == ra[j]);
                } else {
                    assert(r[j] == rb[j - ra.len()]);
                }
            }
        }
        if rules_keep(r, i) {
            assert forall|j: int| 0 <= j < ra.len() implies rule_keeps(#[trigger] ra[j], i) by {
                assert(r[j] == ra[j]);
            }
            assert forall|j: int| 0 <= j < rb.len() implies rule_keeps(#[trigger] rb[j], i) by {
                assert(r[j + ra.len()] == rb[j]);
            }
        }
    }
}

/// Whether `w` is spelled with lowercase ASCII letters and hyphens only.
spec fn plain_word(w: Seq<char>) -> bool {
    &&& w.len() > 0
    &&& forall|j: int| 0 <= j < w.len() ==> (w[j] == '-' || ('a' <= #[trigger] w[j] && w[j] <= 'z'))
}

proof fn lemma_filter_words_plain(k: Seq<char>)
    requires
        filter_kind_named(k) is Some,
    ensures
        plain_word(k),
{
    reveal_strlit("owned");
    reveal_strlit("prev-owned");
    reveal_strlit("wishlist");
    reveal_strlit("want-to-play");
    reveal_strlit("want-to-buy");
    reveal_strlit("preordered");
    reveal_strlit("for-trade");
    reveal_strlit("expansion");
    reveal_strlit("rated");
    reveal_strlit("played");
    reveal_strlit("solo");
    reveal_strlit("all");
}

/// A filter word alone keeps the items it names, and `not:` before it keeps
/// exactly the others.
pub proof fn lemma_filter_word_and_inverse(k: Seq<char>, i: CollectionItem)
    requires
        filter_kind_named(k) is Some,
    ensures
        filter_rules(k) == Ok::<Seq<(FilterKind, bool)>, Seq<char>>(
            seq![(filter_kind_named(k)->0, false)],
        ),
        filter_rules("not:"@ + k) == Ok::<Seq<(FilterKind, bool)>, Seq<char>>(
            seq![(filter_kind_named(k)->0, true)],
        ),
        rules_keep(filter_rules(k)->Ok_0, i) == kind_matches(filter_kind_named(k)->0, i),
        rules_keep(filter_rules("not:"@ + k)->Ok_0, i) == !kind_matches(filter_kind_named(k)->0, i),
{
    reveal_strlit("not:");
    lemma_filter_words_plain(k);
    let kind = filter_kind_named(k)->0;
    let n = "not:"@ + k;
    assert(!k.contains(',')) by {
        if k.contains(',') {
            let j = choose|j: int| 0 <= j < k.len() && k[j] == ',';
            assert(k[j] == '-' || ('a' <= k[j] && k[j] <= 'z'));
        }
    }
    assert(!n.contains(',')) by {
        if n.contains(',') {
            let j = choose|j: int| 0 <= j < n.len() && n[j] == ',';
            if j >= 4 {
                assert(n[j] == k[j - 4]);
            }
        }
    }
    assert(k[0] == '-' || ('a' <= k[0] && k[0] <= 'z'));
    assert(k.last() == k[k.len() - 1]);
    assert(k[k.len() - 1] == '-' || ('a' <= k[k.len() - 1] && k[k.len() - 1] <= 'z'));
    lemma_trim_unchanged(k);
    assert(n[0] == 'n');
    assert(n.last() == k.last());
    lemma_trim_unchanged(n);
    lemma_split_single(k, ',');
    lemma_split_single(n, ',');
    // `k` does not begin with `not:`: its fourth character would be a colon.
    assert(!"not:"@.is_prefix_of(k)) by {
        if "not:"@.is_prefix_of(k) {
            assert(k[3] == "not:"@[3]);
        }
    }
    assert("not:"@.is_prefix_of(n));
    assert(n.subrange(4, n.len() as int) =~= k);
    assert(seq![k].drop_last() =~= Seq::<Seq<char>>::empty());
    assert(seq![n].drop_last() =~= Seq::<Seq<char>>::empty());
    assert(seq![k].last() == k);
    assert(seq![n].last() == n);
    assert(piece_rules(Seq::<Seq<char>>::empty()) == Ok::<Seq<(FilterKind, bool)>, Seq<char>>(
        Seq::<(FilterKind, bool)>::empty(),
    ));
    assert(piece_rule(k) == Some(Ok::<(FilterKind, bool), Seq<char>>((kind, false))));
    assert(piece_rule(n) == Some(Ok::<(FilterKind, bool), Seq<char>>((kind, true))));
    assert(piece_rules(seq![k]) == Ok::<Seq<(FilterKind, bool)>, Seq<char>>(
        Seq::<(FilterKind, bool)>::empty().push((kind, false)),
    ));
    assert(piece_rules(seq![n]) == Ok::<Seq<(FilterKind, bool)>, Seq<char>>(
        Seq::<(FilterKind, bool)>::empty().push((kind, true)),
    ));
    assert(Seq::<(FilterKind, bool)>::empty().push((kind, false)) =~= seq![(kind, false)]);
    assert(Seq::<(FilterKind, bool)>::empty().push((kind, true)) =~= seq![(kind, true)]);
    lemma_single_rule_keeps((kind, false), i);
    lemma_single_rule_keeps((kind, true), i);
}

proof fn lemma_single_rule_keeps(rule: (FilterKind, bool), i: CollectionItem)
    ensures
        rules_keep(seq![rule], i) == rule_keeps(rule, i),
{
    let s1 = seq![rule];
    assert(s1[0] == rule);
    if rule_keeps(rule, i) {
        assert forall|j: int| 0 <= j < s1.len() implies rule_keeps(#[trigger] s1[j], i) by {
            assert(j == 0);
        }
    }
}

/// The `rated` filter keeps exactly the items the user has rated: those
/// with a rating for the table to sort by, the ones the statistics count
/// among the rated games.
pub proof fn lemma_rated_filter_means_user_rated(i: &CollectionItem)
    ensures
        kind_matches(FilterKind::Rated, *i) == (rating_of(*i) is Some),
        kind_matches(FilterKind::Rated, *i) == (user_ratings_of(seq![i]).len() == 1),
{
    let s = seq![i];
    assert(s.drop_last() =~= Seq::<&CollectionItem>::empty());
    assert(s.last() == i);
    assert(user_ratings_of(Seq::<&CollectionItem>::empty()).len() == 0);
}

/// The `played` filter keeps exactly the games the play statistics count as
/// played, and `solo` exactly those the player statistics count as playable
/// alone.
pub proof fn lemma_played_and_solo_filters_match_stats(i: &CollectionItem)
    ensures
        kind_matches(FilterKind::Played, *i) == (played_of(seq![i]).len() == 1),
        kind_matches(FilterKind::Solo, *i) == (count_supporting(player_ranges_of(seq![i]), 1) == 1),
{
    let s = seq![i];
    let e = Seq::<&CollectionItem>::empty();
    assert(s.drop_last() =~= e);
    assert(s.last() == i);
    assert(played_of(e).len() == 0);
    assert(player_ranges_of(e).len() == 0);
    let r = player_ranges_of(s);
    let re = Seq::<(&CollectionItem, (u32, u32))>::empty();
    assert(count_supporting(re, 1) == 0);
    if r.len() > 0 {
        assert(r =~= re.push((i, r.last().1)));
        assert(r.drop_last() =~= re);
        assert(r.last().0 == i);
        assert(count_supporting(r, 1) == count_supporting(re, 1) + if (match i.stats {
            Some(st) => supports(st, 1),
            None => false,
        }) {
            1nat
        } else {
            0nat
        });
    } else {
        assert(r =~= re);
    }
}

} // verus!
