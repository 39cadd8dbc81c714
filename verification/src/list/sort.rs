//! `--sort`: the order of the table rows.

use crate::error::{is_bad_arg, Error};
use crate::model::CollectionItem;
use crate::text::{
    chars_eq, chars_less, chars_of, eq_lit, find_char, find_char_exec, lemma_find_char,
    lemma_seq_lt_asymmetric, lemma_seq_lt_irreflexive, lemma_seq_lt_total, lowercase, push_chars,
    push_str, seq_lt, slice_chars, string_of, to_lowercase, trim, trim_chars,
};
use std::cmp::Ordering;
use vstd::prelude::*;

verus! {

/// The field the table is sorted by.
#[derive(Clone, Copy, Debug, PartialEq, Eq, Structural)]
pub enum SortField {
    Name,
    Year,
    Bggid,
    Plays,
    Rating,
    Time,
    Added,
    Geek,
    Players,
}

/// Ascending or descending.
#[derive(Clone, Copy, Debug, PartialEq, Eq, Structural)]
pub enum Direction {
    Asc,
    Desc,
}

/// A parsed `--sort`: the field and the direction.
#[derive(Clone, Copy, Debug)]
pub struct SortSpec {
    pub field: SortField,
    pub direction: Direction,
}

/// The sort words the error message lists.
pub const SORT_VALUES: &'static str = "name, year, bggid, plays, rating, time, added, geek, players (append `:asc` or `:desc` to override the natural direction)";

/// The sort field that `text` names, if any.
pub open spec fn sort_field_named(text: Seq<char>) -> Option<SortField> {
    if text == "name"@ {
        Some(SortField::Name)
    } else if text == "year"@ {
        Some(SortField::Year)
    } else if text == "bggid"@ {
        Some(SortField::Bggid)
    } else if text == "plays"@ {
        Some(SortField::Plays)
    } else if text == "rating"@ {
        Some(SortField::Rating)
    } else if text == "time"@ {
        Some(SortField::Time)
    } else if text == "added"@ {
        Some(SortField::Added)
    } else if text == "geek"@ {
        Some(SortField::Geek)
    } else if text == "players"@ {
        Some(SortField::Players)
    } else {
        None
    }
}

/// The direction that `text` names, if any.
pub open spec fn direction_named(text: Seq<char>) -> Option<Direction> {
    if text == "asc"@ {
        Some(Direction::Asc)
    } else if text == "desc"@ {
        Some(Direction::Desc)
    } else {
        None
    }
}

/// The direction a field sorts in unless told otherwise: counts, ratings and
/// recency descend, the rest ascend.
pub open spec fn natural_direction_of(f: SortField) -> Direction {
    match f {
        SortField::Plays | SortField::Rating | SortField::Added | SortField::Geek => Direction::Desc,
        _ => Direction::Asc,
    }
}

/// The message for an unknown sort field.
pub open spec fn unknown_field_message(text: Seq<char>) -> Seq<char> {
    "unknown sort field `"@ + text + "`. Valid: "@ + SORT_VALUES@
}

/// The message for an unknown direction.
pub open spec fn unknown_direction_message(text: Seq<char>) -> Seq<char> {
    "unknown sort direction `"@ + text + "`. Valid: asc, desc"@
}

/// What `--sort s` parses to. With a `:`, the trimmed text after the first
/// `:` must name a direction (checked first) and the trimmed text before it a
/// field; without one, the whole text must name a field, which then sorts in
/// its natural direction.
pub open spec fn sort_spec_of(s: Seq<char>) -> Result<(SortField, Direction), Seq<char>> {
    match find_char(s, ':') {
        Some(p) => {
            let n = trim(s.subrange(0, p));
            let d = trim(s.subrange(p + 1, s.len() as int));
            match direction_named(d) {
                None => Err(unknown_direction_message(d)),
                Some(dir) => match sort_field_named(n) {
                    None => Err(unknown_field_message(n)),
                    Some(f) => Ok((f, dir)),
                },
            }
        },
        None => match sort_field_named(s) {
            None => Err(unknown_field_message(s)),
            Some(f) => Ok((f, natural_direction_of(f))),
        },
    }
}

impl SortField {
    /// The sort field spelled by `s`, or the error naming the unknown word.
    pub fn parse(s: &Vec<char>) -> (r: Result<SortField, Error>)
        ensures
            match r {
                Ok(f) => sort_field_named(s@) == Some(f),
                Err(e) => sort_field_named(s@) is None && is_bad_arg(e, unknown_field_message(s@)),
            },
    {
        if eq_lit(s, "name") {
            Ok(SortField::Name)
        } else if eq_lit(s, "year") {
            Ok(SortField::Year)
        } else if eq_lit(s, "bggid") {
            Ok(SortField::Bggid)
        } else if eq_lit(s, "plays") {
            Ok(SortField::Plays)
        } else if eq_lit(s, "rating") {
            Ok(SortField::Rating)
        } else if eq_lit(s, "time") {
            Ok(SortField::Time)
        } else if eq_lit(s, "added") {
            Ok(SortField::Added)
        } else if eq_lit(s, "geek") {
            Ok(SortField::Geek)
        } else if eq_lit(s, "players") {
            Ok(SortField::Players)
        } else {
            let mut m: Vec<char> = Vec::new();
            push_str(&mut m, "unknown sort field `");
            push_chars(&mut m, s);
            push_str(&mut m, "`. Valid: ");
            push_str(&mut m, SORT_VALUES);
            Err(Error::BadArg(string_of(&m)))
        }
    }

    /// The direction this field sorts in by default.
    pub fn natural_direction(self) -> (d: Direction)
        ensures
            d == natural_direction_of(self),
    {
        match self {
            SortField::Plays | SortField::Rating | SortField::Added | SortField::Geek => {
                Direction::Desc
            },
            _ => Direction::Asc,
        }
    }
}

/// The direction spelled by `s`, or the error naming the unknown word.
pub fn parse_direction(s: &Vec<char>) -> (r: Result<Direction, Error>)
    ensures
        match r {
            Ok(d) => direction_named(s@) == Some(d),
            Err(e) => direction_named(s@) is None && is_bad_arg(e, unknown_direction_message(s@)),
        },
{
    if eq_lit(s, "asc") {
        Ok(Direction::Asc)
    } else if eq_lit(s, "desc") {
        Ok(Direction::Desc)
    } else {
        let mut m: Vec<char> = Vec::new();
        push_str(&mut m, "unknown sort direction `");
        push_chars(&mut m, s);
        push_str(&mut m, "`. Valid: asc, desc");
        Err(Error::BadArg(string_of(&m)))
    }
}

// ---------- orders ----------

/// The order that a strict comparison and an equality test describe.
pub open spec fn order_from(less: bool, equal: bool) -> Ordering {
    if less {
        Ordering::Less
    } else if equal {
        Ordering::Equal
    } else {
        Ordering::Greater
    }
}

/// The opposite order.
pub open spec fn reversed(o: Ordering) -> Ordering {
    match o {
        Ordering::Less => Ordering::Greater,
        Ordering::Equal => Ordering::Equal,
        Ordering::Greater => Ordering::Less,
    }
}

/// `o` in direction `d`.
pub open spec fn directed(o: Ordering, d: Direction) -> Ordering {
    match d {
        Direction::Asc => o,
        Direction::Desc => reversed(o),
    }
}

/// `first`, or `second` where `first` is `Equal`.
pub open spec fn then_order(first: Ordering, second: Ordering) -> Ordering {
    if first == Ordering::Equal {
        second
    } else {
        first
    }
}

/// Two optional `u32` values in direction `d`, absent values last either way.
pub open spec fn opt_u32_order(a: Option<u32>, b: Option<u32>, d: Direction) -> Ordering {
    match (a, b) {
        (Some(x), Some(y)) => directed(order_from(x < y, x == y), d),
        (Some(_), None) => Ordering::Less,
        (None, Some(_)) => Ordering::Greater,
        (None, None) => Ordering::Equal,
    }
}

/// Two optional `i32` values in direction `d`, absent values last either way.
pub open spec fn opt_i32_order(a: Option<i32>, b: Option<i32>, d: Direction) -> Ordering {
    match (a, b) {
        (Some(x), Some(y)) => directed(order_from(x < y, x == y), d),
        (Some(_), None) => Ordering::Less,
        (None, Some(_)) => Ordering::Greater,
        (None, None) => Ordering::Equal,
    }
}

/// Two optional `u64` values in direction `d`, absent values last either way.
pub open spec fn opt_u64_order(a: Option<u64>, b: Option<u64>, d: Direction) -> Ordering {
    match (a, b) {
        (Some(x), Some(y)) => directed(order_from(x < y, x == y), d),
        (Some(_), None) => Ordering::Less,
        (None, Some(_)) => Ordering::Greater,
        (None, None) => Ordering::Equal,
    }
}

/// The user's rating of an item (as an order key), if rated.
pub open spec fn rating_of(i: CollectionItem) -> Option<u32> {
    match i.stats {
        Some(s) => s.user_rating,
        None => None,
    }
}

/// The BGG geek (Bayesian) rating of an item (as an order key), if known.
pub open spec fn geek_of(i: CollectionItem) -> Option<u32> {
    match i.stats {
        Some(s) => s.bayes_average,
        None => None,
    }
}

/// The playing time of an item, if known.
pub open spec fn time_of(i: CollectionItem) -> Option<u32> {
    match i.stats {
        Some(s) => s.playing_time,
        None => None,
    }
}

/// The minimum player count of an item, if known.
pub open spec fn min_players_of(i: CollectionItem) -> Option<u32> {
    match i.stats {
        Some(s) => s.min_players,
        None => None,
    }
}

/// The maximum player count of an item, if known.
pub open spec fn max_players_of(i: CollectionItem) -> Option<u32> {
    match i.stats {
        Some(s) => s.max_players,
        None => None,
    }
}

/// Names compared case-insensitively (by their lowercase forms, in code-point order).
pub open spec fn name_order(a: CollectionItem, b: CollectionItem) -> Ordering {
    order_from(
        seq_lt(lowercase(a.name@), lowercase(b.name@)),
        lowercase(a.name@) == lowercase(b.name@),
    )
}

/// The key a rating is compared by: as `f32` comparison does, -0.0 counts
/// as 0.0.
pub open spec fn compare_key(o: Option<u32>) -> Option<u32> {
    match o {
        Some(k) => Some(if k == 0x7FFF_FFFF { 0x8000_0000u32 } else { k }),
        None => None,
    }
}

fn compare_key_exec(o: Option<u32>) -> (r: Option<u32>)
    ensures
        r == compare_key(o),
{
    match o {
        Some(k) => Some(if k == 0x7FFF_FFFF { 0x8000_0000u32 } else { k }),
        None => None,
    }
}

/// Two items by the sort field alone, in direction `d`.
pub open spec fn field_order(
    a: CollectionItem,
    b: CollectionItem,
    f: SortField,
    d: Direction,
) -> Ordering {
    match f {
        SortField::Name => directed(name_order(a, b), d),
        SortField::Year => opt_i32_order(a.year_published, b.year_published, d),
        SortField::Bggid => directed(order_from(a.id < b.id, a.id == b.id), d),
        SortField::Plays => directed(order_from(a.num_plays < b.num_plays, a.num_plays == b.num_plays), d),
        SortField::Rating => opt_u32_order(compare_key(rating_of(a)), compare_key(rating_of(b)), d),
        SortField::Time => opt_u32_order(time_of(a), time_of(b), d),
        SortField::Added => opt_u64_order(a.collid, b.collid, d),
        SortField::Geek => opt_u32_order(compare_key(geek_of(a)), compare_key(geek_of(b)), d),
        SortField::Players => then_order(
            opt_u32_order(min_players_of(a), min_players_of(b), d),
            opt_u32_order(max_players_of(a), max_players_of(b), d),
        ),
    }
}

/// Two items in table order: by the sort field, then by name.
pub open spec fn item_order(spec: SortSpec, a: CollectionItem, b: CollectionItem) -> Ordering {
    then_order(field_order(a, b, spec.field, spec.direction), name_order(a, b))
}

/// Swapping the items reverses the order.
pub proof fn lemma_item_order_antisymmetric(spec: SortSpec, a: CollectionItem, b: CollectionItem)
    ensures
        item_order(spec, a, b) == reversed(item_order(spec, b, a)),
{
    let la = lowercase(a.name@);
    let lb = lowercase(b.name@);
    lemma_seq_lt_asymmetric(la, lb);
    lemma_seq_lt_asymmetric(lb, la);
    lemma_seq_lt_total(la, lb);
    lemma_seq_lt_irreflexive(la);
}

/// An item that lacks the value sorted by comes after one that has it, in
/// either direction.
pub proof fn lemma_missing_sorts_last(spec: SortSpec, a: CollectionItem, b: CollectionItem)
    requires
        match spec.field {
            SortField::Rating => rating_of(a) is Some && rating_of(b) is None,
            SortField::Time => time_of(a) is Some && time_of(b) is None,
            SortField::Geek => geek_of(a) is Some && geek_of(b) is None,
            SortField::Year => a.year_published is Some && b.year_published is None,
            SortField::Added => a.collid is Some && b.collid is None,
            SortField::Players => min_players_of(a) is Some && min_players_of(b) is None,
            _ => false,
        },
    ensures
        item_order(spec, a, b) == Ordering::Less,
{
}

/// Whether both items have the value that field `f` sorts by (the
/// minimum and maximum player counts, for `players`).
pub open spec fn both_keyed(f: SortField, a: CollectionItem, b: CollectionItem) -> bool {
    match f {
        SortField::Name | SortField::Bggid | SortField::Plays => true,
        SortField::Year => a.year_published is Some && b.year_published is Some,
        SortField::Rating => rating_of(a) is Some && rating_of(b) is Some,
        SortField::Time => time_of(a) is Some && time_of(b) is Some,
        SortField::Added => a.collid is Some && b.collid is Some,
        SortField::Geek => geek_of(a) is Some && geek_of(b) is Some,
        SortField::Players => min_players_of(a) is Some && min_players_of(b) is Some
            && max_players_of(a) is Some && max_players_of(b) is Some,
    }
}

/// For items that both have the value sorted by, sorting descending is
/// sorting ascending reversed, whatever the field.
pub proof fn lemma_desc_reverses_asc(f: SortField, a: CollectionItem, b: CollectionItem)
    requires
        both_keyed(f, a, b),
    ensures
        field_order(a, b, f, Direction::Desc) == reversed(field_order(a, b, f, Direction::Asc)),
{
}

/// Ascending puts the smaller value first: the earlier year, the lower id,
/// fewer plays, the shorter playing time, the earlier addition.
pub proof fn lemma_asc_puts_smaller_first(a: CollectionItem, b: CollectionItem)
    ensures
        (a.year_published matches Some(x) && b.year_published matches Some(y) && x < y)
            ==> field_order(a, b, SortField::Year, Direction::Asc) == Ordering::Less,
        a.id < b.id ==> field_order(a, b, SortField::Bggid, Direction::Asc) == Ordering::Less,
        a.num_plays < b.num_plays ==> field_order(a, b, SortField::Plays, Direction::Asc)
            == Ordering::Less,
        (time_of(a) matches Some(x) && time_of(b) matches Some(y) && x < y) ==> field_order(
            a,
            b,
            SortField::Time,
            Direction::Asc,
        ) == Ordering::Less,
        (a.collid matches Some(x) && b.collid matches Some(y) && x < y) ==> field_order(
            a,
            b,
            SortField::Added,
            Direction::Asc,
        ) == Ordering::Less,
{
}

/// `--sort added` lists the newest additions (the larger collection ids)
/// first; `added:asc` the oldest first.
pub proof fn lemma_added_sorts_newest_first(a: CollectionItem, b: CollectionItem)
    requires
        a.collid matches Some(x) && b.collid matches Some(y) && x < y,
    ensures
        sort_spec_of("added"@) == Ok::<(SortField, Direction), Seq<char>>(
            (SortField::Added, Direction::Desc),
        ),
        item_order(SortSpec { field: SortField::Added, direction: Direction::Desc }, b, a)
            == Ordering::Less,
        item_order(SortSpec { field: SortField::Added, direction: Direction::Asc }, a, b)
            == Ordering::Less,
{
    reveal_strlit("added");
    reveal_strlit("name");
    reveal_strlit("year");
    reveal_strlit("bggid");
    reveal_strlit("plays");
    reveal_strlit("rating");
    reveal_strlit("time");
    lemma_find_char("added"@, ':');
}

fn order_of_u32(x: u32, y: u32, d: Direction) -> (o: Ordering)
    ensures
        o == directed(order_from(x < y, x == y), d),
{
    let base = if x < y {
        Ordering::Less
    } else if x == y {
        Ordering::Equal
    } else {
        Ordering::Greater
    };
    apply_direction(base, d)
}

/// `ordering` in direction `direction`.
pub fn apply_direction(ordering: Ordering, direction: Direction) -> (o: Ordering)
    ensures
        o == directed(ordering, direction),
{
    match direction {
        Direction::Asc => ordering,
        Direction::Desc => match ordering {
            Ordering::Less => Ordering::Greater,
            Ordering::Equal => Ordering::Equal,
            Ordering::Greater => Ordering::Less,
        },
    }
}

/// Two optional `u32` values in direction `direction`, absent values last.
pub fn opt_cmp(a: Option<u32>, b: Option<u32>, direction: Direction) -> (o: Ordering)
    ensures
        o == opt_u32_order(a, b, direction),
{
    match (a, b) {
        (Some(x), Some(y)) => order_of_u32(x, y, direction),
        (Some(_), None) => Ordering::Less,
        (None, Some(_)) => Ordering::Greater,
        (None, None) => Ordering::Equal,
    }
}

fn opt_cmp_i32(a: Option<i32>, b: Option<i32>, direction: Direction) -> (o: Ordering)
    ensures
        o == opt_i32_order(a, b, direction),
{
    match (a, b) {
        (Some(x), Some(y)) => {
            let base = if x < y {
                Ordering::Less
            } else if x == y {
                Ordering::Equal
            } else {
                Ordering::Greater
            };
            apply_direction(base, direction)
        },
        (Some(_), None) => Ordering::Less,
        (None, Some(_)) => Ordering::Greater,
        (None, None) => Ordering::Equal,
    }
}

fn opt_cmp_u64(a: Option<u64>, b: Option<u64>, direction: Direction) -> (o: Ordering)
    ensures
        o == opt_u64_order(a, b, direction),
{
    match (a, b) {
        (Some(x), Some(y)) => {
            let base = if x < y {
                Ordering::Less
            } else if x == y {
                Ordering::Equal
            } else {
                Ordering::Greater
            };
            apply_direction(base, direction)
        },
        (Some(_), None) => Ordering::Less,
        (None, Some(_)) => Ordering::Greater,
        (None, None) => Ordering::Equal,
    }
}

/// The user's rating key of an item, if rated.
pub fn rating(i: &CollectionItem) -> (r: Option<u32>)
    ensures
        r == rating_of(*i),
{
    match &i.stats {
        Some(s) => s.user_rating,
        None => None,
    }
}

/// The geek rating key of an item, if known.
pub fn geek(i: &CollectionItem) -> (r: Option<u32>)
    ensures
        r == geek_of(*i),
{
    match &i.stats {
        Some(s) => s.bayes_average,
        None => None,
    }
}

/// The playing time of an item, if known.
pub fn time(i: &CollectionItem) -> (r: Option<u32>)
    ensures
        r == time_of(*i),
{
    match &i.stats {
        Some(s) => s.playing_time,
        None => None,
    }
}

/// The minimum player count of an item, if known.
pub fn min_players(i: &CollectionItem) -> (r: Option<u32>)
    ensures
        r == min_players_of(*i),
{
    match &i.stats {
        Some(s) => s.min_players,
        None => None,
    }
}

/// The maximum player count of an item, if known.
pub fn max_players(i: &CollectionItem) -> (r: Option<u32>)
    ensures
        r == max_players_of(*i),
{
    match &i.stats {
        Some(s) => s.max_players,
        None => None,
    }
}

/// Two lowercase names in code-point order.
fn lower_order(la: &Vec<char>, lb: &Vec<char>) -> (o: Ordering)
    ensures
        o == order_from(seq_lt(la@, lb@), la@ == lb@),
{
    if chars_less(la, lb) {
        Ordering::Less
    } else if chars_eq(la, lb) {
        Ordering::Equal
    } else {
        Ordering::Greater
    }
}

/// Two items by name, case-insensitively.
pub fn name_cmp(a: &CollectionItem, b: &CollectionItem) -> (o: Ordering)
    ensures
        o == name_order(*a, *b),
{
    let la = to_lowercase(a.name.as_str());
    let lb = to_lowercase(b.name.as_str());
    lower_order(&chars_of(la.as_str()), &chars_of(lb.as_str()))
}

/// Two items by the sort field alone.
pub fn field_cmp(a: &CollectionItem, b: &CollectionItem, f: SortField, direction: Direction) -> (o:
    Ordering)
    ensures
        o == field_order(*a, *b, f, direction),
{
    match f {
        SortField::Name => apply_direction(name_cmp(a, b), direction),
        SortField::Year => opt_cmp_i32(a.year_published, b.year_published, direction),
        SortField::Bggid => order_of_u32(a.id, b.id, direction),
        SortField::Plays => order_of_u32(a.num_plays, b.num_plays, direction),
        SortField::Rating => opt_cmp(compare_key_exec(rating(a)), compare_key_exec(rating(b)), direction),
        SortField::Time => opt_cmp(time(a), time(b), direction),
        SortField::Added => opt_cmp_u64(a.collid, b.collid, direction),
        SortField::Geek => opt_cmp(compare_key_exec(geek(a)), compare_key_exec(geek(b)), direction),
        SortField::Players => {
            let first = opt_cmp(min_players(a), min_players(b), direction);
            match first {
                Ordering::Equal => opt_cmp(max_players(a), max_players(b), direction),
                _ => first,
            }
        },
    }
}

impl SortSpec {
    /// Parses `--sort`: a field, optionally followed by `:asc` or `:desc`.
    pub fn parse(s: &str) -> (r: Result<SortSpec, Error>)
        ensures
            match r {
                Ok(spec) => sort_spec_of(s@) == Ok::<(SortField, Direction), Seq<char>>(
                    (spec.field, spec.direction),
                ),
                Err(e) => exists|m: Seq<char>|
                    sort_spec_of(s@) == Err::<(SortField, Direction), Seq<char>>(m) && is_bad_arg(
                        e,
                        m,
                    ),
            },
    {
        let cs = chars_of(s);
        match find_char_exec(&cs, ':') {
            Some(p) => {
                proof {
                    lemma_find_char(cs@, ':');
                    assert(find_char(cs@, ':') == Some(p as int));
                }
                assert(p < cs.len());
                let n = trim_chars(&slice_chars(&cs, 0, p));
                let d = trim_chars(&slice_chars(&cs, p + 1, cs.len()));
                let direction = match parse_direction(&d) {
                    Ok(dir) => dir,
                    Err(e) => {
                        return Err(e);
                    },
                };
                match SortField::parse(&n) {
                    Ok(field) => Ok(SortSpec { field, direction }),
                    Err(e) => Err(e),
                }
            },
            None => match SortField::parse(&cs) {
                Ok(field) => Ok(SortSpec { field, direction: field.natural_direction() }),
                Err(e) => Err(e),
            },
        }
    }

    /// Two items in table order: by the sort field, then by name.
    pub fn compare(&self, a: &CollectionItem, b: &CollectionItem) -> (o: Ordering)
        ensures
            o == item_order(*self, *a, *b),
    {
        let primary = field_cmp(a, b, self.field, self.direction);
        match primary {
            Ordering::Equal => name_cmp(a, b),
            _ => primary,
        }
    }
}

// ---------- order predicates ----------

/// `a` (at input position `pa`) may stand right before `b` (at `pb`) in a
/// stable sort: it orders strictly before, or ties and came first.
pub open spec fn in_order(spec: SortSpec, a: CollectionItem, b: CollectionItem, pa: int, pb: int) -> bool {
    ||| item_order(spec, a, b) == Ordering::Less
    ||| (item_order(spec, a, b) == Ordering::Equal && pa < pb)
}

/// `a` orders strictly after `b`.
pub open spec fn orders_after(spec: SortSpec, a: CollectionItem, b: CollectionItem) -> bool {
    item_order(spec, a, b) == Ordering::Greater
}

/// When `b` orders strictly after `a`, `a` stands before `b` whatever their positions.
pub proof fn lemma_after_gives_in_order(spec: SortSpec, a: CollectionItem, b: CollectionItem, pa: int, pb: int)
    requires
        orders_after(spec, b, a),
    ensures
        in_order(spec, a, b, pa, pb),
{
    lemma_item_order_antisymmetric(spec, a, b);
}

/// When `a` does not order after `b` and came first, `a` may stand before `b`.
pub proof fn lemma_not_after_gives_in_order(spec: SortSpec, a: CollectionItem, b: CollectionItem, pa: int, pb: int)
    requires
        !orders_after(spec, a, b),
        pa < pb,
    ensures
        in_order(spec, a, b, pa, pb),
{
}

/// Whether `a` (with lowercase name `la`) orders strictly after `b` (with `lb`).
pub fn goes_after(spec: &SortSpec, a: &CollectionItem, la: &Vec<char>, b: &CollectionItem, lb: &Vec<char>) -> (r: bool)
    requires
        la@ == lowercase(a.name@),
        lb@ == lowercase(b.name@),
    ensures
        r == orders_after(*spec, *a, *b),
{
    let primary = field_cmp(a, b, spec.field, spec.direction);
    let o = match primary {
        Ordering::Equal => lower_order(la, lb),
        _ => primary,
    };
    match o {
        Ordering::Greater => true,
        _ => false,
    }
}

} // verus!
