//! `--cols`: which columns the table shows, their headers and their cells.

use crate::error::{is_bad_arg, Error};
use crate::list::render::{hyperlink, hyperlink_text};
use crate::list::sort::{
    geek, geek_of, max_players, max_players_of, min_players, min_players_of, rating, rating_of,
    sort_field_named, time, time_of, SortField,
};
use crate::model::CollectionItem;
use crate::text::{
    chars_of, decimal, decimal_int, eq_lit, push_chars, push_decimal, push_decimal_int, push_str,
    split_chars, split_on, string_of, trim, trim_chars, views,
};
use vstd::prelude::*;

verus! {

/// One table column.
#[derive(Clone, Copy, Debug, PartialEq, Eq, Structural)]
pub enum Col {
    Year,
    Name,
    Bggid,
    Plays,
    Rating,
    Time,
    Players,
    Geek,
}

/// The column words the error message lists.
pub const COL_VALUES: &'static str = "year, name, bggid, plays, rating, time, players, geek (or `all`)";

/// The column that `text` names, if any.
pub open spec fn col_named(text: Seq<char>) -> Option<Col> {
    if text == "year"@ {
        Some(Col::Year)
    } else if text == "name"@ {
        Some(Col::Name)
    } else if text == "bggid"@ {
        Some(Col::Bggid)
    } else if text == "plays"@ {
        Some(Col::Plays)
    } else if text == "rating"@ {
        Some(Col::Rating)
    } else if text == "time"@ {
        Some(Col::Time)
    } else if text == "players"@ {
        Some(Col::Players)
    } else if text == "geek"@ {
        Some(Col::Geek)
    } else {
        None
    }
}

/// The message for an unknown column word.
pub open spec fn unknown_column_message(text: Seq<char>) -> Seq<char> {
    "unknown column `"@ + text + "`. Valid: "@ + COL_VALUES@
}

/// Every column, in the order `--cols all` shows them (name last).
pub open spec fn all_cols() -> Seq<Col> {
    seq![
        Col::Year,
        Col::Bggid,
        Col::Plays,
        Col::Rating,
        Col::Geek,
        Col::Time,
        Col::Players,
        Col::Name,
    ]
}

/// The header of a column.
pub open spec fn col_header(c: Col) -> Seq<char> {
    match c {
        Col::Year => "YEAR"@,
        Col::Name => "NAME"@,
        Col::Bggid => "BGGID"@,
        Col::Plays => "PLAYS"@,
        Col::Rating => "RATING"@,
        Col::Time => "TIME"@,
        Col::Players => "PLAYERS"@,
        Col::Geek => "GEEK"@,
    }
}

/// The column that shows the sort field, if it has one.
pub open spec fn column_for(f: SortField) -> Option<Col> {
    match f {
        SortField::Name => None,
        SortField::Year => None,
        SortField::Bggid => Some(Col::Bggid),
        SortField::Plays => Some(Col::Plays),
        SortField::Rating => Some(Col::Rating),
        SortField::Time => Some(Col::Time),
        SortField::Added => None,
        SortField::Geek => Some(Col::Geek),
        SortField::Players => Some(Col::Players),
    }
}

/// The columns shown without `--cols`: year and name, with the sort field's
/// column, if any, inserted before the name.
pub open spec fn default_cols(f: SortField) -> Seq<Col> {
    match column_for(f) {
        Some(c) => if c == Col::Year || c == Col::Name {
            seq![Col::Year, Col::Name]
        } else {
            seq![Col::Year, c, Col::Name]
        },
        None => seq![Col::Year, Col::Name],
    }
}

/// The columns the pieces of `--cols` name, each once in first-mention
/// order (blank pieces skipped), or the message of the first unknown word.
pub open spec fn col_pieces(pieces: Seq<Seq<char>>) -> Result<Seq<Col>, Seq<char>>
    decreases pieces.len(),
{
    if pieces.len() == 0 {
        Ok(Seq::empty())
    } else {
        match col_pieces(pieces.drop_last()) {
            Err(m) => Err(m),
            Ok(cs) => {
                let t = trim(pieces.last());
                if t.len() == 0 {
                    Ok(cs)
                } else {
                    match col_named(t) {
                        None => Err(unknown_column_message(t)),
                        Some(c) => if cs.contains(c) {
                            Ok(cs)
                        } else {
                            Ok(cs.push(c))
                        },
                    }
                }
            },
        }
    }
}

/// The columns to show for `--cols arg` (or its absence) when sorting by `f`.
pub open spec fn resolved_columns(arg: Option<Seq<char>>, f: SortField) -> Result<Seq<Col>, Seq<char>> {
    match arg {
        Some(s) => {
            let t = trim(s);
            if t == "all"@ {
                Ok(all_cols())
            } else {
                match col_pieces(split_on(t, ',')) {
                    Err(m) => Err(m),
                    Ok(cs) => if cs.len() == 0 {
                        Err("--cols is empty"@)
                    } else {
                        Ok(cs)
                    },
                }
            }
        },
        None => Ok(default_cols(f)),
    }
}

/// The link to an item's page on BGG.
pub open spec fn bgg_url_text(item: CollectionItem) -> Seq<char> {
    "https://boardgamegeek.com/boardgame/"@ + decimal(item.id as nat)
}

/// The text of an item's cell in column `c`, or `None` for a rating column
/// whose (floating-point) value is present: that cell is written from the
/// rating key by `Cell::Rating`.
pub open spec fn cell_text(c: Col, item: CollectionItem, linkify: bool) -> Option<Seq<char>> {
    match c {
        Col::Year => Some(
            match item.year_published {
                Some(y) => decimal_int(y as int),
                None => "-"@,
            },
        ),
        Col::Name => Some(
            if linkify {
                hyperlink_text(bgg_url_text(item), item.name@)
            } else {
                item.name@
            },
        ),
        Col::Bggid => Some(decimal(item.id as nat)),
        Col::Plays => Some(decimal(item.num_plays as nat)),
        Col::Rating => match rating_of(item) {
            Some(_) => None,
            None => Some("-"@),
        },
        Col::Time => Some(
            match time_of(item) {
                Some(t) => decimal(t as nat) + " min"@,
                None => "-"@,
            },
        ),
        Col::Players => Some(
            match (min_players_of(item), max_players_of(item)) {
                (Some(a), Some(b)) => if a == b {
                    decimal(a as nat)
                } else {
                    decimal(a as nat) + "-"@ + decimal(b as nat)
                },
                (Some(a), None) => decimal(a as nat) + "+"@,
                (None, Some(b)) => "≤"@ + decimal(b as nat),
                (None, None) => "-"@,
            },
        ),
        Col::Geek => match geek_of(item) {
            Some(_) => None,
            None => Some("-"@),
        },
    }
}

/// The rating key and decimal places of a rating cell whose value is present.
pub open spec fn cell_rating(c: Col, item: CollectionItem) -> Option<(u32, u32)> {
    match c {
        Col::Rating => match rating_of(item) {
            Some(k) => Some((k, 1)),
            None => None,
        },
        Col::Geek => match geek_of(item) {
            Some(k) => Some((k, 2)),
            None => None,
        },
        _ => None,
    }
}

/// One table cell: finished text, or a rating (by its order key) to be
/// written with `precision` decimal places.
#[derive(Debug)]
pub enum Cell {
    Text(String),
    Rating { key: u32, precision: u32 },
}

impl Col {
    /// The column spelled by `s`, or the error naming the unknown word.
    pub fn parse(s: &Vec<char>) -> (r: Result<Col, Error>)
        ensures
            match r {
                Ok(c) => col_named(s@) == Some(c),
                Err(e) => col_named(s@) is None && is_bad_arg(e, unknown_column_message(s@)),
            },
    {
        if eq_lit(s, "year") {
            Ok(Col::Year)
        } else if eq_lit(s, "name") {
            Ok(Col::Name)
        } else if eq_lit(s, "bggid") {
            Ok(Col::Bggid)
        } else if eq_lit(s, "plays") {
            Ok(Col::Plays)
        } else if eq_lit(s, "rating") {
            Ok(Col::Rating)
        } else if eq_lit(s, "time") {
            Ok(Col::Time)
        } else if eq_lit(s, "players") {
            Ok(Col::Players)
        } else if eq_lit(s, "geek") {
            Ok(Col::Geek)
        } else {
            let mut m: Vec<char> = Vec::new();
            push_str(&mut m, "unknown column `");
            push_chars(&mut m, s);
            push_str(&mut m, "`. Valid: ");
            push_str(&mut m, COL_VALUES);
            Err(Error::BadArg(string_of(&m)))
        }
    }

    /// Every column, name last.
    pub fn all() -> (r: Vec<Col>)
        ensures
            r@ == all_cols(),
    {
        let r = vec![
            Col::Year,
            Col::Bggid,
            Col::Plays,
            Col::Rating,
            Col::Geek,
            Col::Time,
            Col::Players,
            Col::Name,
        ];
        assert(r@ =~= all_cols());
        r
    }

    /// The column's header.
    pub fn header(self) -> (r: &'static str)
        ensures
            r@ == col_header(self),
    {
        match self {
            Col::Year => "YEAR",
            Col::Name => "NAME",
            Col::Bggid => "BGGID",
            Col::Plays => "PLAYS",
            Col::Rating => "RATING",
            Col::Time => "TIME",
            Col::Players => "PLAYERS",
            Col::Geek => "GEEK",
        }
    }

    /// Whether the column may run unpadded when it is the last one (the name).
    pub fn is_last_friendly(self) -> (r: bool)
        ensures
            r == (self == Col::Name),
    {
        match self {
            Col::Name => true,
            _ => false,
        }
    }

    /// The cell of `item` in this column; names become terminal links when `linkify`.
    pub fn cell(self, item: &CollectionItem, linkify: bool) -> (r: Cell)
        ensures
            match r {
                Cell::Text(s) => cell_text(self, *item, linkify) == Some(s@),
                Cell::Rating { key, precision } => cell_text(self, *item, linkify) is None
                    && cell_rating(self, *item) == Some((key, precision)),
            },
    {
        let mut out: Vec<char> = Vec::new();
        match self {
            Col::Year => match item.year_published {
                Some(y) => push_decimal_int(&mut out, y as i64),
                None => push_str(&mut out, "-"),
            },
            Col::Name => {
                if linkify {
                    let url = bgg_url(item);
                    let link = hyperlink(url.as_str(), item.name.as_str());
                    push_str(&mut out, link.as_str());
                } else {
                    push_str(&mut out, item.name.as_str());
                }
            },
            Col::Bggid => push_decimal(&mut out, item.id as u64),
            Col::Plays => push_decimal(&mut out, item.num_plays as u64),
            Col::Rating => match rating(item) {
                Some(k) => {
                    return Cell::Rating { key: k, precision: 1 };
                },
                None => push_str(&mut out, "-"),
            },
            Col::Time => match time(item) {
                Some(t) => {
                    push_decimal(&mut out, t as u64);
                    push_str(&mut out, " min");
                },
                None => push_str(&mut out, "-"),
            },
            Col::Players => match (min_players(item), max_players(item)) {
                (Some(a), Some(b)) => {
                    if a == b {
                        push_decimal(&mut out, a as u64);
                    } else {
                        push_decimal(&mut out, a as u64);
                        push_str(&mut out, "-");
                        push_decimal(&mut out, b as u64);
                    }
                },
                (Some(a), None) => {
                    push_decimal(&mut out, a as u64);
                    push_str(&mut out, "+");
                },
                (None, Some(b)) => {
                    push_str(&mut out, "≤");
                    push_decimal(&mut out, b as u64);
                },
                (None, None) => push_str(&mut out, "-"),
            },
            Col::Geek => match geek(item) {
                Some(k) => {
                    return Cell::Rating { key: k, precision: 2 };
                },
                None => push_str(&mut out, "-"),
            },
        }
        assert(cell_text(self, *item, linkify) == Some(out@));
        Cell::Text(string_of(&out))
    }
}

/// The link to an item's page on BGG.
pub fn bgg_url(item: &CollectionItem) -> (r: String)
    ensures
        r@ == bgg_url_text(*item),
{
    let mut out: Vec<char> = Vec::new();
    push_str(&mut out, "https://boardgamegeek.com/boardgame/");
    push_decimal(&mut out, item.id as u64);
    string_of(&out)
}

/// The column that shows the sort field, if it has one.
pub fn column_for_sort(field: SortField) -> (r: Option<Col>)
    ensures
        r == column_for(field),
{
    match field {
        SortField::Name => None,
        SortField::Year => None,
        SortField::Bggid => Some(Col::Bggid),
        SortField::Plays => Some(Col::Plays),
        SortField::Rating => Some(Col::Rating),
        SortField::Time => Some(Col::Time),
        SortField::Added => None,
        SortField::Geek => Some(Col::Geek),
        SortField::Players => Some(Col::Players),
    }
}

fn contains_col(v: &Vec<Col>, c: Col) -> (r: bool)
    ensures
        r == v@.contains(c),
{
    let mut i: usize = 0;
    while i < v.len()
        invariant
            i <= v@.len(),
            forall|j: int| 0 <= j < i ==> v@[j] != c,
        decreases v@.len() - i,
    {
        if v[i] == c {
            return true;
        }
        i += 1;
    }
    false
}

/// The columns to show: those `--cols` names (each once, first mention
/// first; `all` for every column), or, without `--cols`, year and name with
/// the sort field's column before the name.
pub fn resolve_columns(cols_arg: Option<&str>, sort_field: SortField) -> (r: Result<Vec<Col>, Error>)
    ensures
        match r {
            Ok(cols) => resolved_columns(
                match cols_arg {
                    Some(s) => Some(s@),
                    None => None,
                },
                sort_field,
            ) == Ok::<Seq<Col>, Seq<char>>(cols@),
            Err(e) => match resolved_columns(
                match cols_arg {
                    Some(s) => Some(s@),
                    None => None,
                },
                sort_field,
            ) {
                Err(m) => is_bad_arg(e, m),
                Ok(_) => false,
            },
        },
{
    match cols_arg {
        Some(s) => {
            let trimmed = trim_chars(&chars_of(s));
            if eq_lit(&trimmed, "all") {
                return Ok(Col::all());
            }
            let pieces = split_chars(&trimmed, ',');
            let ghost ps = views(pieces@);
            let mut out: Vec<Col> = Vec::new();
            let mut i: usize = 0;
            assert(ps.take(0) =~= Seq::<Seq<char>>::empty());
            while i < pieces.len()
                invariant
                    ps == views(pieces@),
                    ps == split_on(trimmed@, ','),
                    trimmed@ == trim(s@),
                    trimmed@ != "all"@,
                    cols_arg == Some(s),
                    i <= pieces@.len(),
                    col_pieces(ps.take(i as int)) == Ok::<Seq<Col>, Seq<char>>(out@),
                decreases pieces@.len() - i,
            {
                assert(ps.take(i as int + 1).drop_last() =~= ps.take(i as int));
                assert(ps.take(i as int + 1).last() == pieces@[i as int]@);
                let part = trim_chars(&pieces[i]);
                if part.len() > 0 {
                    match Col::parse(&part) {
                        Ok(col) => {
                            if !contains_col(&out, col) {
                                out.push(col);
                            }
                        },
                        Err(e) => {
                            proof {
                                lemma_col_err_persists(ps, i as int + 1, unknown_column_message(part@));
                                assert(resolved_columns(Some(s@), sort_field) == Err::<Seq<Col>, Seq<char>>(
                                    unknown_column_message(part@),
                                ));
                                assert(is_bad_arg(e, unknown_column_message(part@)));
                            }
                            return Err(e);
                        },
                    }
                }
                i += 1;
            }
            assert(ps.take(pieces@.len() as int) =~= ps);
            if out.len() == 0 {
                let mut m: Vec<char> = Vec::new();
                push_str(&mut m, "--cols is empty");
                assert(m@ =~= "--cols is empty"@);
                let e = Error::BadArg(string_of(&m));
                assert(is_bad_arg(e, "--cols is empty"@));
                return Err(e);
            }
            Ok(out)
        },
        None => {
            let mut out = vec![Col::Year, Col::Name];
            if let Some(extra) = column_for_sort(sort_field) {
                if !contains_col(&out, extra) {
                    out.insert(1, extra);
                }
            }
            assert(out@ =~= default_cols(sort_field));
            Ok(out)
        },
    }
}

/// Once a prefix of the pieces fails, every longer prefix fails with the same message.
proof fn lemma_col_err_persists(ps: Seq<Seq<char>>, n: int, m: Seq<char>)
    requires
        0 <= n <= ps.len(),
        col_pieces(ps.take(n)) == Err::<Seq<Col>, Seq<char>>(m),
    ensures
        col_pieces(ps) == Err::<Seq<Col>, Seq<char>>(m),
    decreases ps.len() - n,
{
    if n < ps.len() {
        assert(ps.take(n + 1).drop_last() =~= ps.take(n));
        lemma_col_err_persists(ps, n + 1, m);
    } else {
        assert(ps.take(n) =~= ps);
    }
}

/// Without `--cols`, the table shows the year, then the column of the field
/// it is sorted by (the column called by the same word as the sort field,
/// where there is one other than year and name), then the name.
pub proof fn lemma_default_columns_show_sort_field(w: Seq<char>)
    requires
        sort_field_named(w) is Some,
    ensures
        match col_named(w) {
            Some(c) => resolved_columns(None, sort_field_named(w)->0) == Ok::<Seq<Col>, Seq<char>>(
                if c == Col::Year || c == Col::Name {
                    seq![Col::Year, Col::Name]
                } else {
                    seq![Col::Year, c, Col::Name]
                },
            ),
            None => resolved_columns(None, sort_field_named(w)->0) == Ok::<Seq<Col>, Seq<char>>(
                seq![Col::Year, Col::Name],
            ),
        },
{
    reveal_strlit("name");
    reveal_strlit("year");
    reveal_strlit("bggid");
    reveal_strlit("plays");
    reveal_strlit("rating");
    reveal_strlit("time");
    reveal_strlit("added");
    reveal_strlit("geek");
    reveal_strlit("players");
    assert("name"@.len() == 4 && "name"@[0] == 'n');
    assert("year"@.len() == 4 && "year"@[0] == 'y');
    assert("bggid"@.len() == 5 && "bggid"@[0] == 'b');
    assert("plays"@.len() == 5 && "plays"@[0] == 'p');
    assert("rating"@.len() == 6 && "rating"@[0] == 'r');
    assert("time"@.len() == 4 && "time"@[0] == 't');
    assert("added"@.len() == 5 && "added"@[0] == 'a');
    assert("geek"@.len() == 4 && "geek"@[0] == 'g');
    assert("players"@.len() == 7 && "players"@[0] == 'p');
}

} // verus!
