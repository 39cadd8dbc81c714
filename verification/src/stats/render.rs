//! Text the statistics views share: how long ago something happened, the
//! sections of the overview, and horizontal bars.

use crate::model::Timestamp;
use crate::text::{decimal, push_decimal, push_str, string_of};
use vstd::prelude::*;

verus! {

/// Whole seconds from `then` to `now`, or zero when `now` is not later:
/// the elapsed time rounded down, as chrono's `num_seconds` gives it for a
/// non-negative span (times are compared field by field).
pub open spec fn elapsed_secs(then: Timestamp, now: Timestamp) -> nat {
    let d = (now.secs - then.secs) - if now.nanos < then.nanos {
        1int
    } else {
        0int
    };
    if d < 0 {
        0
    } else {
        d as nat
    }
}

/// How long ago, in the largest unit that fits: seconds under a minute read
/// "just now"; then minutes, hours, days, 30-day months, and 365-day years.
pub open spec fn since_text(s: nat) -> Seq<char> {
    let m = s / 60;
    let h = m / 60;
    let d = h / 24;
    let mo = d / 30;
    if s < 60 {
        "just now"@
    } else if m < 60 {
        decimal(m) + "m ago"@
    } else if h < 24 {
        decimal(h) + "h ago"@
    } else if d < 30 {
        decimal(d) + "d ago"@
    } else if mo < 12 {
        decimal(mo) + "mo ago"@
    } else {
        decimal(d / 365) + "y ago"@
    }
}

/// How long before `now` the time `then` was, in words.
pub fn human_since(then: Timestamp, now: Timestamp) -> (r: String)
    ensures
        r@ == since_text(elapsed_secs(then, now)),
{
    let borrow: i128 = if now.nanos < then.nanos {
        1
    } else {
        0
    };
    let d: i128 = (now.secs as i128 - then.secs as i128) - borrow;
    let s: u128 = if d < 0 {
        0
    } else {
        d as u128
    };
    assert(s == elapsed_secs(then, now));
    assert(s < 0x1_0000_0000_0000_0000u128);
    if s < 60 {
        return "just now".to_owned();
    }
    let m: u64 = (s / 60) as u64;
    let h: u64 = m / 60;
    let days: u64 = h / 24;
    let mo: u64 = days / 30;
    let mut out: Vec<char> = Vec::new();
    if m < 60 {
        push_decimal(&mut out, m);
        push_str(&mut out, "m ago");
    } else if h < 24 {
        push_decimal(&mut out, h);
        push_str(&mut out, "h ago");
    } else if days < 30 {
        push_decimal(&mut out, days);
        push_str(&mut out, "d ago");
    } else if mo < 12 {
        push_decimal(&mut out, mo);
        push_str(&mut out, "mo ago");
    } else {
        push_decimal(&mut out, days / 365);
        push_str(&mut out, "y ago");
    }
    string_of(&out)
}

/// A player range as shown: the count alone when both ends agree, else
/// `min-max`; `-` when there is none.
pub open spec fn range_text(r: Option<(u32, u32)>) -> Seq<char> {
    match r {
        None => "-"@,
        Some((a, b)) => if a == b {
            decimal(a as nat)
        } else {
            decimal(a as nat) + "-"@ + decimal(b as nat)
        },
    }
}

/// A player range as shown.
pub fn range_label(r: Option<(u32, u32)>) -> (s: String)
    ensures
        s@ == range_text(r),
{
    let mut out: Vec<char> = Vec::new();
    match r {
        None => push_str(&mut out, "-"),
        Some((a, b)) => {
            push_decimal(&mut out, a as u64);
            if a != b {
                push_str(&mut out, "-");
                push_decimal(&mut out, b as u64);
            }
        },
    }
    proof {
        reveal_strlit("-");
    }
    assert(out@ =~= range_text(r));
    string_of(&out)
}

/// The wishlist priorities as shown: `P<priority>: <count>` for each,
/// separated by two spaces.
pub open spec fn priorities_text(v: Seq<(u8, usize)>) -> Seq<char>
    decreases v.len(),
{
    if v.len() == 0 {
        Seq::empty()
    } else {
        let last = "P"@ + decimal(v.last().0 as nat) + ": "@ + decimal(v.last().1 as nat);
        if v.len() == 1 {
            last
        } else {
            priorities_text(v.drop_last()) + "  "@ + last
        }
    }
}

/// The wishlist priorities as shown.
pub fn priorities_label(v: &Vec<(u8, usize)>) -> (s: String)
    ensures
        s@ == priorities_text(v@),
{
    let mut out: Vec<char> = Vec::new();
    let mut i: usize = 0;
    while i < v.len()
        invariant
            i <= v@.len(),
            out@ == priorities_text(v@.take(i as int)),
        decreases v@.len() - i,
    {
        assert(v@.take(i as int + 1).drop_last() =~= v@.take(i as int));
        if i > 0 {
            push_str(&mut out, "  ");
        }
        push_str(&mut out, "P");
        push_decimal(&mut out, v[i].0 as u64);
        push_str(&mut out, ": ");
        push_decimal(&mut out, v[i].1 as u64);
        proof {
            let t = v@.take(i as int + 1);
            if i == 0 {
                assert(t.len() == 1);
            }
            assert(out@ =~= priorities_text(t));
        }
        i += 1;
    }
    assert(v@.take(v@.len() as int) =~= v@);
    string_of(&out)
}

/// A section of the overview's text.
#[derive(Debug, Clone, Copy, PartialEq, Eq, Structural)]
pub enum OverviewSection {
    /// The counts of items and statuses.
    Items,
    /// The note that no owned base game is cached.
    NoOwnedGames,
    Plays,
    Ratings,
    Year,
    Time,
    Players,
}

/// The sections of the overview, in order, given the number of owned base
/// games: the item counts always; then, with none owned, only the note;
/// otherwise plays, ratings, year, time and players.
pub open spec fn overview_sections_of(owned_count: nat) -> Seq<OverviewSection> {
    if owned_count == 0 {
        seq![OverviewSection::Items, OverviewSection::NoOwnedGames]
    } else {
        seq![
            OverviewSection::Items,
            OverviewSection::Plays,
            OverviewSection::Ratings,
            OverviewSection::Year,
            OverviewSection::Time,
            OverviewSection::Players,
        ]
    }
}

/// The sections the overview prints, in order.
pub fn overview_sections(owned_count: usize) -> (s: Vec<OverviewSection>)
    ensures
        s@ == overview_sections_of(owned_count as nat),
{
    let mut s: Vec<OverviewSection> = Vec::new();
    s.push(OverviewSection::Items);
    if owned_count == 0 {
        s.push(OverviewSection::NoOwnedGames);
    } else {
        s.push(OverviewSection::Plays);
        s.push(OverviewSection::Ratings);
        s.push(OverviewSection::Year);
        s.push(OverviewSection::Time);
        s.push(OverviewSection::Players);
    }
    assert(s@ =~= overview_sections_of(owned_count as nat));
    s
}

/// The note printed when no owned base game is cached.
pub open spec fn no_owned_note_text() -> Seq<char> {
    "No owned boardgames cached — `bgg sync` first."@
}

/// The note printed when no owned base game is cached.
pub fn no_owned_note() -> (m: &'static str)
    ensures
        m@ == no_owned_note_text(),
{
    "No owned boardgames cached — `bgg sync` first."
}

/// How many cells of a bar `width` cells wide a count fills when the
/// largest count is `max`: the count's share of the width, rounded down.
pub open spec fn bar_cells(count: nat, max: nat, width: nat) -> nat {
    if max == 0 {
        0
    } else {
        count * width / max
    }
}

/// A horizontal bar: `bar_cells` full blocks, then spaces to `width`.
pub open spec fn bar_text(count: nat, max: nat, width: nat) -> Seq<char> {
    let n = bar_cells(count, max, width);
    Seq::new(n, |i: int| '\u{2588}') + Seq::new((width - n) as nat, |i: int| ' ')
}

/// A horizontal bar for `count` against the largest count `max`, `width`
/// cells wide.
pub fn bar_chart(count: usize, max: usize, width: usize) -> (r: String)
    requires
        count <= max,
    ensures
        r@ == bar_text(count as nat, max as nat, width as nat),
        bar_cells(count as nat, max as nat, width as nat) <= width,
{
    let n: usize = if max == 0 {
        0
    } else {
        let c: u128 = count as u128;
        let w: u128 = width as u128;
        assert(c * w <= u128::MAX) by (nonlinear_arith)
            requires
                c <= u64::MAX,
                w <= u64::MAX,
        {
            assert(c * w <= (u64::MAX as int) * (u64::MAX as int));
        }
        let prod: u128 = c * w;
        let q: u128 = prod / (max as u128);
        assert(q <= width) by (nonlinear_arith)
            requires
                q == (count as int) * (width as int) / (max as int),
                count <= max,
                max > 0,
                width >= 0,
        {
            assert((count as int) * (width as int) <= (max as int) * (width as int));
        }
        q as usize
    };
    assert(n == bar_cells(count as nat, max as nat, width as nat));
    let mut out: Vec<char> = Vec::new();
    let mut k: usize = 0;
    while k < n
        invariant
            k <= n,
            out@ == Seq::new(k as nat, |i: int| '\u{2588}'),
        decreases n - k,
    {
        out.push('\u{2588}');
        k += 1;
        assert(out@ =~= Seq::new(k as nat, |i: int| '\u{2588}'));
    }
    let mut j: usize = n;
    while j < width
        invariant
            n <= j <= width,
            out@ == Seq::new(n as nat, |i: int| '\u{2588}') + Seq::new((j - n) as nat, |i: int| ' '),
        decreases width - j,
    {
        out.push(' ');
        j += 1;
        assert(out@ =~= Seq::new(n as nat, |i: int| '\u{2588}') + Seq::new((j - n) as nat, |i: int| ' '));
    }
    string_of(&out)
}

} // verus!
