//! Laying the table out as text lines: visible widths (terminal hyperlinks
//! take no room), right padding, and the footer line.

use crate::list::columns::{col_header, Col};
use crate::text::{chars_of, push_chars, push_decimal, push_str, string_of};
use vstd::prelude::*;

verus! {

/// The number of characters a terminal shows for `s` from position `i` on,
/// `in_link` telling whether an OSC 8 hyperlink sequence is open: a link
/// opens at ESC followed by `]`, and everything up to the next ESC `\` is
/// invisible (an ESC followed by anything else swallows that character too).
pub open spec fn visible_from(s: Seq<char>, i: int, in_link: bool) -> nat
    decreases s.len() - i,
{
    if i < 0 || i >= s.len() {
        0
    } else if !in_link {
        if s[i] == '\x1b' && i + 1 < s.len() && s[i + 1] == ']' {
            visible_from(s, i + 1, true)
        } else {
            1 + visible_from(s, i + 1, false)
        }
    } else if s[i] == '\x1b' {
        if i + 1 < s.len() {
            if s[i + 1] == '\\' {
                visible_from(s, i + 2, false)
            } else {
                visible_from(s, i + 2, true)
            }
        } else {
            0
        }
    } else {
        visible_from(s, i + 1, true)
    }
}

/// The visible width of `s`.
pub open spec fn visible_width(s: Seq<char>) -> nat {
    visible_from(s, 0, false)
}

/// The visible width of a text never exceeds its length.
pub proof fn lemma_visible_bounded(s: Seq<char>, i: int, in_link: bool)
    requires
        0 <= i,
    ensures
        visible_from(s, i, in_link) <= if i < s.len() { s.len() - i } else { 0 },
    decreases s.len() - i,
{
    if i < s.len() {
        if !in_link {
            if s[i] == '\x1b' && i + 1 < s.len() && s[i + 1] == ']' {
                lemma_visible_bounded(s, i + 1, true);
            } else {
                lemma_visible_bounded(s, i + 1, false);
            }
        } else if s[i] == '\x1b' {
            if i + 1 < s.len() {
                lemma_visible_bounded(s, i + 2, s[i + 1] != '\\');
            }
        } else {
            lemma_visible_bounded(s, i + 1, true);
        }
    }
}

/// The visible width of `s`.
pub fn display_width(s: &Vec<char>) -> (w: usize)
    ensures
        w == visible_width(s@),
{
    let n = s.len();
    let mut i: usize = 0;
    let mut in_link = false;
    let mut count: usize = 0;
    proof {
        lemma_visible_bounded(s@, 0, false);
    }
    while i < n
        invariant
            n == s@.len(),
            i <= n,
            count + visible_from(s@, i as int, in_link) == visible_width(s@),
            count <= i,
        decreases n - i,
    {
        if !in_link {
            if s[i] == '\x1b' && i + 1 < n && s[i + 1] == ']' {
                in_link = true;
                i += 1;
            } else {
                count += 1;
                i += 1;
            }
        } else if s[i] == '\x1b' {
            if i + 1 < n {
                if s[i + 1] == '\\' {
                    in_link = false;
                }
                i += 2;
            } else {
                i = n;
            }
        } else {
            i += 1;
        }
    }
    count
}

/// `n` spaces.
pub open spec fn spaces(n: nat) -> Seq<char> {
    Seq::new(n, |k: int| ' ')
}

/// `s` padded with spaces to visible width `width` (unchanged when already as wide).
pub open spec fn padded(s: Seq<char>, width: nat) -> Seq<char> {
    if visible_width(s) >= width {
        s
    } else {
        s + spaces((width - visible_width(s)) as nat)
    }
}

/// `s` padded with spaces on the right to visible width `width`.
pub fn pad_right(s: &Vec<char>, width: usize) -> (r: Vec<char>)
    ensures
        r@ == padded(s@, width as nat),
{
    let w = display_width(s);
    let mut out = s.clone();
    if w >= width {
        return out;
    }
    let k = width - w;
    let mut j: usize = 0;
    while j < k
        invariant
            j <= k,
            out@ == s@ + spaces(j as nat),
        decreases k - j,
    {
        out.push(' ');
        assert(out@ =~= s@ + spaces((j + 1) as nat));
        j += 1;
    }
    out
}

/// The OSC 8 terminal hyperlink that shows `text` and links to `url`.
pub open spec fn hyperlink_text(url: Seq<char>, text: Seq<char>) -> Seq<char> {
    "\x1b]8;;"@ + url + "\x1b\\"@ + text + "\x1b]8;;\x1b\\"@
}

/// The OSC 8 terminal hyperlink that shows `text` and links to `url`.
pub fn hyperlink(url: &str, text: &str) -> (r: String)
    ensures
        r@ == hyperlink_text(url@, text@),
{
    let mut out: Vec<char> = Vec::new();
    push_str(&mut out, "\x1b]8;;");
    push_str(&mut out, url);
    push_str(&mut out, "\x1b\\");
    push_str(&mut out, text);
    push_str(&mut out, "\x1b]8;;\x1b\\");
    string_of(&out)
}

/// A run without ESC shows each of its characters outside a link and none
/// inside one.
proof fn lemma_plain_run(s: Seq<char>, i: int, j: int, in_link: bool)
    requires
        0 <= i <= j <= s.len(),
        forall|k: int| i <= k < j ==> s[k] != '\x1b',
    ensures
        visible_from(s, i, in_link) == (if in_link { 0 } else { j - i }) + visible_from(s, j, in_link),
    decreases j - i,
{
    if i < j {
        lemma_plain_run(s, i + 1, j, in_link);
    }
}

/// Text without escape sequences is as wide as it is long, and a terminal
/// hyperlink is as wide as the text it shows: the link sequences take no
/// room.
pub proof fn lemma_hyperlink_width(url: Seq<char>, text: Seq<char>)
    requires
        !url.contains('\x1b'),
        !text.contains('\x1b'),
    ensures
        visible_width(text) == text.len(),
        visible_width(hyperlink_text(url, text)) == text.len(),
{
    reveal_strlit("\x1b]8;;");
    reveal_strlit("\x1b\\");
    reveal_strlit("\x1b]8;;\x1b\\");
    assert forall|k: int| 0 <= k < text.len() implies text[k] != '\x1b' by {
        if text[k] == '\x1b' {
            assert(text.contains('\x1b'));
        }
    }
    lemma_plain_run(text, 0, text.len() as int, false);
    let h = hyperlink_text(url, text);
    let u = url.len() as int;
    let t = text.len() as int;
    assert(h.len() == 14 + u + t);
    assert(h[0] == '\x1b' && h[1] == ']');
    assert forall|k: int| 1 <= k < 5 + u implies h[k] != '\x1b' by {
        if k >= 5 {
            assert(h[k] == url[k - 5]);
            if url[k - 5] == '\x1b' {
                assert(url.contains('\x1b'));
            }
        }
    }
    lemma_plain_run(h, 1, 5 + u, true);
    assert(h[5 + u] == '\x1b' && h[6 + u] == '\\');
    assert forall|k: int| 7 + u <= k < 7 + u + t implies h[k] != '\x1b' by {
        assert(h[k] == text[k - 7 - u]);
    }
    lemma_plain_run(h, 7 + u, 7 + u + t, false);
    let e = 7 + u + t;
    assert(h[e] == '\x1b' && h[e + 1] == ']');
    assert forall|k: int| e + 1 <= k < e + 5 implies h[k] != '\x1b' by {}
    lemma_plain_run(h, e + 1, e + 5, true);
    assert(h[e + 5] == '\x1b' && h[e + 6] == '\\');
    assert(visible_from(h, e + 7, false) == 0);
}

/// The footer under the table: no match, a partial count, or the total.
pub open spec fn footer_text(shown: nat, total: nat) -> Seq<char> {
    if total == 0 {
        "No items match the filter."@
    } else if shown < total {
        "Showing "@ + crate::text::decimal(shown) + " of "@ + crate::text::decimal(total)
            + " items."@
    } else {
        crate::text::decimal(total) + " items."@
    }
}

/// The footer line under a table that shows `shown` of `total` matching items.
pub fn footer(shown: usize, total: usize) -> (r: String)
    ensures
        r@ == footer_text(shown as nat, total as nat),
{
    let mut out: Vec<char> = Vec::new();
    if total == 0 {
        push_str(&mut out, "No items match the filter.");
    } else if shown < total {
        push_str(&mut out, "Showing ");
        push_decimal(&mut out, shown as u64);
        push_str(&mut out, " of ");
        push_decimal(&mut out, total as u64);
        push_str(&mut out, " items.");
    } else {
        push_decimal(&mut out, total as u64);
        push_str(&mut out, " items.");
    }
    assert(out@ =~= footer_text(shown as nat, total as nat));
    string_of(&out)
}

/// The widest of the header and the cells of column `c` in the first `n` rows.
pub open spec fn column_width(header: Seq<char>, rows: Seq<Seq<Seq<char>>>, c: int, n: int) -> nat
    decreases n,
{
    if n <= 0 {
        header.len()
    } else {
        let prev = column_width(header, rows, c, n - 1);
        let w = visible_width(rows[n - 1][c]);
        if w > prev {
            w
        } else {
            prev
        }
    }
}

/// One line of the table: every cell padded to its column's width and
/// followed by two spaces, except a last column that may run free.
pub open spec fn table_line(cells: Seq<Seq<char>>, widths: Seq<nat>, last_free: bool) -> Seq<char>
    decreases cells.len(),
{
    if cells.len() == 0 {
        Seq::empty()
    } else {
        let k = cells.len() - 1;
        let prev = table_line(cells.drop_last(), widths, false);
        if last_free {
            prev + cells[k]
        } else {
            prev + padded(cells[k], widths[k]) + "  "@
        }
    }
}

fn push_cell(out: &mut Vec<char>, cell: &Vec<char>, width: usize, free: bool)
    ensures
        final(out)@ == old(out)@ + (if free {
            cell@
        } else {
            padded(cell@, width as nat) + "  "@
        }),
{
    if free {
        push_chars(out, cell);
    } else {
        let p = pad_right(cell, width);
        push_chars(out, &p);
        push_str(out, "  ");
    }
}

/// The text of one table line, from its cells and the column widths.
pub fn layout_line(cells: &Vec<Vec<char>>, widths: &Vec<usize>, last_free: bool) -> (r: Vec<char>)
    requires
        widths@.len() == cells@.len(),
    ensures
        r@ == table_line(
            cells@.map_values(|c: Vec<char>| c@),
            widths@.map_values(|w: usize| w as nat),
            last_free,
        ),
{
    let ghost cv = cells@.map_values(|c: Vec<char>| c@);
    let ghost wv = widths@.map_values(|w: usize| w as nat);
    let n = cells.len();
    let mut out: Vec<char> = Vec::new();
    let mut i: usize = 0;
    while i < n
        invariant
            n == cells@.len(),
            widths@.len() == n,
            cv == cells@.map_values(|c: Vec<char>| c@),
            wv == widths@.map_values(|w: usize| w as nat),
            i <= n,
            out@ == table_line(cv.take(i as int), wv, false),
            last_free && n > 0 ==> i < n,
        decreases n - i,
    {
        let free = last_free && i + 1 == n;
        push_cell(&mut out, &cells[i], widths[i], free);
        proof {
            assert(cv.take(i as int + 1).drop_last() =~= cv.take(i as int));
            if !free {
                assert(out@ == table_line(cv.take(i as int + 1), wv, false));
            }
        }
        if free {
            proof {
                assert(cv.take(i as int + 1) =~= cv);
            }
            return out;
        }
        i += 1;
    }
    proof {
        assert(cv.take(n as int) =~= cv);
        if last_free && n > 0 {
            assert(false);
        }
        if n == 0 {
            assert(table_line(cv, wv, last_free) == Seq::<char>::empty());
        }
    }
    out
}

/// The text of each cell of each row.
pub open spec fn row_texts(rows: Seq<Vec<String>>) -> Seq<Seq<Seq<char>>> {
    rows.map_values(|r: Vec<String>| r@.map_values(|c: String| c@))
}

/// The headers of the columns.
pub open spec fn header_texts(cols: Seq<Col>) -> Seq<Seq<char>> {
    cols.map_values(|c: Col| col_header(c))
}

/// The width of each column: the widest of its header and its cells.
pub open spec fn table_widths(cols: Seq<Col>, rows: Seq<Seq<Seq<char>>>) -> Seq<nat> {
    Seq::new(cols.len(), |c: int| column_width(col_header(cols[c]), rows, c, rows.len() as int))
}

/// Whether the last column runs unpadded: it is the name.
pub open spec fn last_runs_free(cols: Seq<Col>) -> bool {
    cols.len() > 0 && cols.last() == Col::Name
}

/// The lines of the table: the header line, then one line per row.
pub open spec fn table_text(cols: Seq<Col>, rows: Seq<Seq<Seq<char>>>) -> Seq<Seq<char>> {
    let w = table_widths(cols, rows);
    let free = last_runs_free(cols);
    seq![table_line(header_texts(cols), w, free)] + rows.map_values(
        |r: Seq<Seq<char>>| table_line(r, w, free),
    )
}

/// The lines of the table with columns `cols` and cell texts `rows`: each
/// column as wide as its widest header or cell, separated by two spaces, the
/// name unpadded when it comes last.
pub fn render_table(cols: &Vec<Col>, rows: &Vec<Vec<String>>) -> (lines: Vec<String>)
    requires
        forall|r: int| 0 <= r < rows@.len() ==> (#[trigger] rows@[r])@.len() == cols@.len(),
        cols@.len() <= usize::MAX,
    ensures
        lines@.map_values(|l: String| l@) == table_text(cols@, row_texts(rows@)),
{
    let ghost rt = row_texts(rows@);
    let nc = cols.len();
    let nr = rows.len();
    // cell texts
    let mut cells: Vec<Vec<Vec<char>>> = Vec::new();
    let mut r: usize = 0;
    while r < nr
        invariant
            nr == rows@.len(),
            nc == cols@.len(),
            rt == row_texts(rows@),
            forall|q: int| 0 <= q < nr ==> (#[trigger] rows@[q])@.len() == nc,
            r <= nr,
            cells@.len() == r,
            forall|q: int| 0 <= q < r ==> (#[trigger] cells@[q])@.map_values(|c: Vec<char>| c@) == rt[q],
        decreases nr - r,
    {
        let mut row: Vec<Vec<char>> = Vec::new();
        let mut c: usize = 0;
        while c < nc
            invariant
                nr == rows@.len(),
                nc == cols@.len(),
                r < nr,
                rows@[r as int]@.len() == nc,
                c <= nc,
                row@.len() == c,
                forall|k: int| 0 <= k < c ==> (#[trigger] row@[k])@ == rows@[r as int]@[k]@,
            decreases nc - c,
        {
            row.push(chars_of(rows[r][c].as_str()));
            c += 1;
        }
        assert(row@.map_values(|x: Vec<char>| x@) =~= rt[r as int]);
        cells.push(row);
        r += 1;
    }
    // widths
    let mut widths: Vec<usize> = Vec::new();
    let mut c: usize = 0;
    while c < nc
        invariant
            nc == cols@.len(),
            c <= nc,
            widths@.len() == c,
            forall|k: int| 0 <= k < c ==> #[trigger] widths@[k] == col_header(cols@[k]).len(),
        decreases nc - c,
    {
        widths.push(chars_of(cols[c].header()).len());
        c += 1;
    }
    let mut r: usize = 0;
    while r < nr
        invariant
            nr == rows@.len(),
            nc == cols@.len(),
            rt == row_texts(rows@),
            cells@.len() == nr,
            forall|q: int| 0 <= q < nr ==> (#[trigger] cells@[q])@.map_values(|x: Vec<char>| x@) == rt[q],
            forall|q: int| 0 <= q < nr ==> (#[trigger] rows@[q])@.len() == nc,
            r <= nr,
            widths@.len() == nc,
            forall|k: int| 0 <= k < nc ==> #[trigger] widths@[k] == column_width(col_header(cols@[k]), rt, k, r as int),
        decreases nr - r,
    {
        let mut c: usize = 0;
        while c < nc
            invariant
                nr == rows@.len(),
                nc == cols@.len(),
                r < nr,
                cells@.len() == nr,
                cells@[r as int]@.map_values(|x: Vec<char>| x@) == rt[r as int],
                rows@[r as int]@.len() == nc,
                rt == row_texts(rows@),
                c <= nc,
                widths@.len() == nc,
                forall|k: int| 0 <= k < c ==> #[trigger] widths@[k] == column_width(col_header(cols@[k]), rt, k, r + 1),
                forall|k: int| c <= k < nc ==> #[trigger] widths@[k] == column_width(col_header(cols@[k]), rt, k, r as int),
            decreases nc - c,
        {
            assert(rt[r as int] == rows@[r as int]@.map_values(|x: String| x@));
            assert(rt[r as int].len() == nc);
            assert(cells@[r as int]@.map_values(|x: Vec<char>| x@).len() == cells@[r as int]@.len());
            assert(cells@[r as int]@.len() == nc);
            assert(cells@[r as int]@.map_values(|x: Vec<char>| x@)[c as int] == cells@[r as int]@[c as int]@);
            assert(rt[r as int][c as int] == cells@[r as int]@[c as int]@);
            let w = display_width(&cells[r][c]);
            if w > widths[c] {
                widths.set(c, w);
            }
            c += 1;
        }
        r += 1;
    }
    proof {
        assert(widths@.map_values(|w: usize| w as nat) =~= table_widths(cols@, rt));
    }
    let free = nc > 0 && cols[nc - 1].is_last_friendly();
    let mut lines: Vec<String> = Vec::new();
    let mut header_cells: Vec<Vec<char>> = Vec::new();
    let mut c: usize = 0;
    while c < nc
        invariant
            nc == cols@.len(),
            c <= nc,
            header_cells@.len() == c,
            forall|k: int| 0 <= k < c ==> (#[trigger] header_cells@[k])@ == col_header(cols@[k]),
        decreases nc - c,
    {
        header_cells.push(chars_of(cols[c].header()));
        c += 1;
    }
    assert(header_cells@.map_values(|x: Vec<char>| x@) =~= header_texts(cols@));
    lines.push(string_of(&layout_line(&header_cells, &widths, free)));
    let mut r: usize = 0;
    while r < nr
        invariant
            nr == rows@.len(),
            nc == cols@.len(),
            rt == row_texts(rows@),
            cells@.len() == nr,
            forall|q: int| 0 <= q < nr ==> (#[trigger] cells@[q])@.map_values(|x: Vec<char>| x@) == rt[q],
            forall|q: int| 0 <= q < nr ==> (#[trigger] rows@[q])@.len() == nc,
            widths@.len() == nc,
            widths@.map_values(|w: usize| w as nat) == table_widths(cols@, rt),
            free == last_runs_free(cols@),
            r <= nr,
            lines@.len() == r + 1,
            lines@[0]@ == table_line(header_texts(cols@), table_widths(cols@, rt), free),
            forall|q: int| 0 <= q < r ==> (#[trigger] lines@[q + 1])@ == table_line(rt[q], table_widths(cols@, rt), free),
        decreases nr - r,
    {
        assert(cells@[r as int]@.len() == nc) by {
            assert(cells@[r as int]@.map_values(|x: Vec<char>| x@).len() == rt[r as int].len());
        }
        let line = layout_line(&cells[r], &widths, free);
        lines.push(string_of(&line));
        proof {
            assert(lines@[r + 1]@ == table_line(rt[r as int], table_widths(cols@, rt), free));
        }
        r += 1;
    }
    proof {
        let want = table_text(cols@, rt);
        let got = lines@.map_values(|l: String| l@);
        assert forall|q: int| 0 <= q < got.len() implies got[q] == want[q] by {
            if q > 0 {
                let qq = q - 1;
                assert(lines@[qq + 1]@ == table_line(rt[qq], table_widths(cols@, rt), free));
            }
        }
        assert(got =~= want);
    }
    lines
}

} // verus!
