//! Laying out a table as text: a header line, a rule, and a line per row,
//! each column padded to its widest entry.
use vstd::prelude::*;
use crate::db::csv::push_all;
use crate::text::{chars_of, string_from_chars};

verus! {

/// The number of bytes of the UTF-8 encoding of `s` (what `str::len` counts).
pub open spec fn utf8_len(s: Seq<char>) -> nat {
    vstd::utf8::encode_utf8(s).len()
}

/// `n` copies of `c`.
pub open spec fn repeated(c: char, n: nat) -> Seq<char> {
    Seq::new(n, |i: int| c)
}

/// `s` followed by spaces up to `w` characters (as `{:w$}` formats it).
pub open spec fn pad(s: Seq<char>, w: nat) -> Seq<char> {
    if s.len() < w {
        s + repeated(' ', (w - s.len()) as nat)
    } else {
        s
    }
}

/// The width of a column: the byte length of its longest entry, the name
/// included.
pub open spec fn width(name: Seq<char>, entries: Seq<Seq<char>>) -> nat
    decreases entries.len(),
{
    if entries.len() == 0 {
        utf8_len(name)
    } else {
        let w = width(name, entries.drop_last());
        let l = utf8_len(entries.last());
        if l > w {
            l
        } else {
            w
        }
    }
}

/// The entries of column `c`, row by row.
pub open spec fn column(rows: Seq<Seq<Seq<char>>>, c: int) -> Seq<Seq<char>> {
    Seq::new(rows.len(), |r: int| rows[r][c])
}

/// The widths of all columns.
pub open spec fn widths(names: Seq<Seq<char>>, rows: Seq<Seq<Seq<char>>>) -> Seq<nat> {
    Seq::new(names.len(), |c: int| width(names[c], column(rows, c)))
}

/// A line of cells: ` | `, then each cell padded to its width and
/// followed by ` | `, then a line break.
pub open spec fn cells_line(cells: Seq<Seq<char>>, ws: Seq<nat>) -> Seq<char>
    decreases cells.len(),
{
    if cells.len() == 0 {
        seq![' ', '|', ' ']
    } else {
        cells_line(cells.drop_last(), ws) + pad(cells.last(), ws[cells.len() - 1]) + seq![
            ' ',
            '|',
            ' ',
        ]
    }
}

/// The rule under the header: `-+-`, then dashes as wide as each column
/// followed by `-+-`.
pub open spec fn rule_line(ws: Seq<nat>) -> Seq<char>
    decreases ws.len(),
{
    if ws.len() == 0 {
        seq!['-', '+', '-']
    } else {
        rule_line(ws.drop_last()) + repeated('-', ws.last()) + seq!['-', '+', '-']
    }
}

/// The lines of the rows, each ended by a line break.
pub open spec fn row_lines(rows: Seq<Seq<Seq<char>>>, ws: Seq<nat>) -> Seq<char>
    decreases rows.len(),
{
    if rows.len() == 0 {
        seq![]
    } else {
        row_lines(rows.drop_last(), ws) + cells_line(rows.last(), ws) + seq!['\n']
    }
}

/// The whole layout: header, rule, rows.
pub open spec fn grid_text(names: Seq<Seq<char>>, rows: Seq<Seq<Seq<char>>>) -> Seq<char> {
    let ws = widths(names, rows);
    cells_line(names, ws) + seq!['\n'] + rule_line(ws) + seq!['\n'] + row_lines(rows, ws)
}

/// The texts of a list of strings.
pub open spec fn texts_of(v: Seq<String>) -> Seq<Seq<char>> {
    v.map_values(|s: String| s@)
}

/// The texts of a list of rows of strings.
pub open spec fn rows_of(v: Seq<Vec<String>>) -> Seq<Seq<Seq<char>>> {
    v.map_values(|r: Vec<String>| texts_of(r@))
}

/// The width of column `c` (see [`width`]).
fn column_width(names: &Vec<String>, rows: &Vec<Vec<String>>, c: usize) -> (w: usize)
    requires
        c < names@.len(),
        forall|r: int| 0 <= r < rows@.len() ==> (#[trigger] rows@[r])@.len() == names@.len(),
    ensures
        w == width(texts_of(names@)[c as int], column(rows_of(rows@), c as int)),
{
    let ghost col = column(rows_of(rows@), c as int);
    let name = names[c].as_str();
    let mut w: usize = name.as_bytes().len();
    assert(texts_of(names@)[c as int] == name@);
    assert(w == utf8_len(name@));
    assert(col.take(0) =~= Seq::<Seq<char>>::empty());
    let mut r: usize = 0;
    while r < rows.len()
        invariant
            c < names@.len(),
            forall|k: int| 0 <= k < rows@.len() ==> (#[trigger] rows@[k])@.len() == names@.len(),
            r <= rows@.len(),
            col == column(rows_of(rows@), c as int),
            w == width(texts_of(names@)[c as int], col.take(r as int)),
        decreases rows@.len() - r,
    {
        let e = rows[r][c].as_str();
        let l = e.as_bytes().len();
        assert(l == utf8_len(e@));
        proof {
            assert(col.take(r + 1).drop_last() =~= col.take(r as int));
            assert(col.take(r + 1).last() == rows@[r as int]@[c as int]@);
        }
        if l > w {
            w = l;
        }
        r = r + 1;
    }
    assert(col.take(r as int) =~= col);
    w
}

/// Appends `n` copies of `c`.
fn push_repeated(out: &mut Vec<char>, c: char, n: usize)
    ensures
        final(out)@ == old(out)@ + repeated(c, n as nat),
{
    let mut i: usize = 0;
    while i < n
        invariant
            i <= n,
            out@ == old(out)@ + repeated(c, i as nat),
        decreases n - i,
    {
        out.push(c);
        i = i + 1;
        assert(out@ =~= old(out)@ + repeated(c, i as nat));
    }
}

/// Appends a line of cells (without its line break).
fn push_cells(out: &mut Vec<char>, cells: &Vec<String>, ws: &Vec<usize>)
    requires
        cells@.len() == ws@.len(),
    ensures
        final(out)@ == old(out)@ + cells_line(
            texts_of(cells@),
            ws@.map_values(|w: usize| w as nat),
        ),
{
    let ghost wn = ws@.map_values(|w: usize| w as nat);
    let ghost t = texts_of(cells@);
    out.push(' ');
    out.push('|');
    out.push(' ');
    let mut c: usize = 0;
    while c < cells.len()
        invariant
            cells@.len() == ws@.len(),
            c <= cells@.len(),
            wn == ws@.map_values(|w: usize| w as nat),
            t == texts_of(cells@),
            out@ == old(out)@ + cells_line(t.take(c as int), wn),
        decreases cells@.len() - c,
    {
        let s = chars_of(cells[c].as_str());
        push_all(out, &s);
        if s.len() < ws[c] {
            push_repeated(out, ' ', ws[c] - s.len());
        }
        out.push(' ');
        out.push('|');
        out.push(' ');
        proof {
            assert(t.take(c + 1).drop_last() =~= t.take(c as int));
            assert(t.take(c + 1).last() == s@);
            assert(out@ =~= old(out)@ + cells_line(t.take(c + 1), wn));
        }
        c = c + 1;
    }
    assert(t.take(c as int) =~= t);
}

/// Lays out a table of texts: the column names, then each row's entries
/// (see [`grid_text`]). Every row has an entry per name.
pub fn render_grid(names: &Vec<String>, rows: &Vec<Vec<String>>) -> (s: String)
    requires
        forall|r: int| 0 <= r < rows@.len() ==> (#[trigger] rows@[r])@.len() == names@.len(),
    ensures
        s@ == grid_text(texts_of(names@), rows_of(rows@)),
{
    let ghost ws_spec = widths(texts_of(names@), rows_of(rows@));
    let mut ws: Vec<usize> = Vec::new();
    let mut c: usize = 0;
    while c < names.len()
        invariant
            forall|r: int| 0 <= r < rows@.len() ==> (#[trigger] rows@[r])@.len() == names@.len(),
            c <= names@.len(),
            ws_spec == widths(texts_of(names@), rows_of(rows@)),
            ws@.len() == c,
            forall|k: int| 0 <= k < c ==> #[trigger] ws@[k] as nat == ws_spec[k],
        decreases names@.len() - c,
    {
        ws.push(column_width(names, rows, c));
        c = c + 1;
    }
    let ghost wn = ws@.map_values(|w: usize| w as nat);
    assert(wn =~= ws_spec);
    let mut out: Vec<char> = Vec::new();
    push_cells(&mut out, names, &ws);
    out.push('\n');
    out.push('-');
    out.push('+');
    out.push('-');
    let mut c: usize = 0;
    while c < ws.len()
        invariant
            c <= ws@.len(),
            wn == ws@.map_values(|w: usize| w as nat),
            out@ == cells_line(texts_of(names@), wn) + seq!['\n'] + rule_line(wn.take(c as int)),
        decreases ws@.len() - c,
    {
        push_repeated(&mut out, '-', ws[c]);
        out.push('-');
        out.push('+');
        out.push('-');
        proof {
            assert(wn.take(c + 1).drop_last() =~= wn.take(c as int));
            assert(out@ =~= cells_line(texts_of(names@), wn) + seq!['\n'] + rule_line(
                wn.take(c + 1),
            ));
        }
        c = c + 1;
    }
    assert(wn.take(c as int) =~= wn);
    out.push('\n');
    let ghost head = out@;
    let ghost rs = rows_of(rows@);
    let mut r: usize = 0;
    while r < rows.len()
        invariant
            forall|k: int| 0 <= k < rows@.len() ==> (#[trigger] rows@[k])@.len() == names@.len(),
            ws@.len() == names@.len(),
            r <= rows@.len(),
            wn == ws@.map_values(|w: usize| w as nat),
            rs == rows_of(rows@),
            out@ == head + row_lines(rs.take(r as int), wn),
        decreases rows@.len() - r,
    {
        push_cells(&mut out, &rows[r], &ws);
        out.push('\n');
        proof {
            assert(rs.take(r + 1).drop_last() =~= rs.take(r as int));
            assert(rs.take(r + 1).last() == texts_of(rows@[r as int]@));
            assert(out@ =~= head + row_lines(rs.take(r + 1), wn));
        }
        r = r + 1;
    }
    assert(rs.take(r as int) =~= rs);
    string_from_chars(out)
}

proof fn lemma_width_bounds(name: Seq<char>, entries: Seq<Seq<char>>)
    ensures
        utf8_len(name) <= width(name, entries),
        forall|r: int| 0 <= r < entries.len() ==> utf8_len(#[trigger] entries[r]) <= width(name, entries),
    decreases entries.len(),
{
    if entries.len() > 0 {
        lemma_width_bounds(name, entries.drop_last());
        assert forall|r: int| 0 <= r < entries.len() implies utf8_len(#[trigger] entries[r]) <= width(
            name,
            entries,
        ) by {
            if r < entries.len() - 1 {
                assert(entries[r] == entries.drop_last()[r]);
            }
        }
    }
}

/// Every entry fits its column: a column is as wide as its name and as
/// each of its entries, counted in bytes.
pub proof fn law_entries_fit(names: Seq<Seq<char>>, rows: Seq<Seq<Seq<char>>>)
    requires
        forall|r: int| 0 <= r < rows.len() ==> (#[trigger] rows[r]).len() == names.len(),
    ensures
        widths(names, rows).len() == names.len(),
        forall|c: int| 0 <= c < names.len() ==> utf8_len(#[trigger] names[c]) <= widths(names, rows)[c],
        forall|r: int, c: int|
            0 <= r < rows.len() && 0 <= c < names.len() ==> utf8_len(#[trigger] rows[r][c])
                <= widths(names, rows)[c],
{
    assert forall|c: int| 0 <= c < names.len() implies utf8_len(#[trigger] names[c]) <= widths(names, rows)[c] by {
        lemma_width_bounds(names[c], column(rows, c));
    }
    assert forall|r: int, c: int|
        0 <= r < rows.len() && 0 <= c < names.len() implies utf8_len(#[trigger] rows[r][c])
        <= widths(names, rows)[c] by {
        lemma_width_bounds(names[c], column(rows, c));
        assert(column(rows, c)[r] == rows[r][c]);
    }
}

} // verus!
